//! The validated configuration record the simulator runs from.
use vstd::prelude::*;
use crate::topology::{LinkConfig, is_router_name, RouterId};

verus! {

pub struct SimulationConfig {
    pub mtu: u32,
    pub seed: Option<u64>,
}

pub struct RealTunConfig {
    pub name: String,
    pub address: String,
    /// A dotted IPv4 netmask, or an IPv6 prefix length (empty: 64).
    pub netmask: String,
}

pub struct InterfacesConfig {
    pub tun_a: String,
    pub tun_b: String,
    pub real_tun_a: RealTunConfig,
    pub real_tun_b: RealTunConfig,
}

pub struct TunIngressConfig {
    pub tun_a_ingress: String,
    pub tun_b_ingress: String,
    pub tun_a_prefix: String,
    pub tun_b_prefix: String,
    pub tun_a_ipv6_prefix: String,
    pub tun_b_ipv6_prefix: String,
}

pub struct VirtualCustomerConfig {
    pub src_ip: Option<String>,
    pub dst_ip: Option<String>,
    pub protocol: Option<u8>,
    pub size: Option<usize>,
    pub rate: Option<u64>,
}

/// Routers by name, and links by name `A_B`, in the order given.
pub struct TopologyConfig {
    pub routers: Vec<String>,
    pub links: Vec<(String, LinkConfig)>,
}

pub struct SimulatorConfig {
    pub simulation: SimulationConfig,
    pub interfaces: InterfacesConfig,
    pub tun_ingress: TunIngressConfig,
    pub topology: TopologyConfig,
    pub enable_multipath: bool,
    pub packet_file: Option<String>,
    pub packet_files: Option<Vec<String>>,
    pub packet_inject_tun: Option<String>,
    pub packet_inject_tuns: Option<Vec<String>>,
    pub virtual_customer: Option<VirtualCustomerConfig>,
}

pub fn default_enable_multipath() -> (r: bool)
    ensures
        !r,
{
    false
}

pub fn default_mtu() -> (r: u32)
    ensures
        r == 1500,
{
    1500
}

fn text(s: &str) -> (r: String)
    ensures
        r@ == s@,
{
    String::from_str(s)
}

pub fn default_tun_a() -> (r: String)
    ensures
        r@ == "tunA"@,
{
    text("tunA")
}

pub fn default_tun_b() -> (r: String)
    ensures
        r@ == "tunB"@,
{
    text("tunB")
}

pub fn default_real_tun_name() -> (r: String)
    ensures
        r@ == "tun0"@,
{
    text("tun0")
}

pub fn default_real_tun_addr() -> (r: String)
    ensures
        r@ == "10.0.0.1"@,
{
    text("10.0.0.1")
}

pub fn default_real_tun_netmask() -> (r: String)
    ensures
        r@ == "255.255.255.0"@,
{
    text("255.255.255.0")
}

pub fn default_real_tun_a() -> (r: RealTunConfig)
    ensures
        r.name@ == "tun0a"@,
        r.address@ == "10.0.0.1"@,
        r.netmask@ == "255.255.255.0"@,
{
    RealTunConfig { name: text("tun0a"), address: text("10.0.0.1"), netmask: text("255.255.255.0") }
}

pub fn default_real_tun_b() -> (r: RealTunConfig)
    ensures
        r.name@ == "tun0b"@,
        r.address@ == "10.0.1.1"@,
        r.netmask@ == "255.255.255.0"@,
{
    RealTunConfig { name: text("tun0b"), address: text("10.0.1.1"), netmask: text("255.255.255.0") }
}

pub fn default_ingress_a() -> (r: String)
    ensures
        r@ == "Rx0y0"@,
{
    text("Rx0y0")
}

pub fn default_ingress_b() -> (r: String)
    ensures
        r@ == "Rx5y5"@,
{
    text("Rx5y5")
}

pub fn default_prefix_a() -> (r: String)
    ensures
        r@ == "10."@,
{
    text("10.")
}

pub fn default_prefix_b() -> (r: String)
    ensures
        r@.len() == 0,
{
    String::new()
}

pub fn default_ipv6_prefix_a() -> (r: String)
    ensures
        r@.len() == 0,
{
    String::new()
}

pub fn default_ipv6_prefix_b() -> (r: String)
    ensures
        r@.len() == 0,
{
    String::new()
}

impl Default for SimulationConfig {
    fn default() -> (r: SimulationConfig)
        ensures
            r.mtu == 1500,
            r.seed is None,
    {
        SimulationConfig { mtu: default_mtu(), seed: None }
    }
}

impl Default for InterfacesConfig {
    fn default() -> (r: InterfacesConfig)
        ensures
            r.tun_a@ == "tunA"@,
            r.tun_b@ == "tunB"@,
    {
        InterfacesConfig {
            tun_a: default_tun_a(),
            tun_b: default_tun_b(),
            real_tun_a: default_real_tun_a(),
            real_tun_b: default_real_tun_b(),
        }
    }
}

impl Default for TunIngressConfig {
    fn default() -> (r: TunIngressConfig)
        ensures
            r.tun_a_ingress@ == "Rx0y0"@,
            r.tun_b_ingress@ == "Rx5y5"@,
            r.tun_a_prefix@ == "10."@,
            r.tun_b_prefix@.len() == 0,
            r.tun_a_ipv6_prefix@.len() == 0,
            r.tun_b_ipv6_prefix@.len() == 0,
    {
        TunIngressConfig {
            tun_a_ingress: default_ingress_a(),
            tun_b_ingress: default_ingress_b(),
            tun_a_prefix: default_prefix_a(),
            tun_b_prefix: default_prefix_b(),
            tun_a_ipv6_prefix: default_ipv6_prefix_a(),
            tun_b_ipv6_prefix: default_ipv6_prefix_b(),
        }
    }
}

impl Default for TopologyConfig {
    fn default() -> (r: TopologyConfig)
        ensures
            r.routers@.len() == 0,
            r.links@.len() == 0,
    {
        TopologyConfig { routers: Vec::new(), links: Vec::new() }
    }
}

impl Default for SimulatorConfig {
    fn default() -> (r: SimulatorConfig)
        ensures
            r.topology.routers@.len() == 0,
            r.topology.links@.len() == 0,
            !r.enable_multipath,
            r.packet_file is None,
            r.packet_files is None,
            r.packet_inject_tun is None,
            r.packet_inject_tuns is None,
            r.virtual_customer is None,
            r.tun_ingress.tun_a_ingress@ == "Rx0y0"@,
            r.tun_ingress.tun_b_ingress@ == "Rx5y5"@,
    {
        SimulatorConfig {
            simulation: SimulationConfig::default(),
            interfaces: InterfacesConfig::default(),
            tun_ingress: TunIngressConfig::default(),
            topology: TopologyConfig::default(),
            enable_multipath: default_enable_multipath(),
            packet_file: None,
            packet_files: None,
            packet_inject_tun: None,
            packet_inject_tuns: None,
            virtual_customer: None,
        }
    }
}

/// The rules a configuration is checked against, in the order they are checked.
#[derive(Clone, Copy, Debug, PartialEq, Eq, Structural)]
pub enum ConfigRule {
    BothPacketFiles,
    InjectWithoutFile,
    InjectsWithoutFiles,
    InvalidInjectTun,
    InvalidInjectTuns,
    CountMismatch,
    EmptyPacketFiles,
    NoRouters,
    InvalidLinkName,
    UnknownRouter,
    DuplicateLink,
    IngressNotFound,
    InvalidRouterId,
}

/// Why a configuration was refused.
#[derive(Clone, Debug, PartialEq, Eq)]
pub enum ConfigError {
    BothPacketFiles,
    InjectWithoutFile,
    InjectsWithoutFiles,
    InvalidInjectTun(String),
    InvalidInjectTuns(String),
    CountMismatch(usize, usize),
    EmptyPacketFiles,
    NoRouters,
    InvalidLinkName(String),
    UnknownRouter(String, String),
    DuplicateLink(String),
    IngressNotFound(String),
    InvalidRouterId(String),
}

impl ConfigError {
    pub open spec fn rule(&self) -> ConfigRule {
        match *self {
            ConfigError::BothPacketFiles => ConfigRule::BothPacketFiles,
            ConfigError::InjectWithoutFile => ConfigRule::InjectWithoutFile,
            ConfigError::InjectsWithoutFiles => ConfigRule::InjectsWithoutFiles,
            ConfigError::InvalidInjectTun(_) => ConfigRule::InvalidInjectTun,
            ConfigError::InvalidInjectTuns(_) => ConfigRule::InvalidInjectTuns,
            ConfigError::CountMismatch(_, _) => ConfigRule::CountMismatch,
            ConfigError::EmptyPacketFiles => ConfigRule::EmptyPacketFiles,
            ConfigError::NoRouters => ConfigRule::NoRouters,
            ConfigError::InvalidLinkName(_) => ConfigRule::InvalidLinkName,
            ConfigError::UnknownRouter(_, _) => ConfigRule::UnknownRouter,
            ConfigError::DuplicateLink(_) => ConfigRule::DuplicateLink,
            ConfigError::IngressNotFound(_) => ConfigRule::IngressNotFound,
            ConfigError::InvalidRouterId(_) => ConfigRule::InvalidRouterId,
        }
    }
}

/// An injection direction names one of the two taps.
pub open spec fn is_direction(s: Seq<char>) -> bool {
    s == "tun_a"@ || s == "tun_b"@
}

/// `s` holds exactly one `_`, at `u`.
pub open spec fn single_underscore_at(s: Seq<char>, u: int) -> bool {
    0 <= u < s.len() && s[u] == '_' && forall|k: int| 0 <= k < s.len() && k != u ==> s[k] != '_'
}

/// A link name `A_B`: exactly one underscore.
pub open spec fn is_link_name(s: Seq<char>) -> bool {
    exists|u: int| single_underscore_at(s, u)
}

pub open spec fn link_left(s: Seq<char>) -> Seq<char> {
    s.subrange(0, choose|u: int| single_underscore_at(s, u))
}

pub open spec fn link_right(s: Seq<char>) -> Seq<char> {
    s.subrange((choose|u: int| single_underscore_at(s, u)) + 1, s.len() as int)
}

pub open spec fn listed(names: Seq<String>, n: Seq<char>) -> bool {
    exists|i: int| 0 <= i < names.len() && names[i]@ == n
}

/// Links `i` and `k` join the same two routers, in either order.
pub open spec fn same_pair(links: Seq<(String, LinkConfig)>, i: int, k: int) -> bool {
    let a = link_left(links[i].0@);
    let b = link_right(links[i].0@);
    let c = link_left(links[k].0@);
    let d = link_right(links[k].0@);
    (a == c && b == d) || (a == d && b == c)
}

/// The rule link `i` breaks, if any, given the links before it.
pub open spec fn link_failure(routers: Seq<String>, links: Seq<(String, LinkConfig)>, i: int) -> Option<ConfigRule> {
    let n = links[i].0@;
    if !is_link_name(n) {
        Some(ConfigRule::InvalidLinkName)
    } else if !listed(routers, link_left(n)) || !listed(routers, link_right(n)) {
        Some(ConfigRule::UnknownRouter)
    } else if exists|k: int| 0 <= k < i && is_link_name(links[k].0@) && same_pair(links, i, k) {
        Some(ConfigRule::DuplicateLink)
    } else {
        None
    }
}

/// The first rule broken among the first `m` links.
pub open spec fn links_failure(routers: Seq<String>, links: Seq<(String, LinkConfig)>, m: nat) -> Option<ConfigRule>
    decreases m,
{
    if m == 0 {
        None
    } else {
        match links_failure(routers, links, (m - 1) as nat) {
            Some(r) => Some(r),
            None => link_failure(routers, links, m - 1),
        }
    }
}

pub open spec fn all_directions(ds: Seq<String>) -> bool {
    forall|i: int| 0 <= i < ds.len() ==> is_direction(ds[i]@)
}

/// The first rule `c` breaks, in checking order; `None` when it is valid.
pub open spec fn first_failure(c: SimulatorConfig) -> Option<ConfigRule> {
    let routers = c.topology.routers@;
    if c.packet_file is Some && c.packet_files is Some {
        Some(ConfigRule::BothPacketFiles)
    } else if c.packet_inject_tun is Some && c.packet_file is None {
        Some(ConfigRule::InjectWithoutFile)
    } else if c.packet_inject_tuns is Some && c.packet_files is None {
        Some(ConfigRule::InjectsWithoutFiles)
    } else if c.packet_inject_tun is Some && !is_direction(c.packet_inject_tun->0@) {
        Some(ConfigRule::InvalidInjectTun)
    } else if c.packet_inject_tuns is Some && !all_directions(c.packet_inject_tuns->0@) {
        Some(ConfigRule::InvalidInjectTuns)
    } else if c.packet_files is Some && c.packet_inject_tuns is Some && c.packet_files->0@.len()
        != c.packet_inject_tuns->0@.len() {
        Some(ConfigRule::CountMismatch)
    } else if c.packet_files is Some && c.packet_inject_tuns is Some && c.packet_files->0@.len() == 0 {
        Some(ConfigRule::EmptyPacketFiles)
    } else if routers.len() == 0 {
        Some(ConfigRule::NoRouters)
    } else if links_failure(routers, c.topology.links@, c.topology.links@.len()) is Some {
        links_failure(routers, c.topology.links@, c.topology.links@.len())
    } else if !listed(routers, c.tun_ingress.tun_a_ingress@) || !listed(routers, c.tun_ingress.tun_b_ingress@) {
        Some(ConfigRule::IngressNotFound)
    } else if !is_router_name(c.tun_ingress.tun_a_ingress@) || !is_router_name(c.tun_ingress.tun_b_ingress@) {
        Some(ConfigRule::InvalidRouterId)
    } else {
        None
    }
}

/// Splits a link name `A_B` at its only underscore.
pub fn split_link_name(name: &String) -> (r: Option<(String, String)>)
    ensures
        r is Some <==> is_link_name(name@),
        r matches Some((a, b)) ==> a@ == link_left(name@) && b@ == link_right(name@),
{
    let s = name.as_str();
    let len = s.unicode_len();
    let mut count: usize = 0;
    let mut pos: usize = 0;
    let mut i: usize = 0;
    while i < len
        invariant
            len == s@.len(),
            i <= len,
            count <= i,
            count == 0 ==> forall|k: int| 0 <= k < i ==> s@[k] != '_',
            count >= 1 ==> pos < i && s@[pos as int] == '_',
            count == 1 ==> forall|k: int| 0 <= k < i && k != pos ==> s@[k] != '_',
            count >= 2 ==> exists|k: int| 0 <= k < i && k != pos && s@[k] == '_',
        decreases len - i,
    {
        if s.get_char(i) == '_' {
            if count >= 1 {
                proof {
                    assert(i as int != pos as int && s@[i as int] == '_');
                }
            }
            count = if count < 2 { count + 1 } else { 2 };
            if count == 1 {
                pos = i;
            }
        }
        i = i + 1;
    }
    if count != 1 {
        proof {
            if count == 0 {
                assert forall|u: int| !single_underscore_at(s@, u) by {}
            } else {
                assert forall|u: int| !single_underscore_at(s@, u) by {
                    if single_underscore_at(s@, u) {
                        let k = choose|k: int| 0 <= k < i && k != pos && s@[k] == '_';
                        assert(u == pos as int);
                    }
                }
            }
        }
        return None;
    }
    proof {
        assert(single_underscore_at(s@, pos as int));
        let u = choose|u: int| single_underscore_at(s@, u);
        assert(u == pos as int);
    }
    let a = s.substring_char(0, pos);
    let b = s.substring_char(pos + 1, len);
    Some((String::from_str(a), String::from_str(b)))
}

/// Once a prefix of the links breaks a rule, that stays the first broken rule.
proof fn lemma_links_failure_stays(routers: Seq<String>, links: Seq<(String, LinkConfig)>, m: nat, n: nat)
    requires
        m <= n,
        links_failure(routers, links, m) is Some,
    ensures
        links_failure(routers, links, n) == links_failure(routers, links, m),
    decreases n - m,
{
    if m < n {
        lemma_links_failure_stays(routers, links, m, (n - 1) as nat);
    }
}

fn is_listed(names: &Vec<String>, n: &String) -> (r: bool)
    ensures
        r == listed(names@, n@),
{
    let mut i: usize = 0;
    while i < names.len()
        invariant
            i <= names@.len(),
            forall|k: int| 0 <= k < i ==> names@[k]@ != n@,
        decreases names@.len() - i,
    {
        if names[i] == *n {
            return true;
        }
        i = i + 1;
    }
    false
}

fn is_direction_exec(s: &String) -> (r: bool)
    ensures
        r == is_direction(s@),
{
    proof {
        reveal_strlit("tun_a");
        reveal_strlit("tun_b");
    }
    let a = String::from_str("tun_a");
    let b = String::from_str("tun_b");
    *s == a || *s == b
}

/// The first direction that names neither tap.
fn first_bad_direction(ds: &Vec<String>) -> (r: Option<usize>)
    ensures
        r is None <==> all_directions(ds@),
        r matches Some(i) ==> i < ds@.len(),
{
    let mut i: usize = 0;
    while i < ds.len()
        invariant
            i <= ds@.len(),
            forall|k: int| 0 <= k < i ==> is_direction(ds@[k]@),
        decreases ds@.len() - i,
    {
        if !is_direction_exec(&ds[i]) {
            return Some(i);
        }
        i = i + 1;
    }
    None
}

/// Checks the links in order: each name must be `A_B` over listed routers,
/// and no two links may join the same routers, in either order.
fn check_links(routers: &Vec<String>, links: &Vec<(String, LinkConfig)>) -> (r: Result<(), ConfigError>)
    ensures
        match links_failure(routers@, links@, links@.len()) {
            None => r is Ok,
            Some(rule) => r matches Err(e) && e.rule() == rule,
        },
{
    let mut pairs: Vec<(String, String)> = Vec::new();
    let mut i: usize = 0;
    while i < links.len()
        invariant
            i <= links@.len(),
            links_failure(routers@, links@, i as nat) is None,
            pairs@.len() == i,
            forall|k: int| 0 <= k < i ==> is_link_name(#[trigger] links@[k].0@) && pairs@[k].0@ == link_left(links@[k].0@)
                && pairs@[k].1@ == link_right(links@[k].0@),
        decreases links@.len() - i,
    {
        let name = &links[i].0;
        let (a, b) = match split_link_name(name) {
            Some(p) => p,
            None => {
                proof {
                    lemma_links_failure_stays(routers@, links@, (i + 1) as nat, links@.len());
                }
                return Err(ConfigError::InvalidLinkName(name.clone()));
            },
        };
        if !is_listed(routers, &a) || !is_listed(routers, &b) {
            proof {
                lemma_links_failure_stays(routers@, links@, (i + 1) as nat, links@.len());
            }
            let unknown = if !is_listed(routers, &a) {
                a
            } else {
                b
            };
            return Err(ConfigError::UnknownRouter(name.clone(), unknown));
        }
        let mut k: usize = 0;
        while k < i
            invariant
                i < links@.len(),
                k <= i,
                pairs@.len() == i,
                a@ == link_left(links@[i as int].0@),
                b@ == link_right(links@[i as int].0@),
                is_link_name(links@[i as int].0@),
                listed(routers@, a@),
                listed(routers@, b@),
                links_failure(routers@, links@, i as nat) is None,
                forall|m: int| 0 <= m < i ==> is_link_name(#[trigger] links@[m].0@) && pairs@[m].0@ == link_left(links@[m].0@)
                    && pairs@[m].1@ == link_right(links@[m].0@),
                forall|m: int| 0 <= m < k ==> !same_pair(links@, i as int, m),
            decreases i - k,
        {
            let (c, d) = (&pairs[k].0, &pairs[k].1);
            if (a == *c && b == *d) || (a == *d && b == *c) {
                proof {
                    assert(same_pair(links@, i as int, k as int));
                    assert(is_link_name(links@[k as int].0@));
                    assert(link_failure(routers@, links@, i as int) == Some(ConfigRule::DuplicateLink));
                    lemma_links_failure_stays(routers@, links@, (i + 1) as nat, links@.len());
                }
                return Err(ConfigError::DuplicateLink(name.clone()));
            }
            k = k + 1;
        }
        pairs.push((a, b));
        proof {
            assert(link_failure(routers@, links@, i as int) is None);
        }
        i = i + 1;
    }
    Ok(())
}

impl SimulatorConfig {
    /// Checks the configuration's rules in order and reports the first broken.
    pub fn check(&self) -> (r: Result<(), ConfigError>)
        ensures
            match first_failure(*self) {
                None => r is Ok,
                Some(rule) => r matches Err(e) && e.rule() == rule,
            },
    {
        if self.packet_file.is_some() && self.packet_files.is_some() {
            return Err(ConfigError::BothPacketFiles);
        }
        if self.packet_inject_tun.is_some() && self.packet_file.is_none() {
            return Err(ConfigError::InjectWithoutFile);
        }
        if self.packet_inject_tuns.is_some() && self.packet_files.is_none() {
            return Err(ConfigError::InjectsWithoutFiles);
        }
        if let Some(dir) = &self.packet_inject_tun {
            if !is_direction_exec(dir) {
                return Err(ConfigError::InvalidInjectTun(dir.clone()));
            }
        }
        if let Some(dirs) = &self.packet_inject_tuns {
            if let Some(i) = first_bad_direction(dirs) {
                return Err(ConfigError::InvalidInjectTuns(dirs[i].clone()));
            }
        }
        if let (Some(files), Some(injects)) = (&self.packet_files, &self.packet_inject_tuns) {
            if files.len() != injects.len() {
                return Err(ConfigError::CountMismatch(files.len(), injects.len()));
            }
            if files.len() == 0 {
                return Err(ConfigError::EmptyPacketFiles);
            }
        }
        if self.topology.routers.len() == 0 {
            return Err(ConfigError::NoRouters);
        }
        match check_links(&self.topology.routers, &self.topology.links) {
            Ok(()) => {},
            Err(e) => {
                return Err(e);
            },
        }
        let ia = &self.tun_ingress.tun_a_ingress;
        let ib = &self.tun_ingress.tun_b_ingress;
        if !is_listed(&self.topology.routers, ia) {
            return Err(ConfigError::IngressNotFound(ia.clone()));
        }
        if !is_listed(&self.topology.routers, ib) {
            return Err(ConfigError::IngressNotFound(ib.clone()));
        }
        if RouterId(ia.clone()).validate().is_err() {
            return Err(ConfigError::InvalidRouterId(ia.clone()));
        }
        if RouterId(ib.clone()).validate().is_err() {
            return Err(ConfigError::InvalidRouterId(ib.clone()));
        }
        Ok(())
    }
}

pub open spec fn digit_char(d: nat) -> char {
    if d == 0 {
        '0'
    } else if d == 1 {
        '1'
    } else if d == 2 {
        '2'
    } else if d == 3 {
        '3'
    } else if d == 4 {
        '4'
    } else if d == 5 {
        '5'
    } else if d == 6 {
        '6'
    } else if d == 7 {
        '7'
    } else if d == 8 {
        '8'
    } else {
        '9'
    }
}

/// `n` in decimal.
pub open spec fn decimal(n: nat) -> Seq<char>
    decreases n,
{
    if n < 10 {
        seq![digit_char(n)]
    } else {
        decimal(n / 10).push(digit_char(n % 10))
    }
}

fn digit_text(d: usize) -> (r: &'static str)
    requires
        d < 10,
    ensures
        r@ == seq![digit_char(d as nat)],
{
    proof {
        reveal_strlit("0");
        reveal_strlit("1");
        reveal_strlit("2");
        reveal_strlit("3");
        reveal_strlit("4");
        reveal_strlit("5");
        reveal_strlit("6");
        reveal_strlit("7");
        reveal_strlit("8");
        reveal_strlit("9");
    }
    if d == 0 {
        "0"
    } else if d == 1 {
        "1"
    } else if d == 2 {
        "2"
    } else if d == 3 {
        "3"
    } else if d == 4 {
        "4"
    } else if d == 5 {
        "5"
    } else if d == 6 {
        "6"
    } else if d == 7 {
        "7"
    } else if d == 8 {
        "8"
    } else {
        "9"
    }
}

/// `n` written in decimal.
pub fn decimal_text(n: usize) -> (r: String)
    ensures
        r@ == decimal(n as nat),
    decreases n,
{
    if n < 10 {
        text(digit_text(n))
    } else {
        let mut s = decimal_text(n / 10);
        s.append(digit_text(n % 10));
        s
    }
}

fn wrap(pre: &str, x: &String, post: &str) -> (r: String)
    ensures
        r@ == pre@ + x@ + post@,
{
    let mut m = text(pre);
    m.append(x.as_str());
    m.append(post);
    m
}

/// The message reported for `e`.
pub open spec fn message_of(e: ConfigError) -> Seq<char> {
    match e {
        ConfigError::BothPacketFiles => "Both 'packet_file' and 'packet_files' are set; only one may be specified"@,
        ConfigError::InjectWithoutFile => "'packet_inject_tun' specified without a 'packet_file'"@,
        ConfigError::InjectsWithoutFiles => "'packet_inject_tuns' specified without 'packet_files'"@,
        ConfigError::EmptyPacketFiles => "packet_files list cannot be empty"@,
        ConfigError::NoRouters => "Topology must define at least one router"@,
        ConfigError::InvalidInjectTun(x) => "Invalid packet_inject_tun value '"@ + x@ + "', expected 'tun_a' or 'tun_b'"@,
        ConfigError::InvalidInjectTuns(x) => "Invalid packet_inject_tuns value '"@ + x@ + "', expected 'tun_a' or 'tun_b'"@,
        ConfigError::InvalidLinkName(x) => "Invalid link name '"@ + x@ + "', expected 'A_B' format"@,
        ConfigError::DuplicateLink(x) => "Duplicate bidirectional link detected: '"@ + x@ + "' and its opposite already defined"@,
        ConfigError::IngressNotFound(x) => "Ingress router '"@ + x@ + "' not found in topology"@,
        ConfigError::InvalidRouterId(x) => "Invalid router id '"@ + x@ + "', expected Rx[0-5]y[0-5]"@,
        ConfigError::UnknownRouter(l, x) => "Link '"@ + l@ + "' references unknown router '"@ + x@ + "'"@,
        ConfigError::CountMismatch(a, b) => "Number of packet files ("@ + decimal(a as nat) + ") does not match number of injection directions ("@ + decimal(b as nat) + ")"@,
    }
}

impl ConfigError {
    /// The message reported for this error.
    pub fn message(&self) -> (r: String)
        ensures
            r@ == message_of(*self),
    {
        match self {
            ConfigError::BothPacketFiles => text("Both 'packet_file' and 'packet_files' are set; only one may be specified"),
            ConfigError::InjectWithoutFile => text("'packet_inject_tun' specified without a 'packet_file'"),
            ConfigError::InjectsWithoutFiles => text("'packet_inject_tuns' specified without 'packet_files'"),
            ConfigError::EmptyPacketFiles => text("packet_files list cannot be empty"),
            ConfigError::NoRouters => text("Topology must define at least one router"),
            ConfigError::InvalidInjectTun(x) => wrap("Invalid packet_inject_tun value '", x, "', expected 'tun_a' or 'tun_b'"),
            ConfigError::InvalidInjectTuns(x) => wrap("Invalid packet_inject_tuns value '", x, "', expected 'tun_a' or 'tun_b'"),
            ConfigError::InvalidLinkName(x) => wrap("Invalid link name '", x, "', expected 'A_B' format"),
            ConfigError::DuplicateLink(x) => wrap("Duplicate bidirectional link detected: '", x, "' and its opposite already defined"),
            ConfigError::IngressNotFound(x) => wrap("Ingress router '", x, "' not found in topology"),
            ConfigError::InvalidRouterId(x) => wrap("Invalid router id '", x, "', expected Rx[0-5]y[0-5]"),
            ConfigError::UnknownRouter(l, x) => {
                let mut m = wrap("Link '", l, "' references unknown router '");
                m.append(x.as_str());
                m.append("'");
                m
            },
            ConfigError::CountMismatch(a, b) => {
                let mut m = text("Number of packet files (");
                let da = decimal_text(*a);
                m.append(da.as_str());
                m.append(") does not match number of injection directions (");
                let db = decimal_text(*b);
                m.append(db.as_str());
                m.append(")");
                m
            },
        }
    }
}

impl SimulatorConfig {
    /// Checks the configuration (see `check`) and reports the first broken
    /// rule as a message.
    pub fn validate(&self) -> (r: Result<(), String>)
        ensures
            match first_failure(*self) {
                None => r is Ok,
                Some(rule) => r matches Err(m) && exists|e: ConfigError| e.rule() == rule && m@ == message_of(e),
            },
    {
        match self.check() {
            Ok(()) => Ok(()),
            Err(e) => Err(e.message()),
        }
    }
}

} // verus!

//! Routers, links and their identifiers.
use vstd::prelude::*;
use crate::packet::IpAddress;
use crate::routing::RoutingTable;

verus! {

/// A router identifier such as `Rx2y3`.
#[derive(Clone, Debug, PartialEq, Eq, Hash)]
pub struct RouterId(pub String);

/// `s` is `Rx<d>y<e>` with single digits `d`, `e` in `0..=5`.
pub open spec fn is_router_name(s: Seq<char>) -> bool {
    &&& s.len() == 5
    &&& s[0] == 'R' && s[1] == 'x' && s[3] == 'y'
    &&& '0' <= s[2] <= '5'
    &&& '0' <= s[4] <= '5'
}

pub open spec fn is_decimal_digit(c: char) -> bool {
    '0' <= c <= '9'
}

pub open spec fn digit_value(c: char) -> u8 {
    (c as u32 - '0' as u32) as u8
}

/// The grid coordinates read from an identifier: it must be at least five
/// characters long, start with `Rx`, contain a `y`, and hold decimal digits
/// at positions 2 and 4.
pub open spec fn grid_of(s: Seq<char>) -> Option<(u8, u8)> {
    if s.len() >= 5 && s[0] == 'R' && s[1] == 'x' && (exists|i: int| 0 <= i < s.len() && s[i] == 'y')
        && is_decimal_digit(s[2]) && is_decimal_digit(s[4]) {
        Some((digit_value(s[2]), digit_value(s[4])))
    } else {
        None
    }
}

/// Relies on regex::Regex: the pattern `^Rx[0-5]y[0-5]$` matches exactly the
/// strings of five characters `R`, `x`, a digit 0..=5, `y`, a digit 0..=5.
#[verifier::external_body]
fn matches_router_pattern(s: &str) -> (r: bool)
    ensures
        r == is_router_name(s@),
{
    regex::Regex::new(r"^Rx[0-5]y[0-5]$").unwrap().is_match(s)
}

/// Why a router identifier was refused.
#[derive(Clone, Debug, PartialEq, Eq)]
pub struct InvalidRouterId(pub String);

impl RouterId {
    pub open spec fn name(&self) -> Seq<char> {
        self.0@
    }

    /// A copy of this identifier.
    pub fn duplicate(&self) -> (r: RouterId)
        ensures
            r.name() == self.name(),
    {
        RouterId(self.0.clone())
    }

    /// Whether two identifiers name the same router.
    pub fn same(&self, other: &RouterId) -> (r: bool)
        ensures
            r == (self.name() == other.name()),
    {
        self.0 == other.0
    }

    /// Checks the `Rx[0-5]y[0-5]` format.
    pub fn validate(&self) -> (r: Result<(), InvalidRouterId>)
        ensures
            r is Ok <==> is_router_name(self.name()),
    {
        if matches_router_pattern(self.0.as_str()) {
            Ok(())
        } else {
            Err(InvalidRouterId(self.0.clone()))
        }
    }

    /// Parses the grid coordinates (e.g. `Rx2y3` gives `(2, 3)`).
    pub fn grid_position(&self) -> (r: Option<(u8, u8)>)
        ensures
            r == grid_of(self.name()),
    {
        let s = self.0.as_str();
        let len = s.unicode_len();
        if len < 5 {
            return None;
        }
        if s.get_char(0) != 'R' || s.get_char(1) != 'x' {
            return None;
        }
        let mut found = false;
        let mut i: usize = 0;
        while i < len
            invariant
                len == s@.len(),
                i <= len,
                found == (exists|j: int| 0 <= j < i && s@[j] == 'y'),
            decreases len - i,
        {
            if s.get_char(i) == 'y' {
                found = true;
            }
            i = i + 1;
        }
        if !found {
            return None;
        }
        let cx = s.get_char(2);
        let cy = s.get_char(4);
        if !('0' <= cx && cx <= '9') || !('0' <= cy && cy <= '9') {
            return None;
        }
        Some(((cx as u32 - '0' as u32) as u8, (cy as u32 - '0' as u32) as u8))
    }
}

/// Per-router counters.
#[derive(Clone, Copy, Debug, Default, PartialEq, Eq, Structural)]
pub struct RouterStats {
    pub packets_received: u64,
    pub packets_forwarded: u64,
    pub packets_lost: u64,
    pub icmp_generated: u64,
}

/// `n + 1`, held at the largest `u64`.
pub open spec fn bump(n: u64) -> u64 {
    if n < u64::MAX {
        (n + 1) as u64
    } else {
        n
    }
}

fn bump_exec(n: u64) -> (r: u64)
    ensures
        r == bump(n),
{
    if n < u64::MAX {
        n + 1
    } else {
        n
    }
}

/// The IPv4 address `10.(100+x).y.1` of the router at grid position `(x, y)`.
pub open spec fn router_ipv4(x: u8, y: u8) -> u32 {
    (10 * 0x100_0000 + (100 + x) * 0x1_0000 + y * 256 + 1) as u32
}

/// The IPv6 address `fd00::x:y` of the router at grid position `(x, y)`.
pub open spec fn router_ipv6(x: u8, y: u8) -> u128 {
    (0xfd00 * 0x1_0000_0000_0000_0000_0000_0000_0000 + x * 0x1_0000 + y) as u128
}

/// A router of the fabric.
#[derive(Clone, Debug)]
pub struct Router {
    pub id: RouterId,
    /// Source of the ICMP errors this router sends.
    pub ipv4_addr: IpAddress,
    /// Source of the ICMPv6 errors this router sends.
    pub ipv6_addr: IpAddress,
    pub routing: RoutingTable,
    pub stats: RouterStats,
}

impl Router {
    /// A router with addresses derived from its grid position and zero counters.
    pub fn new(id: RouterId) -> (r: Router)
        ensures
            r.id == id,
            (r.ipv4_addr, r.ipv6_addr) == Router::addresses_of(id.name()),
            r.stats == RouterStats::default_spec(),
    {
        let (ipv4_addr, ipv6_addr) = Router::generate_addresses(&id);
        Router {
            id,
            ipv4_addr,
            ipv6_addr,
            routing: RoutingTable::default(),
            stats: RouterStats {
                packets_received: 0,
                packets_forwarded: 0,
                packets_lost: 0,
                icmp_generated: 0,
            },
        }
    }

    /// The addresses of the router named `s`: `10.(100+x).y.1` and `fd00::x:y`,
    /// or the unspecified addresses when `s` holds no grid position.
    pub open spec fn addresses_of(s: Seq<char>) -> (IpAddress, IpAddress) {
        match grid_of(s) {
            Some((x, y)) => (IpAddress::V4(router_ipv4(x, y)), IpAddress::V6(router_ipv6(x, y))),
            None => (IpAddress::V4(0), IpAddress::V6(0)),
        }
    }

    /// Derives the router's IPv4 and IPv6 addresses from its identifier.
    pub fn generate_addresses(id: &RouterId) -> (r: (IpAddress, IpAddress))
        ensures
            r == Router::addresses_of(id.name()),
    {
        match id.grid_position() {
            Some((x, y)) => {
                let v4: u32 = 10 * 0x100_0000 + (100 + x as u32) * 0x1_0000 + y as u32 * 256 + 1;
                let v6: u128 = 0xfd00 * 0x1_0000_0000_0000_0000_0000_0000_0000 + x as u128 * 0x1_0000
                    + y as u128;
                (IpAddress::V4(v4), IpAddress::V6(v6))
            },
            None => (IpAddress::V4(0), IpAddress::V6(0)),
        }
    }

    pub fn increment_received(&mut self)
        ensures
            final(self).stats == (RouterStats { packets_received: bump(old(self).stats.packets_received), ..old(self).stats }),
            final(self).id == old(self).id,
    {
        self.stats.packets_received = bump_exec(self.stats.packets_received);
    }

    pub fn increment_forwarded(&mut self)
        ensures
            final(self).stats == (RouterStats { packets_forwarded: bump(old(self).stats.packets_forwarded), ..old(self).stats }),
            final(self).id == old(self).id,
    {
        self.stats.packets_forwarded = bump_exec(self.stats.packets_forwarded);
    }

    pub fn increment_icmp(&mut self)
        ensures
            final(self).stats == (RouterStats { icmp_generated: bump(old(self).stats.icmp_generated), ..old(self).stats }),
            final(self).id == old(self).id,
    {
        self.stats.icmp_generated = bump_exec(self.stats.icmp_generated);
    }

    pub fn increment_lost(&mut self)
        ensures
            final(self).stats == (RouterStats { packets_lost: bump(old(self).stats.packets_lost), ..old(self).stats }),
            final(self).id == old(self).id,
    {
        self.stats.packets_lost = bump_exec(self.stats.packets_lost);
    }

    pub fn ipv4_addr(&self) -> (r: IpAddress)
        ensures
            r == self.ipv4_addr,
    {
        self.ipv4_addr
    }

    pub fn ipv6_addr(&self) -> (r: IpAddress)
        ensures
            r == self.ipv6_addr,
    {
        self.ipv6_addr
    }
}

impl RouterStats {
    pub open spec fn default_spec() -> RouterStats {
        RouterStats { packets_received: 0, packets_forwarded: 0, packets_lost: 0, icmp_generated: 0 }
    }
}

/// `a` sorts strictly before `b`, character by character.
pub open spec fn name_lt(a: Seq<char>, b: Seq<char>) -> bool {
    exists|k: int|
        0 <= k <= a.len() && k <= b.len() && a.subrange(0, k) == b.subrange(0, k) && ((k == a.len()
            && k < b.len()) || (k < a.len() && k < b.len() && (a[k] as u32) < (b[k] as u32)))
}

/// Whether `a` sorts strictly before `b`.
pub fn id_lt(a: &RouterId, b: &RouterId) -> (r: bool)
    ensures
        r == name_lt(a.name(), b.name()),
{
    let sa = a.0.as_str();
    let sb = b.0.as_str();
    let la = sa.unicode_len();
    let lb = sb.unicode_len();
    let mut i: usize = 0;
    while i < la && i < lb && sa.get_char(i) == sb.get_char(i)
        invariant
            la == sa@.len(),
            lb == sb@.len(),
            i <= la,
            i <= lb,
            forall|j: int| 0 <= j < i ==> sa@[j] == sb@[j],
        decreases la - i,
    {
        i = i + 1;
    }
    let ghost an = sa@;
    let ghost bn = sb@;
    proof {
        assert(an.subrange(0, i as int) =~= bn.subrange(0, i as int));
    }
    let r = if i < la && i < lb {
        (sa.get_char(i) as u32) < (sb.get_char(i) as u32)
    } else {
        i == la && i < lb
    };
    proof {
        if r {
            assert(name_lt(an, bn));
        } else {
            assert forall|k: int|
                0 <= k <= an.len() && k <= bn.len() && an.subrange(0, k) == bn.subrange(0, k) implies !((k == an.len()
                    && k < bn.len()) || (k < an.len() && k < bn.len() && (an[k] as u32) < (bn[k] as u32))) by {
                if k > i {
                    assert(an.subrange(0, k)[i as int] == an[i as int]);
                    assert(bn.subrange(0, k)[i as int] == bn[i as int]);
                }
                if k < i {
                    assert(an[k] == bn[k]);
                }
            }
        }
    }
    r
}

/// The unordered pair of routers a link joins, stored in sorted order.
#[derive(Clone, Debug, PartialEq, Eq, Hash)]
pub struct LinkId {
    pub a: RouterId,
    pub b: RouterId,
}

impl LinkId {
    /// Stored in sorted order.
    pub open spec fn canonical(&self) -> bool {
        !name_lt(self.b.name(), self.a.name())
    }

    /// Joins the routers named `x` and `y`, in either order.
    pub open spec fn joins(&self, x: Seq<char>, y: Seq<char>) -> bool {
        (self.a.name() == x && self.b.name() == y) || (self.a.name() == y && self.b.name() == x)
    }

    /// The link between `r1` and `r2`, with the smaller identifier first.
    pub fn new(r1: RouterId, r2: RouterId) -> (r: LinkId)
        ensures
            r.canonical(),
            r.joins(r1.name(), r2.name()),
            !name_lt(r2.name(), r1.name()) ==> r.a == r1 && r.b == r2,
            name_lt(r2.name(), r1.name()) ==> r.a == r2 && r.b == r1,
    {
        if id_lt(&r2, &r1) {
            proof {
                lemma_name_lt_asym(r2.name(), r1.name());
            }
            LinkId { a: r2, b: r1 }
        } else {
            LinkId { a: r1, b: r2 }
        }
    }

    /// A copy of this identifier.
    pub fn duplicate(&self) -> (r: LinkId)
        ensures
            r.a.name() == self.a.name(),
            r.b.name() == self.b.name(),
    {
        LinkId { a: self.a.duplicate(), b: self.b.duplicate() }
    }
}

pub proof fn lemma_name_lt_asym(a: Seq<char>, b: Seq<char>)
    requires
        name_lt(a, b),
    ensures
        !name_lt(b, a),
{
    let k = choose|k: int|
        0 <= k <= a.len() && k <= b.len() && a.subrange(0, k) == b.subrange(0, k) && ((k == a.len()
            && k < b.len()) || (k < a.len() && k < b.len() && (a[k] as u32) < (b[k] as u32)));
    assert forall|m: int|
        0 <= m <= b.len() && m <= a.len() && b.subrange(0, m) == a.subrange(0, m) implies !((m == b.len()
            && m < a.len()) || (m < b.len() && m < a.len() && (b[m] as u32) < (a[m] as u32))) by {
        if m < k {
            assert(a.subrange(0, k)[m] == a[m]);
            assert(b.subrange(0, k)[m] == b[m]);
        } else if m > k {
            assert(a.subrange(0, m)[k] == a[k]);
            assert(b.subrange(0, m)[k] == b[k]);
        }
    }
}

/// Static link parameters.
#[derive(Clone, Copy, Debug, PartialEq, Eq, Structural)]
pub struct LinkConfig {
    /// Largest packet, in bytes, the link carries.
    pub mtu: Option<u32>,
    /// Base one-way delay.
    pub delay_ms: u32,
    /// The delay varies by up to this much either way.
    pub jitter_ms: u32,
    /// Loss probability in hundredths of a percent (10000 drops every packet).
    pub loss_basis_points: u32,
    /// Whether load-balanced selection may pick this link.
    pub load_balance: bool,
}

/// Base delay of a link whose configuration leaves it unset.
pub fn default_delay() -> (r: u32)
    ensures
        r == 0,
{
    0
}

/// Jitter of a link whose configuration leaves it unset.
pub fn default_jitter() -> (r: u32)
    ensures
        r == 0,
{
    0
}

/// Loss of a link whose configuration leaves it unset.
pub fn default_loss() -> (r: u32)
    ensures
        r == 0,
{
    0
}

/// Routing cost of a link: its delay, at least 1.
pub open spec fn link_cost(delay_ms: u32) -> u32 {
    if delay_ms == 0 {
        1
    } else {
        delay_ms
    }
}

pub fn link_cost_exec(delay_ms: u32) -> (r: u32)
    ensures
        r == link_cost(delay_ms),
{
    if delay_ms == 0 {
        1
    } else {
        delay_ms
    }
}

impl LinkConfig {
    /// Zero delay, jitter and loss; no MTU; no load balancing.
    pub fn default_config() -> (r: LinkConfig)
        ensures
            r == (LinkConfig { mtu: None, delay_ms: 0, jitter_ms: 0, loss_basis_points: 0, load_balance: false }),
    {
        LinkConfig {
            mtu: None,
            delay_ms: default_delay(),
            jitter_ms: default_jitter(),
            loss_basis_points: default_loss(),
            load_balance: false,
        }
    }
}

/// A link of the fabric with its traversal counter.
#[derive(Debug)]
pub struct Link {
    pub id: LinkId,
    pub cfg: LinkConfig,
    /// Traversal attempts so far.
    pub counter: u64,
}

impl Link {
    /// The endpoint of this link that is not `from`.
    pub open spec fn other_end(&self, from: Seq<char>) -> Seq<char> {
        if self.id.a.name() == from {
            self.id.b.name()
        } else {
            self.id.a.name()
        }
    }
}

} // verus!

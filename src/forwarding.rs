//! Egress-link selection.
use vstd::prelude::*;
use std::collections::hash_map::DefaultHasher;
use std::hash::Hasher;
use vstd::std_specs::hash::DefaultHasherAdditionalSpecFns;
use crate::packet::{IpAddress, PacketMeta};
use crate::routing::{Destination, MultiPathTable, RouteEntry, RouterMap, RoutingTable};
use crate::topology::{Link, RouterId};

verus! {

/// `x` (modulo `256^n`) as `n` big-endian bytes.
pub open spec fn bytes_of(x: nat, n: nat) -> Seq<u8>
    decreases n,
{
    if n == 0 {
        Seq::empty()
    } else {
        bytes_of(x / 256, (n - 1) as nat).push((x % 256) as u8)
    }
}

fn encode(x: u128, n: usize) -> (r: Vec<u8>)
    ensures
        r@ == bytes_of(x as nat, n as nat),
    decreases n,
{
    if n == 0 {
        Vec::new()
    } else {
        let mut v = encode(x / 256, n - 1);
        v.push((x % 256) as u8);
        v
    }
}

pub open spec fn address_value(a: IpAddress) -> nat {
    match a {
        IpAddress::V4(x) => x as nat,
        IpAddress::V6(x) => x as nat,
    }
}

pub open spec fn family(a: IpAddress) -> u8 {
    match a {
        IpAddress::V4(_) => 4,
        IpAddress::V6(_) => 6,
    }
}

/// The bytes the 5-tuple of `p` is hashed as.
pub open spec fn flow_key(p: PacketMeta) -> Seq<u8> {
    seq![family(p.src_ip)] + bytes_of(address_value(p.src_ip), 16) + bytes_of(address_value(p.dst_ip), 16)
        + bytes_of(p.src_port as nat, 2) + bytes_of(p.dst_port as nat, 2) + seq![p.protocol]
}

fn flow_key_bytes(p: &PacketMeta) -> (r: Vec<u8>)
    ensures
        r@ == flow_key(*p),
{
    let (fam, src): (u8, u128) = match p.src_ip {
        IpAddress::V4(x) => (4, x as u128),
        IpAddress::V6(x) => (6, x),
    };
    let dst: u128 = match p.dst_ip {
        IpAddress::V4(x) => x as u128,
        IpAddress::V6(x) => x,
    };
    let mut r: Vec<u8> = Vec::new();
    r.push(fam);
    let a = encode(src, 16);
    let b = encode(dst, 16);
    let c = encode(p.src_port as u128, 2);
    let d = encode(p.dst_port as u128, 2);
    crate::bytes::append_range(&mut r, a.as_slice(), 0, a.len());
    crate::bytes::append_range(&mut r, b.as_slice(), 0, b.len());
    crate::bytes::append_range(&mut r, c.as_slice(), 0, c.len());
    crate::bytes::append_range(&mut r, d.as_slice(), 0, d.len());
    r.push(p.protocol);
    proof {
        assert(a@.subrange(0, a@.len() as int) =~= a@);
        assert(b@.subrange(0, b@.len() as int) =~= b@);
        assert(c@.subrange(0, c@.len() as int) =~= c@);
        assert(d@.subrange(0, d@.len() as int) =~= d@);
        assert(r@ =~= flow_key(*p));
    }
    r
}

/// Link `l` joins `r` to `nh`.
pub open spec fn leads_to(l: Link, r: Seq<char>, nh: Seq<char>) -> bool {
    (l.id.a.name() == r && l.id.b.name() == nh) || (l.id.b.name() == r && l.id.a.name() == nh)
}

/// Positions below `k` of the links from `r` to `nh`.
pub open spec fn toward(links: Seq<&Link>, r: Seq<char>, nh: Seq<char>, k: nat) -> Seq<usize>
    decreases k,
{
    if k == 0 {
        Seq::empty()
    } else {
        let s = toward(links, r, nh, (k - 1) as nat);
        if leads_to(*links[k - 1], r, nh) {
            s.push((k - 1) as usize)
        } else {
            s
        }
    }
}

/// Positions below `k` of the links that touch `r` and whose far end from `r`
/// is the next hop of some entry of `es`.
pub open spec fn reaching(links: Seq<&Link>, r: Seq<char>, es: Seq<RouteEntry>, k: nat) -> Seq<usize>
    decreases k,
{
    if k == 0 {
        Seq::empty()
    } else {
        let s = reaching(links, r, es, (k - 1) as nat);
        if (links[k - 1].id.a.name() == r || links[k - 1].id.b.name() == r) && exists|e: int|
            0 <= e < es.len() && links[k - 1].other_end(r) == (#[trigger] es[e]).next_hop.name() {
            s.push((k - 1) as usize)
        } else {
            s
        }
    }
}

/// Positions `0 .. k`.
pub open spec fn every(k: nat) -> Seq<usize> {
    Seq::new(k, |i: int| i as usize)
}

/// The load-balanced links among the first `k` candidates `c`.
pub open spec fn balanced(links: Seq<&Link>, c: Seq<usize>, k: nat) -> Seq<usize>
    decreases k,
{
    if k == 0 {
        Seq::empty()
    } else {
        let s = balanced(links, c, (k - 1) as nat);
        if links[c[k - 1] as int].cfg.load_balance {
            s.push(c[k - 1])
        } else {
            s
        }
    }
}

/// Sum, modulo 2^64, of the counters of the first `k` links of `b`.
pub open spec fn counter_total(links: Seq<&Link>, b: Seq<usize>, k: nat) -> nat
    decreases k,
{
    if k == 0 {
        0
    } else {
        ((counter_total(links, b, (k - 1) as nat) + links[b[k - 1] as int].counter) % 0x1_0000_0000_0000_0000) as nat
    }
}

/// The hash that spreads packets over the load-balanced links `b`: the
/// 5-tuple, then the sum of the links' counters.
pub open spec fn spread_hash(links: Seq<&Link>, b: Seq<usize>, p: PacketMeta) -> u64 {
    DefaultHasher::spec_finish(seq![flow_key(p), bytes_of(counter_total(links, b, b.len()), 8)])
}

/// Picks among candidates `c`: a load-balanced one chosen by the hash if there
/// is any, else the first.
pub open spec fn pick(links: Seq<&Link>, c: Seq<usize>, p: PacketMeta) -> Option<usize> {
    let b = balanced(links, c, c.len());
    if b.len() > 0 {
        Some(b[(spread_hash(links, b, p) % (b.len() as u64)) as int])
    } else if c.len() > 0 {
        Some(c[0])
    } else {
        None
    }
}

/// The entry of `t` toward `dest`.
pub open spec fn entry_toward(t: RoutingTable, dest: Destination) -> RouteEntry {
    match dest {
        Destination::TunA => t.tun_a,
        Destination::TunB => t.tun_b,
    }
}

pub open spec fn entries_toward(t: MultiPathTable, dest: Destination) -> Seq<RouteEntry> {
    match dest {
        Destination::TunA => t.tun_a@,
        Destination::TunB => t.tun_b@,
    }
}

/// The single-path choice among `links` at router `r`: the links to the next
/// hop (all links if none), then `pick`.
pub open spec fn single_choice(
    r: Seq<char>,
    p: PacketMeta,
    links: Seq<&Link>,
    tables: RouterMap<RoutingTable>,
    dest: Destination,
) -> Option<usize> {
    if !tables.has(r) {
        None
    } else {
        let nh = entry_toward(tables.value_of(r), dest).next_hop.name();
        let t = toward(links, r, nh, links.len());
        pick(links, if t.len() > 0 { t } else { every(links.len()) }, p)
    }
}

/// The ECMP choice among `links` at router `r`: no route without entries,
/// else the links to any equal-cost next hop (all links if none), then `pick`.
pub open spec fn multi_choice(
    r: Seq<char>,
    p: PacketMeta,
    links: Seq<&Link>,
    tables: RouterMap<MultiPathTable>,
    dest: Destination,
) -> Option<usize> {
    if !tables.has(r) {
        None
    } else {
        let es = entries_toward(tables.value_of(r), dest);
        if es.len() == 0 {
            None
        } else {
            let t = reaching(links, r, es, links.len());
            pick(links, if t.len() > 0 { t } else { every(links.len()) }, p)
        }
    }
}

fn all_positions(n: usize) -> (r: Vec<usize>)
    ensures
        r@ == every(n as nat),
{
    let mut r: Vec<usize> = Vec::new();
    let mut i: usize = 0;
    while i < n
        invariant
            i <= n,
            r@ =~= every(i as nat),
        decreases n - i,
    {
        r.push(i);
        i = i + 1;
        proof {
            assert(r@ =~= every(i as nat));
        }
    }
    r
}

fn links_toward(links: &[&Link], r: &RouterId, nh: &RouterId) -> (c: Vec<usize>)
    ensures
        c@ == toward(links@, r.name(), nh.name(), links@.len()),
{
    let mut c: Vec<usize> = Vec::new();
    let mut k: usize = 0;
    while k < links.len()
        invariant
            k <= links@.len(),
            c@ == toward(links@, r.name(), nh.name(), k as nat),
        decreases links@.len() - k,
    {
        let l = links[k];
        if (l.id.a.same(r) && l.id.b.same(nh)) || (l.id.b.same(r) && l.id.a.same(nh)) {
            c.push(k);
        }
        k = k + 1;
    }
    c
}

fn links_reaching(links: &[&Link], r: &RouterId, es: &Vec<RouteEntry>) -> (c: Vec<usize>)
    ensures
        c@ == reaching(links@, r.name(), es@, links@.len()),
{
    let mut c: Vec<usize> = Vec::new();
    let mut k: usize = 0;
    while k < links.len()
        invariant
            k <= links@.len(),
            c@ == reaching(links@, r.name(), es@, k as nat),
        decreases links@.len() - k,
    {
        let l = links[k];
        let far = if l.id.a.same(r) {
            &l.id.b
        } else {
            &l.id.a
        };
        let mut found = false;
        let mut e: usize = 0;
        while e < es.len()
            invariant
                e <= es@.len(),
                far.name() == links@[k as int].other_end(r.name()),
                found == exists|x: int| 0 <= x < e && far.name() == (#[trigger] es@[x]).next_hop.name(),
            decreases es@.len() - e,
        {
            if es[e].next_hop.same(far) {
                found = true;
            }
            e = e + 1;
        }
        if found && (l.id.a.same(r) || l.id.b.same(r)) {
            c.push(k);
        }
        k = k + 1;
    }
    c
}

fn balanced_of(links: &[&Link], c: &Vec<usize>) -> (b: Vec<usize>)
    requires
        forall|i: int| 0 <= i < c@.len() ==> c@[i] < links@.len(),
    ensures
        b@ == balanced(links@, c@, c@.len()),
        forall|i: int| 0 <= i < b@.len() ==> b@[i] < links@.len(),
{
    let mut b: Vec<usize> = Vec::new();
    let mut k: usize = 0;
    while k < c.len()
        invariant
            k <= c@.len(),
            forall|i: int| 0 <= i < c@.len() ==> c@[i] < links@.len(),
            b@ == balanced(links@, c@, k as nat),
            forall|i: int| 0 <= i < b@.len() ==> b@[i] < links@.len(),
        decreases c@.len() - k,
    {
        if links[c[k]].cfg.load_balance {
            b.push(c[k]);
        }
        k = k + 1;
    }
    b
}

fn counters_of(links: &[&Link], b: &Vec<usize>) -> (r: u64)
    requires
        forall|i: int| 0 <= i < b@.len() ==> b@[i] < links@.len(),
    ensures
        r == counter_total(links@, b@, b@.len()),
{
    let mut sum: u64 = 0;
    let mut k: usize = 0;
    while k < b.len()
        invariant
            k <= b@.len(),
            forall|i: int| 0 <= i < b@.len() ==> b@[i] < links@.len(),
            sum == counter_total(links@, b@, k as nat),
        decreases b@.len() - k,
    {
        let c = links[b[k]].counter;
        sum = if sum > u64::MAX - c {
            sum - (u64::MAX - c) - 1
        } else {
            sum + c
        };
        k = k + 1;
    }
    sum
}

/// Applies `pick` to candidates `c`.
fn pick_exec(links: &[&Link], c: &Vec<usize>, p: &PacketMeta) -> (r: Option<usize>)
    requires
        forall|i: int| 0 <= i < c@.len() ==> c@[i] < links@.len(),
    ensures
        r == pick(links@, c@, *p),
        r matches Some(i) ==> i < links@.len(),
{
    let b = balanced_of(links, c);
    if b.len() > 0 {
        let mut hasher = DefaultHasher::new();
        let key = flow_key_bytes(p);
        hasher.write(key.as_slice());
        let total = counters_of(links, &b);
        let tb = encode(total as u128, 8);
        hasher.write(tb.as_slice());
        let h = hasher.finish();
        proof {
            assert(hasher@ =~= seq![flow_key(*p), bytes_of(counter_total(links@, b@, b@.len()), 8)]);
        }
        let n = b.len() as u64;
        Some(b[(h % n) as usize])
    } else if c.len() > 0 {
        Some(c[0])
    } else {
        None
    }
}

/// Position in `links` of the egress link at router `router_id` toward
/// `destination` under single-path routing.
pub fn select_egress_index(
    router_id: &RouterId,
    packet: &PacketMeta,
    links: &[&Link],
    tables: &RouterMap<RoutingTable>,
    destination: Destination,
) -> (r: Option<usize>)
    requires
        tables.wf(),
    ensures
        r == single_choice(router_id.name(), *packet, links@, *tables, destination),
        r matches Some(i) ==> i < links@.len(),
{
    let t = match tables.get(router_id) {
        Some(t) => t,
        None => {
            return None;
        },
    };
    let nh = match destination {
        Destination::TunA => &t.tun_a.next_hop,
        Destination::TunB => &t.tun_b.next_hop,
    };
    let mut c = links_toward(links, router_id, nh);
    let n = links.len();
    proof {
        lemma_toward_bound(links@, router_id.name(), nh.name(), n as nat);
    }
    if c.len() == 0 {
        c = all_positions(links.len());
    }
    pick_exec(links, &c, packet)
}

/// The egress link at router `router_id` toward `destination` under
/// single-path routing.
pub fn select_egress_link<'a>(
    router_id: &RouterId,
    packet: &PacketMeta,
    links: &'a [&'a Link],
    tables: &RouterMap<RoutingTable>,
    destination: Destination,
) -> (r: Option<&'a Link>)
    requires
        tables.wf(),
    ensures
        match single_choice(router_id.name(), *packet, links@, *tables, destination) {
            Some(i) => r == Some(links@[i as int]),
            None => r is None,
        },
{
    match select_egress_index(router_id, packet, links, tables, destination) {
        Some(i) => Some(links[i]),
        None => None,
    }
}

/// Position in `links` of the egress link at router `router_id` toward
/// `destination` under ECMP routing.
pub fn select_egress_index_multi(
    router_id: &RouterId,
    packet: &PacketMeta,
    links: &[&Link],
    tables: &RouterMap<MultiPathTable>,
    destination: Destination,
) -> (r: Option<usize>)
    requires
        tables.wf(),
    ensures
        r == multi_choice(router_id.name(), *packet, links@, *tables, destination),
        r matches Some(i) ==> i < links@.len(),
{
    let t = match tables.get(router_id) {
        Some(t) => t,
        None => {
            return None;
        },
    };
    let es = match destination {
        Destination::TunA => &t.tun_a,
        Destination::TunB => &t.tun_b,
    };
    if es.len() == 0 {
        return None;
    }
    let mut c = links_reaching(links, router_id, es);
    let n = links.len();
    proof {
        lemma_reaching_bound(links@, router_id.name(), es@, n as nat);
    }
    if c.len() == 0 {
        c = all_positions(links.len());
    }
    pick_exec(links, &c, packet)
}

/// The egress link at router `router_id` toward `destination` under ECMP
/// routing; `None` when the router has no equal-cost entry ("no route").
pub fn select_egress_link_multi<'a>(
    router_id: &RouterId,
    packet: &PacketMeta,
    links: &'a [&'a Link],
    tables: &RouterMap<MultiPathTable>,
    destination: Destination,
) -> (r: Option<&'a Link>)
    requires
        tables.wf(),
    ensures
        match multi_choice(router_id.name(), *packet, links@, *tables, destination) {
            Some(i) => r == Some(links@[i as int]),
            None => r is None,
        },
{
    match select_egress_index_multi(router_id, packet, links, tables, destination) {
        Some(i) => Some(links[i]),
        None => None,
    }
}

proof fn lemma_toward_bound(links: Seq<&Link>, r: Seq<char>, nh: Seq<char>, k: nat)
    requires
        k <= links.len(),
        k <= usize::MAX,
    ensures
        forall|i: int| 0 <= i < toward(links, r, nh, k).len() ==> toward(links, r, nh, k)[i] < k,
    decreases k,
{
    if k > 0 {
        lemma_toward_bound(links, r, nh, (k - 1) as nat);
        let s = toward(links, r, nh, (k - 1) as nat);
        assert(((k - 1) as usize) as int == k - 1);
        if leads_to(*links[k - 1], r, nh) {
            assert(toward(links, r, nh, k) == s.push((k - 1) as usize));
            assert forall|i: int| 0 <= i < s.len() + 1 implies #[trigger] s.push((k - 1) as usize)[i] < k by {
                if i < s.len() {
                    assert(s[i] < k - 1);
                }
            }
        } else {
            assert(toward(links, r, nh, k) == s);
        }
    }
}

proof fn lemma_reaching_bound(links: Seq<&Link>, r: Seq<char>, es: Seq<RouteEntry>, k: nat)
    requires
        k <= links.len(),
        k <= usize::MAX,
    ensures
        forall|i: int| 0 <= i < reaching(links, r, es, k).len() ==> reaching(links, r, es, k)[i] < k,
    decreases k,
{
    if k > 0 {
        lemma_reaching_bound(links, r, es, (k - 1) as nat);
        let s = reaching(links, r, es, (k - 1) as nat);
        assert(((k - 1) as usize) as int == k - 1);
        if (links[k - 1].id.a.name() == r || links[k - 1].id.b.name() == r) && exists|e: int|
            0 <= e < es.len() && links[k - 1].other_end(r) == (#[trigger] es[e]).next_hop.name() {
            assert(reaching(links, r, es, k) == s.push((k - 1) as usize));
            assert forall|i: int| 0 <= i < s.len() + 1 implies #[trigger] s.push((k - 1) as usize)[i] < k by {
                if i < s.len() {
                    assert(s[i] < k - 1);
                }
            }
        } else {
            assert(reaching(links, r, es, k) == s);
        }
    }
}

} // verus!

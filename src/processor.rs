//! Hop-by-hop forwarding of a packet through the fabric.
use vstd::prelude::*;
use rand::rngs::StdRng;
use crate::fabric::Fabric;
use crate::forwarding::{
    entries_toward, entry_toward, multi_choice, select_egress_index, select_egress_index_multi,
    single_choice,
};
use crate::icmp::{
    icmp_dest_unreachable, icmp_frag_needed, icmp_time_exceeded, icmpv6_dest_unreachable,
    icmpv6_packet_too_big, icmpv6_time_exceeded, is_icmpv4_reply, is_icmpv6_reply,
};
use crate::packet::{PacketMeta, parse, parse_failure, parses_to, raw_after_decrement};
use crate::routing::{Destination, MultiPathTable, RouterMap, RoutingTable, far_end, incident, neighbour};
use crate::simulation::{LOSS_SCALE, SimulationError, verdict};
use crate::topology::{Link, Router, RouterId, RouterStats, bump};

verus! {

/// Most hops one packet takes: the guard against routing loops.
pub const HOP_LIMIT: u64 = 100;

/// The routing tables a forwarding run consults.
pub enum Routes<'a> {
    Single(&'a RouterMap<RoutingTable>),
    /// Equal-cost tables for link selection, with the single-path tables
    /// whose sentinel marks the destination anchor.
    Multi(&'a RouterMap<MultiPathTable>, &'a RouterMap<RoutingTable>),
}

/// What one hop did.
#[derive(Clone, Copy, Debug, PartialEq, Eq, Structural)]
pub enum Hop {
    /// The packet is at its destination anchor.
    Arrived,
    /// The packet crossed a link to router `next`, delayed by `delay_ms`.
    Moved { next: usize, delay_ms: u64 },
    /// The router answered with an ICMP error, which now travels back.
    Replied,
    /// Forwarding ended here.
    Stopped,
}

/// The result of forwarding a packet.
#[derive(Debug)]
pub struct ForwardResult {
    /// The last packet seen (an ICMP reply when the router sent one).
    pub packet: PacketMeta,
    /// Hops taken.
    pub hops: u64,
    /// Total link delay, in milliseconds, the packet met.
    pub delay_ms: u64,
}

impl<'a> Routes<'a> {
    pub open spec fn wf(&self) -> bool {
        match *self {
            Routes::Single(t) => t.wf(),
            Routes::Multi(t, a) => t.wf() && a.wf(),
        }
    }

    /// Whether router `n` has a route toward `dest`.
    pub open spec fn has_route(&self, n: Seq<char>, dest: Destination) -> bool {
        match *self {
            Routes::Single(t) => t.has(n),
            Routes::Multi(t, _) => t.has(n) && entries_toward(t.value_of(n), dest).len() > 0,
        }
    }

    /// Whether router `n` is the anchor of `dest` (its single-path next hop is itself).
    pub open spec fn arrived(&self, n: Seq<char>, dest: Destination) -> bool {
        match *self {
            Routes::Single(t) => entry_toward(t.value_of(n), dest).next_hop.name() == n,
            Routes::Multi(_, a) => a.has(n) && entry_toward(a.value_of(n), dest).next_hop.name() == n,
        }
    }

    /// The egress link chosen among `links` at router `n`.
    pub open spec fn choice(&self, n: Seq<char>, p: PacketMeta, links: Seq<&Link>, dest: Destination) -> Option<usize> {
        match *self {
            Routes::Single(t) => single_choice(n, p, links, *t, dest),
            Routes::Multi(t, _) => multi_choice(n, p, links, *t, dest),
        }
    }
}

pub open spec fn flip(d: Destination) -> Destination {
    match d {
        Destination::TunA => Destination::TunB,
        Destination::TunB => Destination::TunA,
    }
}

/// `b` is the ICMP error answering `p`: ICMPv6 type `t6`/code `c6` for an
/// IPv6 packet, else ICMP type `t4`/code `c4`; `rest` fills the rest-of-header.
pub open spec fn error_reply(b: Seq<u8>, p: PacketMeta, t4: u8, c4: u8, t6: u8, c6: u8, rest4: nat, rest6: nat) -> bool {
    if p.src_ip is V6 {
        is_icmpv6_reply(b, p, t6, c6, rest6)
    } else {
        is_icmpv4_reply(b, p, t4, c4, rest4)
    }
}

/// Offset of the ICMP type byte: after the IPv4 header, or after the IPv6
/// header and any Hop-by-Hop header.
pub open spec fn icmp_type_offset(p: PacketMeta) -> int {
    if p.src_ip is V4 {
        (p.raw@[0] as int % 16) * 4
    } else if p.raw@.len() > 41 && p.raw@[6] == 0 {
        40 + (p.raw@[41] as int + 1) * 8
    } else {
        40
    }
}

/// `p` is itself an ICMP error message (Destination Unreachable, Source
/// Quench, Redirect, Time Exceeded or Parameter Problem; for ICMPv6 a type
/// below 128): no error is ever sent about one.
pub open spec fn is_icmp_error(p: PacketMeta) -> bool {
    let o = icmp_type_offset(p);
    &&& p.raw@.len() > 0
    &&& 0 <= o < p.raw@.len()
    &&& ((p.src_ip is V4 && p.protocol == 1 && (p.raw@[o] == 3 || p.raw@[o] == 4 || p.raw@[o] == 5
        || p.raw@[o] == 11 || p.raw@[o] == 12)) || (p.src_ip is V6 && p.protocol == 58 && p.raw@[o] < 128))
}

/// `q` is `p` with its TTL decremented.
pub open spec fn decremented(q: PacketMeta, p: PacketMeta) -> bool {
    &&& q.ttl == p.ttl - 1
    &&& q.raw@ == raw_after_decrement(p.raw@, p.src_ip is V6)
    &&& q.src_ip == p.src_ip && q.dst_ip == p.dst_ip
    &&& q.src_port == p.src_port && q.dst_port == p.dst_port && q.protocol == p.protocol
}

pub open spec fn same_packet(q: PacketMeta, p: PacketMeta) -> bool {
    &&& q.ttl == p.ttl && q.raw@ == p.raw@
    &&& q.src_ip == p.src_ip && q.dst_ip == p.dst_ip
    &&& q.src_port == p.src_port && q.dst_port == p.dst_port && q.protocol == p.protocol
}

/// The routers of `f` with the counters of router `i` set to `s`.
pub open spec fn with_stats(f: Fabric, i: int, s: RouterStats) -> Seq<Router> {
    f.routers@.update(i, Router { stats: s, ..f.routers@[i] })
}

/// The links of `f` with one more traversal of link `j` counted.
pub open spec fn with_attempt(f: Fabric, j: int) -> Seq<Link> {
    f.links@.update(j, Link { counter: bump(f.links@[j].counter), ..f.links@[j] })
}

pub open spec fn received(s: RouterStats) -> RouterStats {
    RouterStats { packets_received: bump(s.packets_received), ..s }
}

pub open spec fn plus_icmp(s: RouterStats) -> RouterStats {
    RouterStats { icmp_generated: bump(s.icmp_generated), ..s }
}

pub open spec fn plus_forwarded(s: RouterStats) -> RouterStats {
    RouterStats { packets_forwarded: bump(s.packets_forwarded), ..s }
}

pub open spec fn plus_lost(s: RouterStats) -> RouterStats {
    RouterStats { packets_lost: bump(s.packets_lost), ..s }
}

/// `x` counts one more received packet than `s`, and at most one more forwarded.
pub open spec fn one_more_received(s: RouterStats, x: RouterStats) -> bool {
    &&& x.packets_received == bump(s.packets_received)
    &&& (x.packets_forwarded == s.packets_forwarded || x.packets_forwarded == bump(s.packets_forwarded))
}

/// Replaces `packet` by the parse of the ICMP error `bytes` answering it.
fn take_reply(packet: &mut PacketMeta, bytes: Vec<u8>) -> (ok: bool)
    ensures
        ok ==> parse_failure(bytes@) is None && parses_to(*final(packet), bytes@),
        !ok ==> *final(packet) == *old(packet),
        ok == (parse_failure(bytes@) is None),
{
    match parse(bytes.as_slice()) {
        Ok(p) => {
            *packet = p;
            true
        },
        Err(_) => false,
    }
}

/// An ICMP error built for a packet always parses.
pub proof fn lemma_error_reply_parses(b: Seq<u8>, p: PacketMeta, t4: u8, c4: u8, t6: u8, c6: u8, rest4: nat, rest6: nat)
    requires
        error_reply(b, p, t4, c4, t6, c6, rest4, rest6),
    ensures
        parse_failure(b) is None,
{
}

fn is_icmp_error_exec(p: &PacketMeta) -> (r: bool)
    ensures
        r == is_icmp_error(*p),
{
    let n = p.raw.len();
    if n == 0 {
        return false;
    }
    let o: usize = if !p.is_ipv6() {
        (p.raw[0] % 16) as usize * 4
    } else if n > 41 && p.raw[6] == 0 {
        40 + (p.raw[41] as usize + 1) * 8
    } else {
        40
    };
    if o >= n {
        return false;
    }
    let t = p.raw[o];
    if p.is_ipv6() {
        p.protocol == 58 && t < 128
    } else {
        p.protocol == 1 && (t == 3 || t == 4 || t == 5 || t == 11 || t == 12)
    }
}

fn time_exceeded_bytes(p: &PacketMeta) -> (b: Vec<u8>)
    ensures
        error_reply(b@, *p, 11, 0, 3, 0, 0, 0),
{
    if p.is_ipv6() {
        icmpv6_time_exceeded(p)
    } else {
        icmp_time_exceeded(p)
    }
}

fn unreachable_bytes(p: &PacketMeta) -> (b: Vec<u8>)
    ensures
        error_reply(b@, *p, 3, 0, 1, 0, 0, 0),
{
    if p.is_ipv6() {
        icmpv6_dest_unreachable(p)
    } else {
        icmp_dest_unreachable(p)
    }
}

fn too_big_bytes(p: &PacketMeta, mtu: u32) -> (b: Vec<u8>)
    ensures
        error_reply(b@, *p, 3, 4, 2, 0, mtu as nat % 0x1_0000, mtu as nat),
{
    if p.is_ipv6() {
        icmpv6_packet_too_big(p, mtu)
    } else {
        icmp_frag_needed(p, mtu)
    }
}

/// Has router `ci` answer `packet` with the ICMP error `bytes`: counts it,
/// takes the reply as the packet, and turns it back toward the other anchor.
fn answer(fabric: &mut Fabric, ci: usize, s: RouterStats, packet: &mut PacketMeta, destination: &mut Destination, bytes: Vec<u8>) -> (r: Hop)
    requires
        old(fabric).wf(),
        ci < old(fabric).routers@.len(),
        parse_failure(bytes@) is None,
    ensures
        final(fabric).wf(),
        final(fabric).graph == old(fabric).graph,
        final(fabric).links@ == old(fabric).links@,
        final(fabric).routers@ == with_stats(*old(fabric), ci as int, plus_icmp(s)),
        r == Hop::Replied,
        parses_to(*final(packet), bytes@),
        *final(destination) == flip(*old(destination)),
{
    fabric.set_stats(ci, RouterStats { icmp_generated: if s.icmp_generated < u64::MAX { s.icmp_generated + 1 } else { s.icmp_generated }, ..s });
    take_reply(packet, bytes);
    *destination = match *destination {
        Destination::TunA => Destination::TunB,
        Destination::TunB => Destination::TunA,
    };
    Hop::Replied
}

/// `idx` lists, once each, the links that touch router `ci`, and `refs`
/// holds those links in the same order.
pub open spec fn lists_incident(f: Fabric, ci: int, idx: Seq<usize>, refs: Seq<&Link>) -> bool {
    &&& idx.no_duplicates()
    &&& refs.len() == idx.len()
    &&& forall|k: int|
        0 <= k < idx.len() ==> (#[trigger] idx[k]) < f.links@.len() && incident(f, ci, idx[k] as int) && *refs[k]
            == f.links@[idx[k] as int]
    &&& forall|j: int| #[trigger] incident(f, ci, j) ==> idx.contains(j as usize)
}

/// `r` is what crossing link `j` of router `ci` did to the decremented packet
/// `q`, the links having counted the attempt.
pub open spec fn crossed(
    f0: Fabric,
    f1: Fabric,
    ci: int,
    j: int,
    q: PacketMeta,
    s1: RouterStats,
    p_out: PacketMeta,
    d0: Destination,
    d1: Destination,
    r: Hop,
) -> bool {
    let cfg = f0.links@[j].cfg;
    let len = q.raw@.len();
    &&& incident(f0, ci, j)
    &&& f1.links@ == with_attempt(f0, j)
    &&& exists|roll: u32, jitter: int|
        roll < LOSS_SCALE && -(cfg.jitter_ms as int) <= jitter <= cfg.jitter_ms && match #[trigger] verdict(cfg, len, roll, jitter) {
            Ok(delay) => r == (Hop::Moved { next: neighbour(f0, ci, j) as usize, delay_ms: delay })
                && f1.routers@ == with_stats(f0, ci, plus_forwarded(s1)) && same_packet(p_out, q) && d1 == d0,
            Err(SimulationError::MtuExceeded { packet_size, mtu }) => if is_icmp_error(q) {
                r == Hop::Stopped && f1.routers@ == with_stats(f0, ci, s1) && same_packet(p_out, q) && d1 == d0
            } else {
                r == Hop::Replied && f1.routers@ == with_stats(f0, ci, plus_icmp(s1)) && d1 == flip(d0) && exists|b: Seq<u8>|
                    error_reply(b, q, 3, 4, 2, 0, mtu as nat % 0x1_0000, mtu as nat) && parses_to(p_out, b)
            },
            Err(SimulationError::PacketLost) => r == Hop::Stopped && f1.routers@ == with_stats(f0, ci, plus_lost(s1))
                && same_packet(p_out, q) && d1 == d0,
            Err(SimulationError::Other(_)) => r == Hop::Stopped && f1.routers@ == with_stats(f0, ci, s1)
                && same_packet(p_out, q) && d1 == d0,
        }
}

/// What `forward_hop` does at router `ci` (see there), from fabric `f0`,
/// packet `p` and destination `d0` to `f1`, `p_out`, `d1` and outcome `r`.
pub open spec fn hop_effect(
    routes: Routes,
    f0: Fabric,
    f1: Fabric,
    ci: int,
    p: PacketMeta,
    p_out: PacketMeta,
    d0: Destination,
    d1: Destination,
    r: Hop,
) -> bool {
    let n = f0.name_at(ci);
    let s1 = received(f0.routers@[ci].stats);
    if (p.ttl <= 1 || !routes.has_route(n, d0)) && is_icmp_error(p) {
        &&& r == Hop::Stopped
        &&& f1.links@ == f0.links@
        &&& f1.routers@ == with_stats(f0, ci, s1)
        &&& same_packet(p_out, p)
        &&& d1 == d0
    } else if p.ttl <= 1 {
        &&& r == Hop::Replied
        &&& f1.links@ == f0.links@
        &&& f1.routers@ == with_stats(f0, ci, plus_icmp(s1))
        &&& d1 == flip(d0)
        &&& exists|b: Seq<u8>| error_reply(b, p, 11, 0, 3, 0, 0, 0) && parses_to(p_out, b)
    } else if !routes.has_route(n, d0) {
        &&& r == Hop::Replied
        &&& f1.links@ == f0.links@
        &&& f1.routers@ == with_stats(f0, ci, plus_icmp(s1))
        &&& d1 == flip(d0)
        &&& exists|b: Seq<u8>| error_reply(b, p, 3, 0, 1, 0, 0, 0) && parses_to(p_out, b)
    } else if routes.arrived(n, d0) {
        &&& r == Hop::Arrived
        &&& f1.links@ == f0.links@
        &&& f1.routers@ == with_stats(f0, ci, s1)
        &&& same_packet(p_out, p)
        &&& d1 == d0
    } else {
        exists|q: PacketMeta, idx: Seq<usize>, refs: Seq<&Link>|
            #![trigger decremented(q, p), lists_incident(f0, ci, idx, refs)]
            decremented(q, p) && lists_incident(f0, ci, idx, refs) && match routes.choice(n, q, refs, d0) {
                None => r == Hop::Stopped && f1.links@ == f0.links@ && f1.routers@ == with_stats(f0, ci, s1)
                    && same_packet(p_out, q) && d1 == d0,
                Some(k) => 0 <= k < idx.len() && crossed(f0, f1, ci, idx[k as int] as int, q, s1, p_out, d0, d1, r),
            }
    }
}

/// One hop at router `ci`: count the packet; answer an expiring TTL with Time
/// Exceeded and a missing route with Destination Unreachable; stop at the
/// destination anchor; else decrement the TTL, choose an egress link and cross
/// it, answering an oversized packet with Packet Too Big / Fragmentation Needed.
pub fn forward_hop(
    fabric: &mut Fabric,
    routes: &Routes,
    ci: usize,
    packet: &mut PacketMeta,
    destination: &mut Destination,
    rng: &mut StdRng,
) -> (r: Hop)
    requires
        old(fabric).wf(),
        routes.wf(),
        ci < old(fabric).routers@.len(),
    ensures
        final(fabric).wf(),
        final(fabric).graph == old(fabric).graph,
        hop_effect(*routes, *old(fabric), *final(fabric), ci as int, *old(packet), *final(packet), *old(destination), *final(destination), r),
        r matches Hop::Moved { next, delay_ms } ==> next < old(fabric).routers@.len(),
{
    let ghost f0 = *fabric;
    let ghost p_in = *packet;
    let ghost d0 = *destination;
    let s0 = fabric.stats_at(ci);
    let s1 = RouterStats {
        packets_received: if s0.packets_received < u64::MAX {
            s0.packets_received + 1
        } else {
            s0.packets_received
        },
        ..s0
    };
    fabric.set_stats(ci, s1);
    let icmp = is_icmp_error_exec(packet);
    if packet.ttl <= 1 {
        if icmp {
            proof {
                assert(fabric.routers@ =~= with_stats(f0, ci as int, s1));
            }
            return Hop::Stopped;
        }
        let b = time_exceeded_bytes(packet);
        proof {
            lemma_error_reply_parses(b@, p_in, 11, 0, 3, 0, 0, 0);
        }
        let ghost bb = b@;
        let r = answer(fabric, ci, s1, packet, destination, b);
        proof {
            assert(error_reply(bb, p_in, 11, 0, 3, 0, 0, 0) && parses_to(*packet, bb));
            assert(fabric.routers@ =~= with_stats(f0, ci as int, plus_icmp(s1)));
        }
        return r;
    }
    let id = fabric.routers[ci].id.duplicate();
    let has_route = match routes {
        Routes::Single(t) => t.contains_key(&id),
        Routes::Multi(t, _) => match t.get(&id) {
            Some(mt) => match *destination {
                Destination::TunA => mt.tun_a.len() > 0,
                Destination::TunB => mt.tun_b.len() > 0,
            },
            None => false,
        },
    };
    if !has_route {
        if icmp {
            proof {
                assert(fabric.routers@ =~= with_stats(f0, ci as int, s1));
            }
            return Hop::Stopped;
        }
        let b = unreachable_bytes(packet);
        proof {
            lemma_error_reply_parses(b@, p_in, 3, 0, 1, 0, 0, 0);
        }
        let ghost bb = b@;
        let r = answer(fabric, ci, s1, packet, destination, b);
        proof {
            assert(error_reply(bb, p_in, 3, 0, 1, 0, 0, 0) && parses_to(*packet, bb));
            assert(fabric.routers@ =~= with_stats(f0, ci as int, plus_icmp(s1)));
        }
        return r;
    }
    let sentinel = match routes {
        Routes::Single(t) => *t,
        Routes::Multi(_, a) => *a,
    };
    {
        if let Some(e) = sentinel.get(&id) {
            let nh = match *destination {
                Destination::TunA => &e.tun_a.next_hop,
                Destination::TunB => &e.tun_b.next_hop,
            };
            if nh.same(&id) {
                return Hop::Arrived;
            }
        }
    }
    let _ = packet.decrement_ttl();
    let ghost q = *packet;
    proof {
        assert(s1 == received(f0.routers@[ci as int].stats));
        assert(decremented(q, p_in));
    }
    let idx = fabric.incident_link_indices(ci);
    let refs = fabric.link_refs(&idx);
    let choice = match routes {
        Routes::Single(t) => select_egress_index(&id, packet, refs.as_slice(), t, *destination),
        Routes::Multi(t, _) => select_egress_index_multi(&id, packet, refs.as_slice(), t, *destination),
    };
    let ghost gidx = idx@;
    let ghost grefs = refs@;
    proof {
        assert(fabric.links@ == f0.links@);
        assert(fabric.name_at(ci as int) == f0.name_at(ci as int));
        assert forall|j: int| #[trigger] incident(f0, ci as int, j) == incident(*fabric, ci as int, j) by {}
        assert(lists_incident(f0, ci as int, gidx, grefs));
        assert(choice == routes.choice(f0.name_at(ci as int), q, grefs, d0));
    }
    let k = match choice {
        Some(k) => k,
        None => {
            proof {
                assert(fabric.routers@ =~= with_stats(f0, ci as int, s1));
                assert(exists|q2: PacketMeta, idx2: Seq<usize>, refs2: Seq<&Link>|
                    #![trigger decremented(q2, p_in), lists_incident(f0, ci as int, idx2, refs2)]
                    decremented(q2, p_in) && lists_incident(f0, ci as int, idx2, refs2) && routes.choice(f0.name_at(ci as int), q2, refs2, d0) is None
                    && same_packet(*packet, q2)) by {
                    assert(decremented(q, p_in) && lists_incident(f0, ci as int, gidx, grefs));
                }
            }
            return Hop::Stopped;
        },
    };
    let j = idx[k];
    let next = far_end(fabric, ci, j);
    let len = packet.raw.len();
    let ghost f_mid = *fabric;
    let outcome = fabric.attempt_link(j, len, rng);
    match outcome {
        Ok(delay) => {
            fabric.set_stats(ci, RouterStats {
                packets_forwarded: if s1.packets_forwarded < u64::MAX {
                    s1.packets_forwarded + 1
                } else {
                    s1.packets_forwarded
                },
                ..s1
            });
            let r = Hop::Moved { next, delay_ms: delay };
            proof {
                let cfg = f0.links@[j as int].cfg;
                let (roll, jitter) = choose|roll: u32, jitter: int|
                    roll < LOSS_SCALE && -(cfg.jitter_ms as int) <= jitter <= cfg.jitter_ms && outcome == verdict(cfg, len as nat, roll, jitter);
                assert(fabric.routers@ =~= with_stats(f0, ci as int, plus_forwarded(s1)));
                assert(verdict(cfg, q.raw@.len(), roll, jitter) == Ok::<u64, SimulationError>(delay));
                assert(crossed(f0, *fabric, ci as int, j as int, q, s1, *packet, d0, *destination, r));
                assert(decremented(q, p_in));
                assert(!(p_in.ttl <= 1));
                assert(routes.has_route(f0.name_at(ci as int), d0));
                assert(!routes.arrived(f0.name_at(ci as int), d0));
                assert(exists|j: int, q: PacketMeta| decremented(q, p_in) && #[trigger] crossed(f0, *fabric, ci as int, j, q, s1, *packet, d0, *destination, r));
            }
            r
        },
        Err(SimulationError::MtuExceeded { packet_size, mtu }) => {
            if is_icmp_error_exec(packet) {
                proof {
                    let cfg = f0.links@[j as int].cfg;
                    let (roll, jitter) = choose|roll: u32, jitter: int|
                        roll < LOSS_SCALE && -(cfg.jitter_ms as int) <= jitter <= cfg.jitter_ms && outcome == verdict(cfg, len as nat, roll, jitter);
                    assert(crossed(f0, *fabric, ci as int, j as int, q, s1, *packet, d0, *destination, Hop::Stopped));
                }
                return Hop::Stopped;
            }
            let b = too_big_bytes(packet, mtu);
            proof {
                lemma_error_reply_parses(b@, q, 3, 4, 2, 0, mtu as nat % 0x1_0000, mtu as nat);
            }
            let ghost f_att = *fabric;
            let r = answer(fabric, ci, s1, packet, destination, b);
            proof {
                let cfg = f0.links@[j as int].cfg;
                let (roll, jitter) = choose|roll: u32, jitter: int|
                    roll < LOSS_SCALE && -(cfg.jitter_ms as int) <= jitter <= cfg.jitter_ms && outcome == verdict(cfg, len as nat, roll, jitter);
                assert(fabric.routers@ =~= with_stats(f0, ci as int, plus_icmp(s1)));
                assert(crossed(f0, *fabric, ci as int, j as int, q, s1, *packet, d0, *destination, r));
            }
            r
        },
        Err(SimulationError::PacketLost) => {
            fabric.set_stats(ci, RouterStats {
                packets_lost: if s1.packets_lost < u64::MAX {
                    s1.packets_lost + 1
                } else {
                    s1.packets_lost
                },
                ..s1
            });
            proof {
                let cfg = f0.links@[j as int].cfg;
                let (roll, jitter) = choose|roll: u32, jitter: int|
                    roll < LOSS_SCALE && -(cfg.jitter_ms as int) <= jitter <= cfg.jitter_ms && outcome == verdict(cfg, len as nat, roll, jitter);
                assert(fabric.routers@ =~= with_stats(f0, ci as int, plus_lost(s1)));
                assert(crossed(f0, *fabric, ci as int, j as int, q, s1, *packet, d0, *destination, Hop::Stopped));
            }
            Hop::Stopped
        },
        Err(SimulationError::Other(_)) => {
            proof {
                let cfg = f0.links@[j as int].cfg;
                let (roll, jitter) = choose|roll: u32, jitter: int|
                    roll < LOSS_SCALE && -(cfg.jitter_ms as int) <= jitter <= cfg.jitter_ms && outcome == verdict(cfg, len as nat, roll, jitter);
                assert(crossed(f0, *fabric, ci as int, j as int, q, s1, *packet, d0, *destination, Hop::Stopped));
            }
            Hop::Stopped
        },
    }
}

/// A hop changes the counters of its router only, counting one more received
/// packet and at most one more forwarded; and counts at most one link traversal.
pub proof fn lemma_hop_counts(
    routes: Routes,
    f0: Fabric,
    f1: Fabric,
    ci: int,
    p: PacketMeta,
    p_out: PacketMeta,
    d0: Destination,
    d1: Destination,
    r: Hop,
)
    requires
        hop_effect(routes, f0, f1, ci, p, p_out, d0, d1, r),
    ensures
        exists|x: RouterStats| f1.routers@ == with_stats(f0, ci, x) && one_more_received(f0.routers@[ci].stats, x),
        f1.links@ == f0.links@ || exists|j: int| 0 <= j < f0.links@.len() && f1.links@ == with_attempt(f0, j),
{
    let s1 = received(f0.routers@[ci].stats);
    let n = f0.name_at(ci);
    if (p.ttl <= 1 || !routes.has_route(n, d0)) && is_icmp_error(p) {
        assert(one_more_received(f0.routers@[ci].stats, s1));
    } else if p.ttl <= 1 || !routes.has_route(n, d0) {
        assert(one_more_received(f0.routers@[ci].stats, plus_icmp(s1)));
    } else if routes.arrived(n, d0) {
        assert(one_more_received(f0.routers@[ci].stats, s1));
    } else if r == Hop::Stopped && f1.links@ == f0.links@ && f1.routers@ == with_stats(f0, ci, s1) {
        assert(one_more_received(f0.routers@[ci].stats, s1));
    } else {
        let (j, q) = choose|j: int, q: PacketMeta| decremented(q, p) && #[trigger] crossed(f0, f1, ci, j, q, s1, p_out, d0, d1, r);
        let cfg = f0.links@[j].cfg;
        let len = q.raw@.len();
        let (roll, jitter) = choose|roll: u32, jitter: int|
            roll < LOSS_SCALE && -(cfg.jitter_ms as int) <= jitter <= cfg.jitter_ms && match #[trigger] verdict(cfg, len, roll, jitter) {
                Ok(delay) => r == (Hop::Moved { next: neighbour(f0, ci, j) as usize, delay_ms: delay })
                    && f1.routers@ == with_stats(f0, ci, plus_forwarded(s1)) && same_packet(p_out, q) && d1 == d0,
                Err(SimulationError::MtuExceeded { packet_size, mtu }) => if is_icmp_error(q) {
                    r == Hop::Stopped && f1.routers@ == with_stats(f0, ci, s1) && same_packet(p_out, q) && d1 == d0
                } else {
                    r == Hop::Replied && f1.routers@ == with_stats(f0, ci, plus_icmp(s1)) && d1 == flip(d0) && exists|b: Seq<u8>|
                        error_reply(b, q, 3, 4, 2, 0, mtu as nat % 0x1_0000, mtu as nat) && parses_to(p_out, b)
                },
                Err(SimulationError::PacketLost) => r == Hop::Stopped && f1.routers@ == with_stats(f0, ci, plus_lost(s1))
                    && same_packet(p_out, q) && d1 == d0,
                Err(SimulationError::Other(_)) => r == Hop::Stopped && f1.routers@ == with_stats(f0, ci, s1)
                    && same_packet(p_out, q) && d1 == d0,
            };
        match verdict(cfg, len, roll, jitter) {
            Ok(_) => {
                assert(one_more_received(f0.routers@[ci].stats, plus_forwarded(s1)));
            },
            Err(SimulationError::MtuExceeded { .. }) => {
                assert(one_more_received(f0.routers@[ci].stats, plus_icmp(s1)));
                assert(one_more_received(f0.routers@[ci].stats, s1));
            },
            Err(SimulationError::PacketLost) => {
                assert(one_more_received(f0.routers@[ci].stats, plus_lost(s1)));
            },
            Err(SimulationError::Other(_)) => {
                assert(one_more_received(f0.routers@[ci].stats, s1));
            },
        }
    }
}

/// Sum of the routers' received counters.
pub open spec fn total_received(rs: Seq<Router>) -> int
    decreases rs.len(),
{
    if rs.len() == 0 {
        0
    } else {
        total_received(rs.drop_last()) + rs.last().stats.packets_received
    }
}

/// Sum of the links' traversal counters.
pub open spec fn total_traversals(ls: Seq<Link>) -> int
    decreases ls.len(),
{
    if ls.len() == 0 {
        0
    } else {
        total_traversals(ls.drop_last()) + ls.last().counter
    }
}

pub proof fn lemma_total_received_update(rs: Seq<Router>, i: int, x: RouterStats)
    requires
        0 <= i < rs.len(),
    ensures
        total_received(rs.update(i, Router { stats: x, ..rs[i] })) == total_received(rs) - rs[i].stats.packets_received
            + x.packets_received,
    decreases rs.len(),
{
    let u = rs.update(i, Router { stats: x, ..rs[i] });
    if i < rs.len() - 1 {
        assert(u.drop_last() =~= rs.drop_last().update(i, Router { stats: x, ..rs[i] }));
        lemma_total_received_update(rs.drop_last(), i, x);
    } else {
        assert(u.drop_last() =~= rs.drop_last());
    }
}

pub proof fn lemma_total_traversals_update(ls: Seq<Link>, j: int)
    requires
        0 <= j < ls.len(),
    ensures
        total_traversals(ls.update(j, Link { counter: bump(ls[j].counter), ..ls[j] })) == total_traversals(ls)
            - ls[j].counter + bump(ls[j].counter),
    decreases ls.len(),
{
    let u = ls.update(j, Link { counter: bump(ls[j].counter), ..ls[j] });
    if j < ls.len() - 1 {
        assert(u.drop_last() =~= ls.drop_last().update(j, Link { counter: bump(ls[j].counter), ..ls[j] }));
        lemma_total_traversals_update(ls.drop_last(), j);
    } else {
        assert(u.drop_last() =~= ls.drop_last());
    }
}

/// No router's received counter is within `HOP_LIMIT` of saturating.
pub open spec fn room_to_count(f: Fabric) -> bool {
    forall|i: int| 0 <= i < f.routers@.len() ==> (#[trigger] f.routers@[i]).stats.packets_received <= u64::MAX - HOP_LIMIT
}

/// What a forwarding run keeps true, from fabric `f0` to `f1` after `hops` hops.
pub open spec fn run_counts(f0: Fabric, f1: Fabric, hops: int) -> bool {
    &&& f1.routers@.len() == f0.routers@.len()
    &&& f1.links@.len() == f0.links@.len()
    &&& forall|i: int| 0 <= i < f0.routers@.len() ==> f1.name_at(i) == #[trigger] f0.name_at(i)
    &&& forall|i: int|
        0 <= i < f0.routers@.len() ==> f0.routers@[i].stats.packets_received <= (#[trigger] f1.routers@[i]).stats.packets_received
            <= f0.routers@[i].stats.packets_received + hops
    &&& room_to_count(f0) ==> total_received(f1.routers@) == total_received(f0.routers@) + hops
    &&& room_to_count(f0) ==> forall|i: int|
        0 <= i < f0.routers@.len() ==> (#[trigger] f1.routers@[i]).stats.packets_forwarded - f0.routers@[i].stats.packets_forwarded
            <= f1.routers@[i].stats.packets_received - f0.routers@[i].stats.packets_received
    &&& forall|i: int| 0 <= i < f0.routers@.len() ==> f0.routers@[i].stats.packets_forwarded <= (#[trigger] f1.routers@[i]).stats.packets_forwarded
    &&& forall|j: int| 0 <= j < f0.links@.len() ==> f0.links@[j].counter <= (#[trigger] f1.links@[j]).counter
    &&& total_traversals(f0.links@) <= total_traversals(f1.links@) <= total_traversals(f0.links@) + hops
}

/// One more hop keeps `run_counts`.
proof fn lemma_run_step(f0: Fabric, fa: Fabric, fb: Fabric, hops: int, ci: int)
    requires
        run_counts(f0, fa, hops),
        0 <= hops < HOP_LIMIT,
        0 <= ci < fa.routers@.len(),
        exists|x: RouterStats| fb.routers@ == with_stats(fa, ci, x) && one_more_received(fa.routers@[ci].stats, x),
        fb.links@ == fa.links@ || exists|j: int| 0 <= j < fa.links@.len() && fb.links@ == with_attempt(fa, j),
    ensures
        run_counts(f0, fb, hops + 1),
{
    let x = choose|x: RouterStats| fb.routers@ == with_stats(fa, ci, x) && one_more_received(fa.routers@[ci].stats, x);
    lemma_total_received_update(fa.routers@, ci, x);
    assert forall|i: int| 0 <= i < f0.routers@.len() implies fb.name_at(i) == #[trigger] f0.name_at(i) by {
        assert(fb.routers@[i].id == fa.routers@[i].id);
    }
    if room_to_count(f0) {
        assert(f0.routers@[ci].stats.packets_received <= u64::MAX - HOP_LIMIT);
    }
    if fb.links@ != fa.links@ {
        let j = choose|j: int| 0 <= j < fa.links@.len() && fb.links@ == with_attempt(fa, j);
        lemma_total_traversals_update(fa.links@, j);
    }
}

/// The router a hop ends at: the far end after `Moved`, else where it was.
pub open spec fn next_router(h: Hop, ci: int) -> int {
    match h {
        Hop::Moved { next, .. } => next as int,
        _ => ci,
    }
}

/// `a + b`, held at the largest `u64`.
pub open spec fn sat_add(a: u64, b: u64) -> u64 {
    if a + b > u64::MAX {
        u64::MAX
    } else {
        (a + b) as u64
    }
}

/// The saturating sum of the link delays of the hops `hs`.
pub open spec fn total_delay(hs: Seq<Hop>) -> u64
    decreases hs.len(),
{
    if hs.len() == 0 {
        0
    } else {
        let d = match hs.last() {
            Hop::Moved { delay_ms, .. } => delay_ms,
            _ => 0u64,
        };
        sat_add(total_delay(hs.drop_last()), d)
    }
}

/// Hop `k` of a trace takes fabric `fs[k]`, router `cs[k]`, packet `ps[k]`
/// and destination `ds[k]` to the next ones as `forward_hop` says.
pub open spec fn trace_step(
    routes: Routes,
    fs: Seq<Fabric>,
    cs: Seq<int>,
    ps: Seq<PacketMeta>,
    ds: Seq<Destination>,
    hs: Seq<Hop>,
    k: int,
) -> bool {
    &&& 0 <= cs[k] < fs[k].routers@.len()
    &&& hop_effect(routes, fs[k], fs[k + 1], cs[k], ps[k], ps[k + 1], ds[k], ds[k + 1], hs[k])
    &&& cs[k + 1] == next_router(hs[k], cs[k])
}

/// The hops `hs` are a whole forwarding run through the states `fs`, `cs`,
/// `ps`, `ds`: each hop as `forward_hop` says, every hop but the last moving
/// the packet on or replying, and the last arriving, stopping, or being the
/// hop-limit-th.
pub open spec fn is_run(
    routes: Routes,
    fs: Seq<Fabric>,
    cs: Seq<int>,
    ps: Seq<PacketMeta>,
    ds: Seq<Destination>,
    hs: Seq<Hop>,
) -> bool {
    &&& 1 <= hs.len() <= HOP_LIMIT
    &&& fs.len() == hs.len() + 1 && cs.len() == hs.len() + 1
    &&& ps.len() == hs.len() + 1 && ds.len() == hs.len() + 1
    &&& forall|k: int| 0 <= k < hs.len() ==> #[trigger] trace_step(routes, fs, cs, ps, ds, hs, k)
    &&& forall|k: int| 0 <= k < hs.len() - 1 ==> (#[trigger] hs[k] is Moved || hs[k] is Replied)
    &&& (hs.last() is Arrived || hs.last() is Stopped || hs.len() == HOP_LIMIT)
}

/// `r` is the outcome of forwarding `p` from router `start` of `f0` toward
/// `d0`, leaving the fabric `f1`: the run's last packet, its length, and the
/// sum of its link delays.
pub open spec fn forwarded(routes: Routes, f0: Fabric, f1: Fabric, start: int, p: PacketMeta, d0: Destination, r: ForwardResult) -> bool {
    exists|fs: Seq<Fabric>, cs: Seq<int>, ps: Seq<PacketMeta>, ds: Seq<Destination>, hs: Seq<Hop>|
        #[trigger] is_run(routes, fs, cs, ps, ds, hs) && fs[0] == f0 && fs.last() == f1 && cs[0] == start && ps[0] == p
            && ds[0] == d0 && ps.last() == r.packet && hs.len() == r.hops && r.delay_ms == total_delay(hs)
}

/// Forwards a packet from router `start` until it arrives, is dropped, or the
/// hop limit is reached; returns the last packet seen.
fn run(fabric: &mut Fabric, routes: &Routes, start: usize, packet: PacketMeta, destination: Destination, rng: &mut StdRng) -> (r: ForwardResult)
    requires
        old(fabric).wf(),
        routes.wf(),
        start < old(fabric).routers@.len(),
    ensures
        final(fabric).wf(),
        final(fabric).graph == old(fabric).graph,
        1 <= r.hops <= HOP_LIMIT,
        run_counts(*old(fabric), *final(fabric), r.hops as int),
        forwarded(*routes, *old(fabric), *final(fabric), start as int, packet, destination, r),
{
    let ghost f0 = *fabric;
    let ghost p0 = packet;
    let ghost d0 = destination;
    let mut packet = packet;
    let mut destination = destination;
    let mut ci = start;
    let mut hops: u64 = 0;
    let mut delay: u64 = 0;
    let mut done = false;
    let ghost mut fs: Seq<Fabric> = seq![f0];
    let ghost mut cs: Seq<int> = seq![start as int];
    let ghost mut ps: Seq<PacketMeta> = seq![packet];
    let ghost mut ds: Seq<Destination> = seq![destination];
    let ghost mut hs: Seq<Hop> = Seq::empty();
    proof {
        lemma_run_counts_refl(f0);
    }
    while hops < HOP_LIMIT && !done
        invariant
            fabric.wf(),
            routes.wf(),
            fabric.graph == f0.graph,
            ci < fabric.routers@.len(),
            hops <= HOP_LIMIT,
            hops == 0 ==> !done,
            run_counts(f0, *fabric, hops as int),
            hs.len() == hops,
            fs.len() == hops + 1 && cs.len() == hops + 1 && ps.len() == hops + 1 && ds.len() == hops + 1,
            fs[0] == f0 && cs[0] == start && ps[0] == p0 && ds[0] == d0,
            fs.last() == *fabric && cs.last() == ci && ps.last() == packet && ds.last() == destination,
            forall|k: int| 0 <= k < hs.len() ==> #[trigger] trace_step(*routes, fs, cs, ps, ds, hs, k),
            forall|k: int| 0 <= k < hs.len() - 1 ==> (#[trigger] hs[k] is Moved || hs[k] is Replied),
            hs.len() > 0 ==> (done <==> (hs.last() is Arrived || hs.last() is Stopped)),
            delay == total_delay(hs),
        decreases HOP_LIMIT - hops,
    {
        let ghost fa = *fabric;
        let ghost pa = packet;
        let ghost da = destination;
        let ghost ca = ci as int;
        let h = forward_hop(fabric, routes, ci, &mut packet, &mut destination, rng);
        proof {
            lemma_hop_counts(*routes, fa, *fabric, ci as int, pa, packet, da, destination, h);
            lemma_run_step(f0, fa, *fabric, hops as int, ci as int);
        }
        hops = hops + 1;
        match h {
            Hop::Moved { next, delay_ms } => {
                ci = next;
                delay = if delay > u64::MAX - delay_ms {
                    u64::MAX
                } else {
                    delay + delay_ms
                };
            },
            Hop::Replied => {},
            _ => {
                done = true;
            },
        }
        proof {
            let fs0 = fs;
            let cs0 = cs;
            let ps0 = ps;
            let ds0 = ds;
            let hs0 = hs;
            fs = fs.push(*fabric);
            cs = cs.push(ci as int);
            ps = ps.push(packet);
            ds = ds.push(destination);
            hs = hs.push(h);
            assert(hs.drop_last() =~= hs0);
            assert forall|k: int| 0 <= k < hs.len() implies #[trigger] trace_step(*routes, fs, cs, ps, ds, hs, k) by {
                if k < hs0.len() {
                    assert(trace_step(*routes, fs0, cs0, ps0, ds0, hs0, k));
                } else {
                    assert(fs[k] == fa && cs[k] == ca && ps[k] == pa && ds[k] == da);
                }
            }
            assert forall|k: int| 0 <= k < hs.len() - 1 implies (#[trigger] hs[k] is Moved || hs[k] is Replied) by {
                assert(hs[k] == hs0[k]);
                if k == hs0.len() - 1 {
                    assert(!(hs0.last() is Arrived || hs0.last() is Stopped));
                }
            }
        }
    }
    let r = ForwardResult { packet, hops, delay_ms: delay };
    proof {
        assert(is_run(*routes, fs, cs, ps, ds, hs));
    }
    r
}

proof fn lemma_run_counts_refl(f: Fabric)
    ensures
        run_counts(f, f, 0),
{
}

/// Forwards `packet` from router `ingress` toward `destination` with the
/// single-path tables; `rng` draws the links' loss and jitter. The result is
/// the last packet of the run that `forward_hop` takes hop by hop (see
/// `forwarded`). Every hop counts the packet as received once at its router,
/// a router forwards no more than it receives, and each link attempt counts
/// once on its link.
pub fn process_packet(
    fabric: &mut Fabric,
    tables: &RouterMap<RoutingTable>,
    ingress: RouterId,
    packet: PacketMeta,
    destination: Destination,
    rng: &mut StdRng,
) -> (r: ForwardResult)
    requires
        old(fabric).wf(),
        tables.wf(),
        old(fabric).has_router(ingress.name()),
    ensures
        final(fabric).wf(),
        final(fabric).graph == old(fabric).graph,
        1 <= r.hops <= HOP_LIMIT,
        run_counts(*old(fabric), *final(fabric), r.hops as int),
        exists|start: int|
            0 <= start < old(fabric).routers@.len() && old(fabric).name_at(start) == ingress.name() && forwarded(
                Routes::Single(tables),
                *old(fabric),
                *final(fabric),
                start,
                packet,
                destination,
                r,
            ),
{
    let start = match fabric.router_index(&ingress) {
        Some(i) => i,
        None => 0,
    };
    run(fabric, &Routes::Single(tables), start, packet, destination, rng)
}

/// As `process_packet`, choosing links with the equal-cost multi-path
/// `tables`: a router without equal-cost entries toward the destination has
/// no route. The single-path `routes` mark the destination anchors.
pub fn process_packet_multi(
    fabric: &mut Fabric,
    tables: &RouterMap<MultiPathTable>,
    routes: &RouterMap<RoutingTable>,
    ingress: RouterId,
    packet: PacketMeta,
    destination: Destination,
    rng: &mut StdRng,
) -> (r: ForwardResult)
    requires
        old(fabric).wf(),
        tables.wf(),
        routes.wf(),
        old(fabric).has_router(ingress.name()),
    ensures
        final(fabric).wf(),
        final(fabric).graph == old(fabric).graph,
        1 <= r.hops <= HOP_LIMIT,
        run_counts(*old(fabric), *final(fabric), r.hops as int),
        exists|start: int|
            0 <= start < old(fabric).routers@.len() && old(fabric).name_at(start) == ingress.name() && forwarded(
                Routes::Multi(tables, routes),
                *old(fabric),
                *final(fabric),
                start,
                packet,
                destination,
                r,
            ),
{
    let start = match fabric.router_index(&ingress) {
        Some(i) => i,
        None => 0,
    };
    run(fabric, &Routes::Multi(tables, routes), start, packet, destination, rng)
}

} // verus!

//! Routing tables.
use vstd::prelude::*;
use crate::topology::{RouterId, link_cost, link_cost_exec};
use crate::fabric::Fabric;
use crate::graph::{
    across, edge_list, graph_distances, graph_edge_endpoints, is_walk, lemma_no_shorter_walk, lemma_walk_of_distance,
    node_count, shortest_distances, walk_cost,
};

verus! {

/// The anchor a packet is forwarded toward.
#[derive(Clone, Copy, Debug, PartialEq, Eq, Hash, Structural)]
pub enum Destination {
    TunA,
    TunB,
}

/// Swaps `TunA` and `TunB`: ICMP replies head back to the sender's anchor.
pub fn opposite_destination(dest: Destination) -> (r: Destination)
    ensures
        r == match dest {
            Destination::TunA => Destination::TunB,
            Destination::TunB => Destination::TunA,
        },
{
    match dest {
        Destination::TunA => Destination::TunB,
        Destination::TunB => Destination::TunA,
    }
}

/// A next hop and the total cost of the path through it.
#[derive(Clone, Debug)]
pub struct RouteEntry {
    pub next_hop: RouterId,
    pub total_cost: u32,
}

/// Single-path routes toward each anchor.
#[derive(Clone, Debug)]
pub struct RoutingTable {
    pub tun_a: RouteEntry,
    pub tun_b: RouteEntry,
}

impl Default for RouteEntry {
    /// An entry with an empty next hop and zero cost.
    fn default() -> (r: RouteEntry)
        ensures
            r.next_hop.name() == Seq::<char>::empty(),
            r.total_cost == 0,
    {
        RouteEntry { next_hop: RouterId(String::new()), total_cost: 0 }
    }
}

impl Default for RoutingTable {
    /// A table whose two entries are empty.
    fn default() -> (r: RoutingTable)
        ensures
            r.tun_a.next_hop.name() == Seq::<char>::empty(),
            r.tun_b.next_hop.name() == Seq::<char>::empty(),
            r.tun_a.total_cost == 0,
            r.tun_b.total_cost == 0,
    {
        RoutingTable { tun_a: RouteEntry::default(), tun_b: RouteEntry::default() }
    }
}

/// A map from router identifiers to values, in order of first insertion.
#[derive(Clone, Debug)]
pub struct RouterMap<T> {
    keys: Vec<RouterId>,
    values: Vec<T>,
}

impl<T> RouterMap<T> {
    /// The number of keys.
    pub closed spec fn size(&self) -> nat {
        self.keys@.len()
    }

    /// The names of the keys, in order.
    pub closed spec fn key_names(&self) -> Seq<Seq<char>> {
        self.keys@.map_values(|k: RouterId| k.name())
    }

    pub closed spec fn vals(&self) -> Seq<T> {
        self.values@
    }

    /// One value per key, and no name twice.
    pub closed spec fn wf(&self) -> bool {
        &&& self.keys@.len() == self.values@.len()
        &&& forall|i: int, j: int|
            0 <= i < j < self.keys@.len() ==> #[trigger] self.keys@[i].name() != #[trigger] self.keys@[j].name()
    }

    /// Whether some key is named `k`.
    pub closed spec fn has(&self, k: Seq<char>) -> bool {
        exists|i: int| 0 <= i < self.keys@.len() && self.keys@[i].name() == k
    }

    /// The value under the key named `k`.
    pub closed spec fn value_of(&self, k: Seq<char>) -> T
        recommends
            self.has(k),
    {
        let i = choose|i: int| 0 <= i < self.keys@.len() && self.keys@[i].name() == k;
        self.values@[i]
    }

    pub fn new() -> (r: RouterMap<T>)
        ensures
            r.wf(),
            r.size() == 0,
            forall|n: Seq<char>| !r.has(n),
    {
        RouterMap { keys: Vec::new(), values: Vec::new() }
    }

    pub fn len(&self) -> (r: usize)
        ensures
            r == self.size(),
    {
        self.keys.len()
    }

    pub fn is_empty(&self) -> (r: bool)
        ensures
            r == (self.size() == 0),
    {
        self.keys.len() == 0
    }

    fn position(&self, k: &RouterId) -> (r: Option<usize>)
        requires
            self.wf(),
        ensures
            match r {
                Some(i) => i < self.keys@.len() && self.keys@[i as int].name() == k.name(),
                None => !self.has(k.name()),
            },
    {
        proof {
            assert(self.keys@.len() == self.size());
        }
        let mut i: usize = 0;
        while i < self.keys.len()
            invariant
                i <= self.keys@.len(),
                forall|j: int| 0 <= j < i ==> self.keys@[j].name() != k.name(),
            decreases self.keys@.len() - i,
        {
            if self.keys[i].same(k) {
                return Some(i);
            }
            i = i + 1;
        }
        None
    }

    pub fn contains_key(&self, k: &RouterId) -> (r: bool)
        requires
            self.wf(),
        ensures
            r == self.has(k.name()),
    {
        self.position(k).is_some()
    }

    /// The value under `k`, if any.
    pub fn get(&self, k: &RouterId) -> (r: Option<&T>)
        requires
            self.wf(),
        ensures
            match r {
                Some(v) => self.has(k.name()) && *v == self.value_of(k.name()),
                None => !self.has(k.name()),
            },
    {
        match self.position(k) {
            Some(i) => {
                proof {
                    let j = choose|j: int| 0 <= j < self.keys@.len() && self.keys@[j].name() == k.name();
                    assert(j == i as int);
                }
                Some(&self.values[i])
            },
            None => None,
        }
    }

    /// Sets the value under `k`, replacing the one it had.
    pub fn insert(&mut self, k: RouterId, v: T)
        requires
            old(self).wf(),
        ensures
            final(self).wf(),
            final(self).has(k.name()),
            final(self).value_of(k.name()) == v,
            !old(self).has(k.name()) ==> final(self).size() == old(self).size() + 1,
            old(self).has(k.name()) ==> final(self).size() == old(self).size(),
            forall|n: Seq<char>| n != k.name() ==> (final(self).has(n) == old(self).has(n)),
            forall|n: Seq<char>| n != k.name() && old(self).has(n) ==> final(self).value_of(n) == old(self).value_of(n),
    {
        let ghost kn = k.name();
        match self.position(&k) {
            Some(i) => {
                self.values.set(i, v);
                proof {
                    assert(self.keys@[i as int].name() == kn);
                    let j = choose|j: int| 0 <= j < self.keys@.len() && self.keys@[j].name() == kn;
                    assert(j == i as int);
                    assert forall|n: Seq<char>| n != kn && old(self).has(n) implies self.value_of(n) == old(self).value_of(n) by {
                        let a = choose|a: int| 0 <= a < self.keys@.len() && self.keys@[a].name() == n;
                        assert(a != i as int);
                    }
                }
            },
            None => {
                self.keys.push(k);
                self.values.push(v);
                proof {
                    let last = self.keys@.len() - 1;
                    assert(self.keys@[last].name() == kn);
                    let j = choose|j: int| 0 <= j < self.keys@.len() && self.keys@[j].name() == kn;
                    assert(j == last);
                    assert forall|n: Seq<char>| n != kn implies (self.has(n) == old(self).has(n)) by {
                        if self.has(n) {
                            let a = choose|a: int| 0 <= a < self.keys@.len() && self.keys@[a].name() == n;
                            assert(old(self).keys@[a].name() == n);
                        }
                        if old(self).has(n) {
                            let a = choose|a: int| 0 <= a < old(self).keys@.len() && old(self).keys@[a].name() == n;
                            assert(self.keys@[a].name() == n);
                        }
                    }
                    assert forall|n: Seq<char>| n != kn && old(self).has(n) implies self.value_of(n) == old(self).value_of(n) by {
                        let a = choose|a: int| 0 <= a < self.keys@.len() && self.keys@[a].name() == n;
                        let b = choose|b: int| 0 <= b < old(self).keys@.len() && old(self).keys@[b].name() == n;
                        assert(a == b);
                    }
                }
            },
        }
    }

    /// The keys, in order.
    pub fn keys(&self) -> (r: &Vec<RouterId>)
        ensures
            r@.len() == self.size(),
            forall|i: int| 0 <= i < r@.len() ==> r@[i].name() == self.key_names()[i],
    {
        &self.keys
    }

    /// The value at position `i`.
    pub fn value_at(&self, i: usize) -> (r: &T)
        requires
            self.wf(),
            i < self.size(),
        ensures
            *r == self.vals()[i as int],
    {
        &self.values[i]
    }
}

/// Equal-cost next hops toward each anchor.
#[derive(Clone, Debug)]
pub struct MultiPathTable {
    pub tun_a: Vec<RouteEntry>,
    pub tun_b: Vec<RouteEntry>,
}

impl Default for MultiPathTable {
    /// No entries toward either anchor.
    fn default() -> (r: MultiPathTable)
        ensures
            r.tun_a@.len() == 0,
            r.tun_b@.len() == 0,
    {
        MultiPathTable { tun_a: Vec::new(), tun_b: Vec::new() }
    }
}

// ---------------------------------------------------------------------------
// What the tables hold, over the fabric and the distances from an anchor.

/// `d` holds the shortest-path distances from the router named `anchor`.
pub open spec fn distances_from(f: Fabric, anchor: Seq<char>, d: Seq<Option<u64>>) -> bool {
    exists|a: int|
        0 <= a < f.routers@.len() && f.name_at(a) == anchor && shortest_distances(
            edge_list(f.graph),
            node_count(f.graph),
            a as nat,
            d,
        )
}

/// Link `j` touches router `i`.
pub open spec fn incident(f: Fabric, i: int, j: int) -> bool {
    0 <= j < f.links@.len() && f.link_touches(j, f.name_at(i))
}

/// The router at the far end of link `j` from router `i`.
pub open spec fn neighbour(f: Fabric, i: int, j: int) -> int {
    across(edge_list(f.graph)[j], i as nat) as int
}

/// The distance from router `i` through link `j`: the neighbour's distance plus
/// the link's cost, when the neighbour is reached.
pub open spec fn via_cost(f: Fabric, d: Seq<Option<u64>>, i: int, j: int) -> Option<int> {
    match d[neighbour(f, i, j)] {
        Some(x) => Some(x + edge_list(f.graph)[j].2),
        None => None,
    }
}

/// A cost as stored in a route entry: `u32::MAX` when unreachable or too large.
pub open spec fn capped(c: Option<int>) -> u32 {
    match c {
        Some(x) => if x < u32::MAX {
            x as u32
        } else {
            u32::MAX
        },
        None => u32::MAX,
    }
}

pub open spec fn dist_of(d: Seq<Option<u64>>, i: int) -> Option<int> {
    match d[i] {
        Some(x) => Some(x as int),
        None => None,
    }
}

/// Link `j` lies on a shortest path from router `i` to the anchor.
pub open spec fn descends(f: Fabric, d: Seq<Option<u64>>, i: int, j: int) -> bool {
    incident(f, i, j) && d[i] is Some && via_cost(f, d, i, j) == dist_of(d, i)
}

/// `e` is the single-path entry of router `i` toward the anchor named `anchor`:
/// its distance, and a neighbour on a shortest path (itself at the anchor or
/// when it has none).
#[verifier::opaque]
pub open spec fn single_entry_ok(f: Fabric, d: Seq<Option<u64>>, anchor: Seq<char>, i: int, e: RouteEntry) -> bool {
    &&& e.total_cost == capped(dist_of(d, i))
    &&& if f.name_at(i) == anchor {
        e.next_hop.name() == f.name_at(i)
    } else if exists|j: int| descends(f, d, i, j) {
        exists|j: int| #[trigger] descends(f, d, i, j) && e.next_hop.name() == f.name_at(neighbour(f, i, j))
    } else {
        e.next_hop.name() == f.name_at(i)
    }
}

/// `c` is the least distance through any link of router `i`.
#[verifier::opaque]
pub open spec fn least_via(f: Fabric, d: Seq<Option<u64>>, i: int, c: int) -> bool {
    &&& exists|j: int| incident(f, i, j) && #[trigger] via_cost(f, d, i, j) == Some(c)
    &&& forall|j: int| incident(f, i, j) && (#[trigger] via_cost(f, d, i, j)) is Some ==> c <= via_cost(f, d, i, j)->0
}

/// Link `j` of router `i` is one of its equal-cost best links.
pub open spec fn best_link(f: Fabric, d: Seq<Option<u64>>, i: int, j: int) -> bool {
    incident(f, i, j) && via_cost(f, d, i, j) is Some && least_via(f, d, i, via_cost(f, d, i, j)->0)
}

/// `e` is the route entry through link `j` of router `i`.
pub open spec fn entry_via(f: Fabric, d: Seq<Option<u64>>, i: int, j: int, e: RouteEntry) -> bool {
    e.next_hop.name() == f.name_at(neighbour(f, i, j)) && e.total_cost == capped(via_cost(f, d, i, j))
}

/// `es` holds one entry per best link of router `i`, no two with the same
/// next hop, and nothing else.
pub open spec fn multi_entries_ok(f: Fabric, d: Seq<Option<u64>>, i: int, es: Seq<RouteEntry>) -> bool {
    &&& multi_entries_cover(f, d, i, es)
    &&& forall|k1: int, k2: int|
        0 <= k1 < k2 < es.len() ==> (#[trigger] es[k1]).next_hop.name() != (#[trigger] es[k2]).next_hop.name()
}

/// Every entry of `es` goes through a best link of router `i`, and every best
/// link has an entry.
#[verifier::opaque]
pub open spec fn multi_entries_cover(f: Fabric, d: Seq<Option<u64>>, i: int, es: Seq<RouteEntry>) -> bool {
    &&& forall|k: int|
        #![trigger es[k]]
        0 <= k < es.len() ==> exists|j: int| #[trigger] best_link(f, d, i, j) && entry_via(f, d, i, j, es[k])
    &&& forall|j: int| #[trigger] best_link(f, d, i, j) ==> exists|k: int| 0 <= k < es.len() && entry_via(f, d, i, j, #[trigger] es[k])
}

// ---------------------------------------------------------------------------
// Computation.

/// One optional distance per router, none beyond what a path over every link could cost.
pub open spec fn bounded_distances(f: Fabric, d: Seq<Option<u64>>) -> bool {
    &&& d.len() == f.routers@.len()
    &&& forall|v: int| 0 <= v < d.len() && (#[trigger] d[v]) is Some ==> d[v]->0 <= f.links@.len() * 0xFFFF_FFFF
}

pub(crate) fn far_end(f: &Fabric, i: usize, j: usize) -> (r: usize)
    requires
        f.wf(),
        i < f.routers@.len(),
        incident(*f, i as int, j as int),
    ensures
        r == neighbour(*f, i as int, j as int),
        r < f.routers@.len(),
{
    let (a, b) = graph_edge_endpoints(&f.graph, j);
    proof {
        let e = edge_list(f.graph)[j as int];
        if f.links@[j as int].id.a.name() == f.name_at(i as int) {
            assert(f.name_at(e.0 as int) == f.name_at(i as int));
        } else {
            assert(f.name_at(e.1 as int) == f.name_at(i as int));
        }
    }
    if a == i {
        b
    } else {
        a
    }
}

/// Distance through link `j`, if its far end is reached.
fn via(f: &Fabric, d: &Vec<Option<u64>>, i: usize, j: usize) -> (r: Option<u64>)
    requires
        f.wf(),
        i < f.routers@.len(),
        incident(*f, i as int, j as int),
        bounded_distances(*f, d@),
    ensures
        match r {
            Some(x) => via_cost(*f, d@, i as int, j as int) == Some(x as int),
            None => via_cost(*f, d@, i as int, j as int) is None,
        },
{
    let nb = far_end(f, i, j);
    proof {
        assert(edge_list(f.graph)[j as int].2 == link_cost(f.links@[j as int].cfg.delay_ms));
    }
    match d[nb] {
        Some(x) => Some(x + link_cost_exec(f.links[j].cfg.delay_ms) as u64),
        None => None,
    }
}

/// The single-path entry of router `i` toward the anchor at position `anchor`.
#[verifier::rlimit(80)]
fn single_route(f: &Fabric, d: &Vec<Option<u64>>, i: usize, anchor: usize) -> (r: RouteEntry)
    requires
        f.wf(),
        i < f.routers@.len(),
        anchor < f.routers@.len(),
        bounded_distances(*f, d@),
    ensures
        single_entry_ok(*f, d@, f.name_at(anchor as int), i as int, r),
{
    reveal(single_entry_ok);
    let total_cost: u32 = match d[i] {
        Some(x) => if x < 0xFFFF_FFFF {
            x as u32
        } else {
            0xFFFF_FFFF
        },
        None => 0xFFFF_FFFF,
    };
    if i == anchor {
        return RouteEntry { next_hop: f.routers[i].id.duplicate(), total_cost };
    }
    proof {
        assert(f.name_at(i as int) != f.name_at(anchor as int)) by {
            if i < anchor {
                assert(f.name_at(i as int) != f.name_at(anchor as int));
            } else {
                assert(f.name_at(anchor as int) != f.name_at(i as int));
            }
        }
    }
    let idx = f.incident_link_indices(i);
    let mut k: usize = 0;
    while k < idx.len()
        invariant
            f.wf(),
            i < f.routers@.len(),
            bounded_distances(*f, d@),
            anchor < f.routers@.len(),
            f.name_at(i as int) != f.name_at(anchor as int),
            total_cost == capped(dist_of(d@, i as int)),
            idx@.no_duplicates(),
            forall|j: int| 0 <= j < f.links@.len() && f.link_touches(j, f.name_at(i as int)) ==> idx@.contains(j as usize),
            k <= idx@.len(),
            forall|m: int| 0 <= m < idx@.len() ==> incident(*f, i as int, #[trigger] idx@[m] as int),
            forall|m: int| 0 <= m < k ==> !descends(*f, d@, i as int, #[trigger] idx@[m] as int),
        decreases idx@.len() - k,
    {
        let j = idx[k];
        let v = via(f, d, i, j);
        match (v, d[i]) {
            (Some(x), Some(y)) => {
                if x == y {
                    let nb = far_end(f, i, j);
                    let r = RouteEntry { next_hop: f.routers[nb].id.duplicate(), total_cost };
                    proof {
                        assert(descends(*f, d@, i as int, j as int));
                        assert(r.next_hop.name() == f.name_at(neighbour(*f, i as int, j as int)));
                        assert(exists|j: int| #[trigger] descends(*f, d@, i as int, j) && r.next_hop.name() == f.name_at(neighbour(*f, i as int, j)));
                        reveal(single_entry_ok);
                        assert(single_entry_ok(*f, d@, f.name_at(anchor as int), i as int, r));
                    }
                    return r;
                }
            },
            _ => {},
        }
        k = k + 1;
    }
    proof {
        assert forall|j: int| !descends(*f, d@, i as int, j) by {
            if descends(*f, d@, i as int, j) {
                assert(idx@.contains(j as usize));
                let m = idx@.index_of(j as usize);
                assert(idx@[m] as int == j);
            }
        }
    }
    RouteEntry { next_hop: f.routers[i].id.duplicate(), total_cost }
}

fn entry_through(f: &Fabric, d: &Vec<Option<u64>>, i: usize, j: usize, c: u64) -> (r: RouteEntry)
    requires
        f.wf(),
        i < f.routers@.len(),
        incident(*f, i as int, j as int),
        bounded_distances(*f, d@),
        via_cost(*f, d@, i as int, j as int) == Some(c as int),
    ensures
        entry_via(*f, d@, i as int, j as int, r),
{
    let nb = far_end(f, i, j);
    let total_cost: u32 = if c < 0xFFFF_FFFF {
        c as u32
    } else {
        0xFFFF_FFFF
    };
    RouteEntry { next_hop: f.routers[nb].id.duplicate(), total_cost }
}

/// The equal-cost entries of router `i`: one per link whose far end is reached
/// at the least total distance.
#[verifier::rlimit(40)]
fn multi_routes(f: &Fabric, d: &Vec<Option<u64>>, i: usize) -> (r: Vec<RouteEntry>)
    requires
        f.wf(),
        i < f.routers@.len(),
        bounded_distances(*f, d@),
    ensures
        multi_entries_ok(*f, d@, i as int, r@),
{
    let idx = f.incident_link_indices(i);
    let mut entries: Vec<RouteEntry> = Vec::new();
    let mut best: Option<u64> = None;
    // For each entry, the position in `idx` of its link.
    let ghost mut link_of: Seq<int> = Seq::empty();
    // For each position in `idx` whose link is a best one so far, its entry.
    let ghost mut entry_of: Seq<int> = Seq::empty();
    // A position whose distance is `best`.
    let ghost mut witness: int = 0;
    let mut k: usize = 0;
    while k < idx.len()
        invariant
            f.wf(),
            i < f.routers@.len(),
            bounded_distances(*f, d@),
            k <= idx@.len(),
            forall|m: int| 0 <= m < idx@.len() ==> incident(*f, i as int, #[trigger] idx@[m] as int),
            best is None ==> forall|m: int| 0 <= m < k ==> via_cost(*f, d@, i as int, #[trigger] idx@[m] as int) is None,
            best is None ==> entries@.len() == 0,
            best is Some ==> 0 <= witness < k && via_cost(*f, d@, i as int, idx@[witness] as int) == Some(best->0 as int),
            best is Some ==> forall|m: int| 0 <= m < k && (#[trigger] via_cost(*f, d@, i as int, idx@[m] as int)) is Some
                ==> best->0 <= via_cost(*f, d@, i as int, idx@[m] as int)->0,
            link_of.len() == entries@.len(),
            forall|e1: int, e2: int| 0 <= e1 < e2 < entries@.len() ==> #[trigger] link_of[e1] < #[trigger] link_of[e2],
            forall|e: int| 0 <= e < entries@.len() ==> {
                &&& 0 <= #[trigger] link_of[e] < k
                &&& best is Some
                &&& via_cost(*f, d@, i as int, idx@[link_of[e]] as int) == Some(best->0 as int)
                &&& entry_via(*f, d@, i as int, idx@[link_of[e]] as int, entries@[e])
            },
            entry_of.len() == k,
            forall|m: int| 0 <= m < k && best is Some && via_cost(*f, d@, i as int, #[trigger] idx@[m] as int) == Some(best->0 as int)
                ==> 0 <= entry_of[m] < entries@.len() && entry_via(*f, d@, i as int, idx@[m] as int, entries@[entry_of[m]]),
        decreases idx@.len() - k,
    {
        let j = idx[k];
        match via(f, d, i, j) {
            Some(c) => {
                let better = match best {
                    Some(b) => c < b,
                    None => true,
                };
                if better {
                    entries = Vec::new();
                    entries.push(entry_through(f, d, i, j, c));
                    best = Some(c);
                    proof {
                        link_of = seq![k as int];
                        entry_of = Seq::new((k + 1) as nat, |m: int| 0int);
                        witness = k as int;
                    }
                } else if best == Some(c) {
                    entries.push(entry_through(f, d, i, j, c));
                    proof {
                        link_of = link_of.push(k as int);
                        entry_of = entry_of.push(entries@.len() - 1);
                    }
                } else {
                    proof {
                        entry_of = entry_of.push(0);
                    }
                }
            },
            None => {
                proof {
                    entry_of = entry_of.push(0);
                }
            },
        }
        k = k + 1;
    }
    proof {
        lemma_multi_entries(*f, d@, i as int, idx@, entries@, best, link_of, entry_of, witness);
        assert forall|k1: int, k2: int|
            0 <= k1 < k2 < entries@.len() implies (#[trigger] entries@[k1]).next_hop.name() != (#[trigger] entries@[k2]).next_hop.name() by {
            let j1 = idx@[link_of[k1]] as int;
            let j2 = idx@[link_of[k2]] as int;
            assert(link_of[k1] < link_of[k2]);
            assert(j1 != j2);
            lemma_distinct_neighbours(*f, i as int, j1, j2);
        }
    }
    entries
}

/// Two different links of router `i` lead to differently named routers.
proof fn lemma_distinct_neighbours(f: Fabric, i: int, j1: int, j2: int)
    requires
        f.wf(),
        0 <= i < f.routers@.len(),
        incident(f, i, j1),
        incident(f, i, j2),
        j1 != j2,
    ensures
        f.name_at(neighbour(f, i, j1)) != f.name_at(neighbour(f, i, j2)),
{
    let es = edge_list(f.graph);
    assert forall|j: int| #![trigger es[j]] j == j1 || j == j2 implies f.links@[j].id.joins(f.name_at(i), f.name_at(neighbour(f, i, j))) by {
        let e = es[j];
        assert(f.name_at(e.0 as int) == f.links@[j].id.a.name());
        assert(f.name_at(e.1 as int) == f.links@[j].id.b.name());
        if f.links@[j].id.a.name() == f.name_at(i) {
            if e.0 != i {
                if (e.0 as int) < i {
                    assert(f.name_at(e.0 as int) != f.name_at(i));
                } else {
                    assert(f.name_at(i) != f.name_at(e.0 as int));
                }
            }
        } else {
            if e.1 != i {
                if (e.1 as int) < i {
                    assert(f.name_at(e.1 as int) != f.name_at(i));
                } else {
                    assert(f.name_at(i) != f.name_at(e.1 as int));
                }
            }
        }
    }
    if f.name_at(neighbour(f, i, j1)) == f.name_at(neighbour(f, i, j2)) {
        assert(f.links@[j1].id.joins(f.name_at(i), f.name_at(neighbour(f, i, j1))));
        assert(f.links@[j2].id.joins(f.name_at(i), f.name_at(neighbour(f, i, j1))));
        if j1 < j2 {
            assert(!f.links@[j1].id.joins(f.links@[j2].id.a.name(), f.links@[j2].id.b.name()));
        } else {
            assert(!f.links@[j2].id.joins(f.links@[j1].id.a.name(), f.links@[j1].id.b.name()));
        }
    }
}

/// Every reached link of router `i` costs at least `best`.
proof fn lemma_best_is_least(f: Fabric, d: Seq<Option<u64>>, i: int, idx: Seq<usize>, best: Option<u64>)
    requires
        f.links@.len() <= crate::fabric::MAX_LINKS,
        forall|j: int| 0 <= j < f.links@.len() && f.link_touches(j, f.name_at(i)) ==> idx.contains(j as usize),
        best is None ==> forall|m: int| 0 <= m < idx.len() ==> via_cost(f, d, i, #[trigger] idx[m] as int) is None,
        best is Some ==> forall|m: int| 0 <= m < idx.len() && (#[trigger] via_cost(f, d, i, idx[m] as int)) is Some
            ==> best->0 <= via_cost(f, d, i, idx[m] as int)->0,
    ensures
        forall|j: int| incident(f, i, j) && (#[trigger] via_cost(f, d, i, j)) is Some ==> best is Some && best->0 <= via_cost(f, d, i, j)->0,
{
    assert forall|j: int| incident(f, i, j) && (#[trigger] via_cost(f, d, i, j)) is Some implies best is Some && best->0 <= via_cost(f, d, i, j)->0 by {
        assert(idx.contains(j as usize));
        let m = idx.index_of(j as usize);
        assert(idx[m] as int == j);
    }
}

#[verifier::rlimit(80)]
proof fn lemma_multi_entries(
    f: Fabric,
    d: Seq<Option<u64>>,
    i: int,
    idx: Seq<usize>,
    entries: Seq<RouteEntry>,
    best: Option<u64>,
    link_of: Seq<int>,
    entry_of: Seq<int>,
    witness: int,
)
    requires
        best is Some ==> 0 <= witness < idx.len() && via_cost(f, d, i, idx[witness] as int) == Some(best->0 as int),
        f.links@.len() <= crate::fabric::MAX_LINKS,
        forall|j: int| 0 <= j < f.links@.len() && f.link_touches(j, f.name_at(i)) ==> idx.contains(j as usize),
        forall|m: int| 0 <= m < idx.len() ==> incident(f, i, #[trigger] idx[m] as int),
        best is None ==> forall|m: int| 0 <= m < idx.len() ==> via_cost(f, d, i, #[trigger] idx[m] as int) is None,
        best is None ==> entries.len() == 0,
        best is Some ==> forall|m: int| 0 <= m < idx.len() && (#[trigger] via_cost(f, d, i, idx[m] as int)) is Some
            ==> best->0 <= via_cost(f, d, i, idx[m] as int)->0,
        link_of.len() == entries.len(),
        forall|e: int| 0 <= e < entries.len() ==> {
            &&& 0 <= #[trigger] link_of[e] < idx.len()
            &&& best is Some
            &&& via_cost(f, d, i, idx[link_of[e]] as int) == Some(best->0 as int)
            &&& entry_via(f, d, i, idx[link_of[e]] as int, entries[e])
        },
        entry_of.len() == idx.len(),
        forall|m: int| 0 <= m < idx.len() && best is Some && via_cost(f, d, i, #[trigger] idx[m] as int) == Some(best->0 as int)
            ==> 0 <= entry_of[m] < entries.len() && entry_via(f, d, i, idx[m] as int, entries[entry_of[m]]),
    ensures
        multi_entries_cover(f, d, i, entries),
{
    reveal(multi_entries_cover);
    lemma_best_is_least(f, d, i, idx, best);
    assert forall|e: int| #![trigger entries[e]] 0 <= e < entries.len() implies exists|j: int| #[trigger] best_link(f, d, i, j) && entry_via(f, d, i, j, entries[e]) by {
        let j = idx[link_of[e]] as int;
        assert(via_cost(f, d, i, j) == Some(best->0 as int));
        reveal(least_via);
        assert(best_link(f, d, i, j));
    }
    assert forall|j: int| #[trigger] best_link(f, d, i, j) implies exists|e: int| 0 <= e < entries.len() && entry_via(f, d, i, j, #[trigger] entries[e]) by {
        lemma_best_link_in_list(f, d, i, idx, best, j, witness);
        let m = idx.index_of(j as usize);
        assert(entry_via(f, d, i, j, entries[entry_of[m]]));
    }
}

proof fn lemma_best_link_in_list(f: Fabric, d: Seq<Option<u64>>, i: int, idx: Seq<usize>, best: Option<u64>, j: int, witness: int)
    requires
        best_link(f, d, i, j),
        f.links@.len() <= crate::fabric::MAX_LINKS,
        forall|j: int| 0 <= j < f.links@.len() && f.link_touches(j, f.name_at(i)) ==> idx.contains(j as usize),
        forall|m: int| 0 <= m < idx.len() ==> incident(f, i, #[trigger] idx[m] as int),
        forall|j: int| incident(f, i, j) && (#[trigger] via_cost(f, d, i, j)) is Some ==> best is Some && best->0 <= via_cost(f, d, i, j)->0,
        best is Some ==> 0 <= witness < idx.len() && via_cost(f, d, i, idx[witness] as int) == Some(best->0 as int),
    ensures
        idx.contains(j as usize),
        idx[idx.index_of(j as usize)] as int == j,
        best is Some,
        via_cost(f, d, i, j) == Some(best->0 as int),
{
    assert(idx.contains(j as usize));
    reveal(least_via);
    let c = via_cost(f, d, i, j)->0;
    let w = idx[witness] as int;
    assert(incident(f, i, w));
    assert(c <= via_cost(f, d, i, w)->0);
}

/// Shortest distances from router `a` over the fabric.
fn distances(f: &Fabric, a: usize) -> (d: Vec<Option<u64>>)
    requires
        f.wf(),
        a < f.routers@.len(),
    ensures
        distances_from(*f, f.name_at(a as int), d@),
        bounded_distances(*f, d@),
{
    let d = graph_distances(&f.graph, a);
    proof {
        assert(shortest_distances(edge_list(f.graph), node_count(f.graph), a as nat, d@));
    }
    d
}

/// Position of the router named like `id`, which must be present.
fn anchor_index(f: &Fabric, id: &RouterId) -> (r: usize)
    requires
        f.wf(),
        f.has_router(id.name()),
    ensures
        r < f.routers@.len(),
        f.name_at(r as int) == id.name(),
{
    match f.router_index(id) {
        Some(i) => i,
        None => 0,
    }
}

/// `r` holds the single-path tables of fabric `f` with anchors named `a` and
/// `b`: one table per router, each entry as `single_entry_ok` says over the
/// shortest distances from the anchor.
pub open spec fn single_tables_ok(f: Fabric, a: Seq<char>, b: Seq<char>, r: RouterMap<RoutingTable>) -> bool {
    &&& r.wf()
    &&& r.size() == f.routers@.len()
    &&& forall|n: Seq<char>| r.has(n) <==> f.has_router(n)
    &&& exists|da: Seq<Option<u64>>, db: Seq<Option<u64>>|
        distances_from(f, a, da) && distances_from(f, b, db) && forall|i: int|
            0 <= i < f.routers@.len() ==> single_entry_ok(f, da, a, i, (#[trigger] r.value_of(f.name_at(i))).tun_a)
                && single_entry_ok(f, db, b, i, r.value_of(f.name_at(i)).tun_b)
}

/// `r` holds the equal-cost multi-path tables of fabric `f` with anchors
/// named `a` and `b`, each entry list as `multi_entries_ok` says.
pub open spec fn multi_tables_ok(f: Fabric, a: Seq<char>, b: Seq<char>, r: RouterMap<MultiPathTable>) -> bool {
    &&& r.wf()
    &&& r.size() == f.routers@.len()
    &&& forall|n: Seq<char>| r.has(n) <==> f.has_router(n)
    &&& exists|da: Seq<Option<u64>>, db: Seq<Option<u64>>|
        distances_from(f, a, da) && distances_from(f, b, db) && forall|i: int|
            0 <= i < f.routers@.len() ==> multi_entries_ok(f, da, i, (#[trigger] r.value_of(f.name_at(i))).tun_a@)
                && multi_entries_ok(f, db, i, r.value_of(f.name_at(i)).tun_b@)
}

/// Single-path routing tables for every router: toward `ingress_a` for
/// `TunA` and toward `ingress_b` for `TunB`, over shortest paths where a link
/// costs its delay (at least 1).
#[verifier::rlimit(60)]
pub fn compute_routing(fabric: &Fabric, ingress_a: RouterId, ingress_b: RouterId) -> (r: RouterMap<RoutingTable>)
    requires
        fabric.wf(),
        fabric.has_router(ingress_a.name()),
        fabric.has_router(ingress_b.name()),
    ensures
        single_tables_ok(*fabric, ingress_a.name(), ingress_b.name(), r),
{
    let f = fabric;
    let ia = anchor_index(f, &ingress_a);
    let ib = anchor_index(f, &ingress_b);
    let da = distances(f, ia);
    let db = distances(f, ib);
    let mut m: RouterMap<RoutingTable> = RouterMap::new();
    let mut i: usize = 0;
    while i < f.routers.len()
        invariant
            f.wf(),
            ia < f.routers@.len(),
            ib < f.routers@.len(),
            f.name_at(ia as int) == ingress_a.name(),
            f.name_at(ib as int) == ingress_b.name(),
            bounded_distances(*f, da@),
            bounded_distances(*f, db@),
            i <= f.routers@.len(),
            m.wf(),
            m.size() == i,
            forall|k: int| 0 <= k < i ==> m.has(#[trigger] f.name_at(k)) && single_entry_ok(*f, da@, ingress_a.name(), k, m.value_of(f.name_at(k)).tun_a)
                && single_entry_ok(*f, db@, ingress_b.name(), k, m.value_of(f.name_at(k)).tun_b),
            forall|n: Seq<char>| m.has(n) ==> exists|k: int| 0 <= k < i && f.name_at(k) == n,
        decreases f.routers@.len() - i,
    {
        let ghost before = m;
        proof {
            assert(!m.has(f.name_at(i as int))) by {
                if m.has(f.name_at(i as int)) {
                    let k = choose|k: int| 0 <= k < i && f.name_at(k) == f.name_at(i as int);
                    assert(f.name_at(k) != f.name_at(i as int));
                }
            }
        }
        let tun_a = single_route(f, &da, i, ia);
        let tun_b = single_route(f, &db, i, ib);
        m.insert(f.routers[i].id.duplicate(), RoutingTable { tun_a, tun_b });
        proof {
            assert forall|n: Seq<char>| m.has(n) implies exists|k: int| 0 <= k < i + 1 && f.name_at(k) == n by {
                if n != f.name_at(i as int) {
                    assert(before.has(n));
                }
            }
            assert forall|k: int| 0 <= k < i + 1 implies m.has(#[trigger] f.name_at(k)) && single_entry_ok(*f, da@, ingress_a.name(), k, m.value_of(f.name_at(k)).tun_a)
                && single_entry_ok(*f, db@, ingress_b.name(), k, m.value_of(f.name_at(k)).tun_b) by {
                if k < i {
                    assert(f.name_at(k) != f.name_at(i as int));
                }
            }
        }
        i = i + 1;
    }
    proof {
        assert forall|n: Seq<char>| f.has_router(n) implies m.has(n) by {
            let k = choose|k: int| 0 <= k < f.routers@.len() && f.name_at(k) == n;
            assert(m.has(f.name_at(k)));
        }
    }
    m
}

/// Equal-cost multi-path tables for every router: for `TunA` the links on a
/// least-cost path toward `ingress_a`, for `TunB` toward `ingress_b`.
#[verifier::rlimit(60)]
pub fn compute_multi_path_routing(fabric: &Fabric, ingress_a: RouterId, ingress_b: RouterId) -> (r: RouterMap<MultiPathTable>)
    requires
        fabric.wf(),
        fabric.has_router(ingress_a.name()),
        fabric.has_router(ingress_b.name()),
    ensures
        multi_tables_ok(*fabric, ingress_a.name(), ingress_b.name(), r),
{
    let f = fabric;
    let ia = anchor_index(f, &ingress_a);
    let ib = anchor_index(f, &ingress_b);
    let da = distances(f, ia);
    let db = distances(f, ib);
    let mut m: RouterMap<MultiPathTable> = RouterMap::new();
    let mut i: usize = 0;
    while i < f.routers.len()
        invariant
            f.wf(),
            bounded_distances(*f, da@),
            bounded_distances(*f, db@),
            i <= f.routers@.len(),
            m.wf(),
            m.size() == i,
            forall|k: int| 0 <= k < i ==> m.has(#[trigger] f.name_at(k)) && multi_entries_ok(*f, da@, k, m.value_of(f.name_at(k)).tun_a@)
                && multi_entries_ok(*f, db@, k, m.value_of(f.name_at(k)).tun_b@),
            forall|n: Seq<char>| m.has(n) ==> exists|k: int| 0 <= k < i && f.name_at(k) == n,
        decreases f.routers@.len() - i,
    {
        let ghost before = m;
        proof {
            assert(!m.has(f.name_at(i as int))) by {
                if m.has(f.name_at(i as int)) {
                    let k = choose|k: int| 0 <= k < i && f.name_at(k) == f.name_at(i as int);
                    assert(f.name_at(k) != f.name_at(i as int));
                }
            }
        }
        let tun_a = multi_routes(f, &da, i);
        let tun_b = multi_routes(f, &db, i);
        m.insert(f.routers[i].id.duplicate(), MultiPathTable { tun_a, tun_b });
        proof {
            assert forall|n: Seq<char>| m.has(n) implies exists|k: int| 0 <= k < i + 1 && f.name_at(k) == n by {
                if n != f.name_at(i as int) {
                    assert(before.has(n));
                }
            }
            assert forall|k: int| 0 <= k < i + 1 implies m.has(#[trigger] f.name_at(k)) && multi_entries_ok(*f, da@, k, m.value_of(f.name_at(k)).tun_a@)
                && multi_entries_ok(*f, db@, k, m.value_of(f.name_at(k)).tun_b@) by {
                if k < i {
                    assert(f.name_at(k) != f.name_at(i as int));
                }
            }
        }
        i = i + 1;
    }
    proof {
        assert forall|n: Seq<char>| f.has_router(n) implies m.has(n) by {
            let k = choose|k: int| 0 <= k < f.routers@.len() && f.name_at(k) == n;
            assert(m.has(f.name_at(k)));
        }
    }
    m
}

/// The cost in a single-path entry is the least total cost of a walk from
/// the anchor to the router, links costing their delay and at least 1: no walk
/// costs less, and unless the cost is `u32::MAX` (no walk, or too far to
/// count) some walk costs exactly that.
pub proof fn lemma_route_cost_is_shortest(f: Fabric, anchor: Seq<char>, d: Seq<Option<u64>>, i: int, e: RouteEntry)
    requires
        f.wf(),
        distances_from(f, anchor, d),
        0 <= i < f.routers@.len(),
        single_entry_ok(f, d, anchor, i, e),
    ensures
        forall|w: Seq<int>, nodes: Seq<nat>|
            is_walk(edge_list(f.graph), w, nodes) && f.name_at(nodes[0] as int) == anchor && nodes.last() == i
                && nodes[0] < f.routers@.len() ==> e.total_cost <= walk_cost(edge_list(f.graph), w),
        e.total_cost < u32::MAX ==> exists|w: Seq<int>, nodes: Seq<nat>|
            is_walk(edge_list(f.graph), w, nodes) && f.name_at(nodes[0] as int) == anchor && nodes.last() == i
                && walk_cost(edge_list(f.graph), w) == e.total_cost,
{
    reveal(single_entry_ok);
    let es = edge_list(f.graph);
    let n = node_count(f.graph);
    let a = choose|a: int| 0 <= a < f.routers@.len() && f.name_at(a) == anchor && shortest_distances(es, n, a as nat, d);
    assert forall|w: Seq<int>, nodes: Seq<nat>|
        is_walk(es, w, nodes) && f.name_at(nodes[0] as int) == anchor && nodes.last() == i && nodes[0] < f.routers@.len()
            implies e.total_cost <= walk_cost(es, w) by {
        assert(nodes[0] == a) by {
            if nodes[0] != a {
                if (nodes[0] as int) < a {
                    assert(f.name_at(nodes[0] as int) != f.name_at(a));
                } else {
                    assert(f.name_at(a) != f.name_at(nodes[0] as int));
                }
            }
        }
        lemma_no_shorter_walk(es, n, a as nat, d, w, nodes);
    }
    if e.total_cost < u32::MAX {
        assert(forall|j: int| 0 <= j < es.len() ==> (#[trigger] es[j]).2 >= 1);
        lemma_walk_of_distance(es, n, a as nat, d, i as nat);
    }
}

} // verus!

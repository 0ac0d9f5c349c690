//! The fabric: routers, links, and the graph that joins them.
use vstd::prelude::*;
use crate::graph::{
    CostGraph, edge_list, graph_add_edge, graph_add_node, graph_incident_edges, graph_new,
    node_count, touches,
};
use crate::routing::RouterMap;
use crate::simulation::{LOSS_SCALE, SimulationError, simulate_link, verdict};
use crate::topology::{
    Link, LinkConfig, LinkId, Router, RouterId, RouterStats, bump, is_router_name, link_cost,
    link_cost_exec,
};

verus! {

/// Most routers a fabric holds (the graph's `u32` node index).
pub const MAX_ROUTERS: usize = 0xFFFF_FFFE;

/// Most links a fabric holds (path costs are then summed without overflow).
pub const MAX_LINKS: usize = 0x7FFF_FFFF;

/// Why a router or link was refused.
#[derive(Clone, Debug, PartialEq, Eq)]
pub enum FabricError {
    InvalidRouterId(String),
    DuplicateRouter(String),
    UnknownRouter(String),
    DuplicateLink(String, String),
    Full,
}

/// The topology: router `i` is node `i` of the graph, link `j` its edge `j`.
#[derive(Debug)]
pub struct Fabric {
    pub graph: CostGraph,
    pub routers: Vec<Router>,
    pub links: Vec<Link>,
}

impl Fabric {
    pub open spec fn name_at(&self, i: int) -> Seq<char> {
        self.routers@[i].id.name()
    }

    /// Whether a router is named `n`.
    pub open spec fn has_router(&self, n: Seq<char>) -> bool {
        exists|i: int| 0 <= i < self.routers@.len() && self.name_at(i) == n
    }

    /// Whether a link joins the routers named `x` and `y`.
    pub open spec fn has_link(&self, x: Seq<char>, y: Seq<char>) -> bool {
        exists|j: int| 0 <= j < self.links@.len() && self.links@[j].id.joins(x, y)
    }

    /// Link `j` touches the router named `n`.
    pub open spec fn link_touches(&self, j: int, n: Seq<char>) -> bool {
        self.links@[j].id.a.name() == n || self.links@[j].id.b.name() == n
    }

    /// The fabric's invariant: the graph mirrors the routers and links, router
    /// names are valid and distinct, link identifiers are sorted and distinct.
    pub open spec fn wf(&self) -> bool {
        let es = edge_list(self.graph);
        &&& node_count(self.graph) == self.routers@.len()
        &&& es.len() == self.links@.len()
        &&& self.routers@.len() <= MAX_ROUTERS
        &&& self.links@.len() <= MAX_LINKS
        &&& forall|i: int| 0 <= i < self.routers@.len() ==> is_router_name(#[trigger] self.name_at(i))
        &&& forall|i: int, k: int|
            0 <= i < k < self.routers@.len() ==> #[trigger] self.name_at(i) != #[trigger] self.name_at(k)
        &&& forall|j: int| 0 <= j < es.len() ==> {
            &&& (#[trigger] es[j]).0 < self.routers@.len()
            &&& es[j].1 < self.routers@.len()
            &&& self.name_at(es[j].0 as int) == self.links@[j].id.a.name()
            &&& self.name_at(es[j].1 as int) == self.links@[j].id.b.name()
            &&& es[j].2 == link_cost(self.links@[j].cfg.delay_ms)
            &&& self.links@[j].id.canonical()
        }
        &&& forall|j: int, k: int|
            0 <= j < k < self.links@.len() ==> !(#[trigger] self.links@[j]).id.joins(
                (#[trigger] self.links@[k]).id.a.name(),
                self.links@[k].id.b.name(),
            )
    }

    /// An empty fabric.
    pub fn new() -> (r: Fabric)
        ensures
            r.wf(),
            r.routers@.len() == 0,
            r.links@.len() == 0,
    {
        Fabric { graph: graph_new(), routers: Vec::new(), links: Vec::new() }
    }

    /// Position of the router named like `id`.
    pub fn router_index(&self, id: &RouterId) -> (r: Option<usize>)
        requires
            self.wf(),
        ensures
            match r {
                Some(i) => i < self.routers@.len() && self.name_at(i as int) == id.name(),
                None => !self.has_router(id.name()),
            },
    {
        let mut i: usize = 0;
        while i < self.routers.len()
            invariant
                i <= self.routers@.len(),
                forall|k: int| 0 <= k < i ==> self.name_at(k) != id.name(),
            decreases self.routers@.len() - i,
        {
            if self.routers[i].id.same(id) {
                return Some(i);
            }
            i = i + 1;
        }
        None
    }

    /// Adds a router; its identifier must be valid and not yet present.
    pub fn add_router(&mut self, router: Router) -> (r: Result<(), FabricError>)
        requires
            old(self).wf(),
        ensures
            final(self).wf(),
            !is_router_name(router.id.name()) ==> r == Err::<(), FabricError>(FabricError::InvalidRouterId(router.id.0)),
            is_router_name(router.id.name()) && old(self).has_router(router.id.name()) ==> r
                == Err::<(), FabricError>(FabricError::DuplicateRouter(router.id.0)),
            is_router_name(router.id.name()) && !old(self).has_router(router.id.name())
                && old(self).routers@.len() >= MAX_ROUTERS ==> r == Err::<(), FabricError>(FabricError::Full),
            r is Ok <==> is_router_name(router.id.name()) && !old(self).has_router(router.id.name())
                && old(self).routers@.len() < MAX_ROUTERS,
            r is Ok ==> final(self).routers@ == old(self).routers@.push(router),
            r is Err ==> final(self).routers@ == old(self).routers@,
            final(self).links@ == old(self).links@,
    {
        if router.id.validate().is_err() {
            return Err(FabricError::InvalidRouterId(router.id.0));
        }
        if self.router_index(&router.id).is_some() {
            return Err(FabricError::DuplicateRouter(router.id.0));
        }
        if self.routers.len() >= MAX_ROUTERS {
            return Err(FabricError::Full);
        }
        let ghost es = edge_list(self.graph);
        let ghost rn = router.id.name();
        graph_add_node(&mut self.graph);
        self.routers.push(router);
        proof {
            let n = self.routers@.len() - 1;
            assert(self.name_at(n) == rn);
            assert forall|i: int| 0 <= i < n implies self.name_at(i) == old(self).name_at(i) && old(self).name_at(i) != rn by {
                assert(self.routers@[i] == old(self).routers@[i]);
            }
            assert forall|j: int| 0 <= j < es.len() implies self.name_at((#[trigger] es[j]).0 as int) == old(self).name_at(es[j].0 as int) by {}
            assert forall|i: int, k: int|
                0 <= i < k < self.routers@.len() implies #[trigger] self.name_at(i) != #[trigger] self.name_at(k) by {
                if k == n {
                    assert(old(self).name_at(i) == self.name_at(i));
                }
            }
        }
        Ok(())
    }

    /// Position of the link joining the routers named like `a` and `b`.
    pub fn link_index(&self, a: &RouterId, b: &RouterId) -> (r: Option<usize>)
        requires
            self.wf(),
        ensures
            match r {
                Some(j) => j < self.links@.len() && self.links@[j as int].id.joins(a.name(), b.name()),
                None => !self.has_link(a.name(), b.name()),
            },
    {
        let mut j: usize = 0;
        while j < self.links.len()
            invariant
                j <= self.links@.len(),
                forall|k: int| 0 <= k < j ==> !self.links@[k].id.joins(a.name(), b.name()),
            decreases self.links@.len() - j,
        {
            let l = &self.links[j];
            if (l.id.a.same(a) && l.id.b.same(b)) || (l.id.a.same(b) && l.id.b.same(a)) {
                return Some(j);
            }
            j = j + 1;
        }
        None
    }

    /// Adds a link between two present routers; a link between the same two
    /// routers, in either order, must not exist yet.
    pub fn add_link(&mut self, a: &RouterId, b: &RouterId, cfg: LinkConfig) -> (r: Result<(), FabricError>)
        requires
            old(self).wf(),
        ensures
            final(self).wf(),
            final(self).routers@ == old(self).routers@,
            r is Ok <==> old(self).has_router(a.name()) && old(self).has_router(b.name())
                && !old(self).has_link(a.name(), b.name()) && old(self).links@.len() < MAX_LINKS,
            !old(self).has_router(a.name()) ==> r == Err::<(), FabricError>(FabricError::UnknownRouter(a.0)),
            old(self).has_router(a.name()) && !old(self).has_router(b.name()) ==> r == Err::<(), FabricError>(
                FabricError::UnknownRouter(b.0)),
            old(self).has_router(a.name()) && old(self).has_router(b.name()) && old(self).has_link(a.name(), b.name())
                ==> r == Err::<(), FabricError>(FabricError::DuplicateLink(a.0, b.0)),
            r is Err ==> final(self).links@ == old(self).links@,
            r is Ok ==> {
                &&& final(self).links@.len() == old(self).links@.len() + 1
                &&& final(self).links@.subrange(0, old(self).links@.len() as int) == old(self).links@
                &&& final(self).links@.last().id.joins(a.name(), b.name())
                &&& final(self).links@.last().cfg == cfg
                &&& final(self).links@.last().counter == 0
            },
    {
        let ia = match self.router_index(a) {
            Some(i) => i,
            None => {
                return Err(FabricError::UnknownRouter(a.0.clone()));
            },
        };
        let ib = match self.router_index(b) {
            Some(i) => i,
            None => {
                return Err(FabricError::UnknownRouter(b.0.clone()));
            },
        };
        if self.link_index(a, b).is_some() {
            return Err(FabricError::DuplicateLink(a.0.clone(), b.0.clone()));
        }
        if self.links.len() >= MAX_LINKS {
            return Err(FabricError::Full);
        }
        let id = LinkId::new(a.duplicate(), b.duplicate());
        let (na, nb) = if id.a.same(a) {
            (ia, ib)
        } else {
            (ib, ia)
        };
        let ghost old_links = self.links@;
        let ghost old_es = edge_list(self.graph);
        let ghost ida = id.a.name();
        let ghost idb = id.b.name();
        proof {
            assert(self.name_at(na as int) == ida);
            assert(self.name_at(nb as int) == idb);
        }
        graph_add_edge(&mut self.graph, na, nb, link_cost_exec(cfg.delay_ms));
        self.links.push(Link { id, cfg, counter: 0 });
        proof {
            let es = edge_list(self.graph);
            let n = self.links@.len() - 1;
            assert(self.links@.subrange(0, n) =~= old_links);
            assert(es[n] == (na as nat, nb as nat, link_cost(cfg.delay_ms)));
            assert(self.links@[n].id.a.name() == ida);
            assert(self.links@[n].id.b.name() == idb);
            assert forall|j: int| 0 <= j < n implies self.links@[j] == old_links[j] && es[j] == old_es[j] by {}
            assert forall|i: int| 0 <= i < self.routers@.len() implies self.name_at(i) == old(self).name_at(i) by {}
            assert forall|j: int, k: int|
                0 <= j < k < self.links@.len() implies !(#[trigger] self.links@[j]).id.joins(
                (#[trigger] self.links@[k]).id.a.name(),
                self.links@[k].id.b.name(),
            ) by {
                if k == n {
                    assert(!old(self).links@[j].id.joins(a.name(), b.name()));
                }
            }
            assert forall|j: int| 0 <= j < es.len() implies {
                &&& (#[trigger] es[j]).0 < self.routers@.len()
                &&& es[j].1 < self.routers@.len()
                &&& self.name_at(es[j].0 as int) == self.links@[j].id.a.name()
                &&& self.name_at(es[j].1 as int) == self.links@[j].id.b.name()
                &&& es[j].2 == link_cost(self.links@[j].cfg.delay_ms)
                &&& self.links@[j].id.canonical()
            } by {
                if j < n {
                    assert(es[j] == edge_list(old(self).graph)[j]);
                }
            }
        }
        Ok(())
    }

    /// Positions of the links that touch router `i`.
    pub fn incident_link_indices(&self, i: usize) -> (r: Vec<usize>)
        requires
            self.wf(),
            i < self.routers@.len(),
        ensures
            r@.no_duplicates(),
            forall|k: int| 0 <= k < r@.len() ==> r@[k] < self.links@.len() && self.link_touches(r@[k] as int, self.name_at(i as int)),
            forall|j: int| 0 <= j < self.links@.len() && self.link_touches(j, self.name_at(i as int)) ==> r@.contains(j as usize),
    {
        let r = graph_incident_edges(&self.graph, i);
        proof {
            let es = edge_list(self.graph);
            assert forall|k: int| 0 <= k < r@.len() implies r@[k] < self.links@.len() && self.link_touches(r@[k] as int, self.name_at(i as int)) by {
                let j = r@[k] as int;
                assert(touches(es[j], i as nat));
            }
            assert forall|j: int| 0 <= j < self.links@.len() && self.link_touches(j, self.name_at(i as int)) implies r@.contains(j as usize) by {
                let e = es[j];
                if self.links@[j].id.a.name() == self.name_at(i as int) {
                    assert(self.name_at(e.0 as int) == self.name_at(i as int));
                    assert(e.0 == i);
                } else {
                    assert(self.name_at(e.1 as int) == self.name_at(i as int));
                    assert(e.1 == i);
                }
                assert(touches(e, i as nat));
            }
        }
        r
    }

    /// The links that touch the router named like `id` (none when it is absent).
    pub fn incident_links(&self, id: &RouterId) -> (r: Vec<&Link>)
        requires
            self.wf(),
        ensures
            forall|k: int| 0 <= k < r@.len() ==> self.links@.contains(*(#[trigger] r@[k])) && ((*r@[k]).id.a.name() == id.name()
                || (*r@[k]).id.b.name() == id.name()),
            forall|j: int| 0 <= j < self.links@.len() && self.link_touches(j, id.name()) ==> exists|k: int|
                0 <= k < r@.len() && *r@[k] == #[trigger] self.links@[j],
    {
        let mut r: Vec<&Link> = Vec::new();
        let i = match self.router_index(id) {
            Some(i) => i,
            None => {
                proof {
                    let es = edge_list(self.graph);
                    assert forall|j: int| 0 <= j < self.links@.len() implies !self.link_touches(j, id.name()) by {
                        let e = es[j];
                        assert(self.name_at(e.0 as int) == self.links@[j].id.a.name());
                        assert(self.name_at(e.1 as int) == self.links@[j].id.b.name());
                    }
                }
                return r;
            },
        };
        let idx = self.incident_link_indices(i);
        let mut k: usize = 0;
        while k < idx.len()
            invariant
                k <= idx@.len(),
                r@.len() == k,
                forall|m: int| 0 <= m < idx@.len() ==> idx@[m] < self.links@.len(),
                forall|m: int| 0 <= m < k ==> *r@[m] == self.links@[idx@[m] as int],
            decreases idx@.len() - k,
        {
            r.push(&self.links[idx[k]]);
            k = k + 1;
        }
        proof {
            assert forall|m: int| 0 <= m < r@.len() implies self.links@.contains(*(#[trigger] r@[m])) && ((*r@[m]).id.a.name() == id.name()
                || (*r@[m]).id.b.name() == id.name()) by {
                let j = idx@[m] as int;
                assert(self.link_touches(j, id.name()));
                assert(self.links@[j] == *r@[m]);
            }
            assert forall|j: int| 0 <= j < self.links@.len() && self.link_touches(j, id.name()) implies exists|m: int|
                0 <= m < r@.len() && *r@[m] == #[trigger] self.links@[j] by {
                assert(idx@.contains(j as usize));
                let m = idx@.index_of(j as usize);
                assert(idx@[m] == j as usize);
                assert(*r@[m] == self.links@[j]);
            }
        }
        r
    }

    /// The link between the routers named like `a` and `b`, in either order.
    pub fn get_link(&self, a: &RouterId, b: &RouterId) -> (r: Option<&Link>)
        requires
            self.wf(),
        ensures
            match r {
                Some(l) => l.id.joins(a.name(), b.name()) && exists|j: int| 0 <= j < self.links@.len() && self.links@[j] == *l,
                None => !self.has_link(a.name(), b.name()),
            },
    {
        match self.link_index(a, b) {
            Some(j) => Some(&self.links[j]),
            None => None,
        }
    }

    /// The router named like `id`.
    pub fn get_router(&self, id: &RouterId) -> (r: Option<&Router>)
        requires
            self.wf(),
        ensures
            match r {
                Some(x) => x.id.name() == id.name() && exists|i: int| 0 <= i < self.routers@.len() && self.routers@[i] == *x,
                None => !self.has_router(id.name()),
            },
    {
        match self.router_index(id) {
            Some(i) => Some(&self.routers[i]),
            None => None,
        }
    }

    /// A copy of every router's counters, keyed by router.
    pub fn get_statistics(&self) -> (r: RouterMap<RouterStats>)
        requires
            self.wf(),
        ensures
            r.wf(),
            r.size() == self.routers@.len(),
            forall|i: int| 0 <= i < self.routers@.len() ==> r.has(#[trigger] self.name_at(i)) && r.value_of(self.name_at(i))
                == self.routers@[i].stats,
            forall|n: Seq<char>| r.has(n) ==> self.has_router(n),
    {
        let mut m: RouterMap<RouterStats> = RouterMap::new();
        let mut i: usize = 0;
        while i < self.routers.len()
            invariant
                self.wf(),
                i <= self.routers@.len(),
                m.wf(),
                m.size() == i,
                forall|k: int| 0 <= k < i ==> m.has(#[trigger] self.name_at(k)) && m.value_of(self.name_at(k))
                    == self.routers@[k].stats,
                forall|n: Seq<char>| m.has(n) ==> exists|k: int| 0 <= k < i && self.name_at(k) == n,
            decreases self.routers@.len() - i,
        {
            let ghost before = m;
            proof {
                assert(!m.has(self.name_at(i as int))) by {
                    if m.has(self.name_at(i as int)) {
                        let k = choose|k: int| 0 <= k < i && self.name_at(k) == self.name_at(i as int);
                        assert(self.name_at(k) != self.name_at(i as int));
                    }
                }
            }
            m.insert(self.routers[i].id.duplicate(), self.routers[i].stats);
            proof {
                assert forall|n: Seq<char>| m.has(n) implies exists|k: int| 0 <= k < i + 1 && self.name_at(k) == n by {
                    if n != self.name_at(i as int) {
                        assert(before.has(n));
                    }
                }
                assert forall|k: int| 0 <= k < i + 1 implies m.has(#[trigger] self.name_at(k)) && m.value_of(self.name_at(k))
                    == self.routers@[k].stats by {
                    if k < i {
                        assert(self.name_at(k) != self.name_at(i as int));
                    }
                }
            }
            i = i + 1;
        }
        m
    }
}

impl Fabric {
    /// Replaces the counters of router `i`.
    pub fn set_stats(&mut self, i: usize, s: RouterStats)
        requires
            old(self).wf(),
            i < old(self).routers@.len(),
        ensures
            final(self).wf(),
            final(self).graph == old(self).graph,
            final(self).links@ == old(self).links@,
            final(self).routers@ == old(self).routers@.update(i as int, Router { stats: s, ..old(self).routers@[i as int] }),
    {
        self.routers[i].stats = s;
        proof {
            assert(self.routers@ =~= old(self).routers@.update(i as int, Router { stats: s, ..old(self).routers@[i as int] }));
            assert forall|k: int| 0 <= k < self.routers@.len() implies self.name_at(k) == old(self).name_at(k) by {}
        }
    }

    /// The counters of router `i`.
    pub fn stats_at(&self, i: usize) -> (r: RouterStats)
        requires
            i < self.routers@.len(),
        ensures
            r == self.routers@[i as int].stats,
    {
        self.routers[i].stats
    }
}

impl Fabric {
    /// Sends a packet of `len` bytes across link `j` (see `simulate_link`).
    pub fn attempt_link(&mut self, j: usize, len: usize, rng: &mut rand::rngs::StdRng) -> (r: Result<u64, SimulationError>)
        requires
            old(self).wf(),
            j < old(self).links@.len(),
        ensures
            final(self).wf(),
            final(self).graph == old(self).graph,
            final(self).routers@ == old(self).routers@,
            final(self).links@ == old(self).links@.update(
                j as int,
                Link { counter: bump(old(self).links@[j as int].counter), ..old(self).links@[j as int] },
            ),
            exists|roll: u32, jitter: int|
                roll < LOSS_SCALE && -(old(self).links@[j as int].cfg.jitter_ms as int) <= jitter
                    <= old(self).links@[j as int].cfg.jitter_ms && r == verdict(old(self).links@[j as int].cfg, len as nat, roll, jitter),
    {
        let r = simulate_link(&mut self.links[j], len, rng);
        proof {
            let l = old(self).links@[j as int];
            assert(self.links@[j as int] == Link { counter: bump(l.counter), ..l });
            assert(self.links@ =~= old(self).links@.update(j as int, Link { counter: bump(l.counter), ..l }));
            let es = edge_list(self.graph);
            assert forall|i: int| 0 <= i < self.routers@.len() implies self.name_at(i) == old(self).name_at(i) by {}
            assert forall|k: int| 0 <= k < self.links@.len() implies self.links@[k].id == old(self).links@[k].id
                && self.links@[k].cfg == old(self).links@[k].cfg by {}
            assert forall|k: int, m: int|
                0 <= k < m < self.links@.len() implies !(#[trigger] self.links@[k]).id.joins(
                (#[trigger] self.links@[m]).id.a.name(),
                self.links@[m].id.b.name(),
            ) by {
                assert(!old(self).links@[k].id.joins(old(self).links@[m].id.a.name(), old(self).links@[m].id.b.name()));
            }
            assert forall|k: int| 0 <= k < es.len() implies {
                &&& (#[trigger] es[k]).0 < self.routers@.len()
                &&& es[k].1 < self.routers@.len()
                &&& self.name_at(es[k].0 as int) == self.links@[k].id.a.name()
                &&& self.name_at(es[k].1 as int) == self.links@[k].id.b.name()
                &&& es[k].2 == link_cost(self.links@[k].cfg.delay_ms)
                &&& self.links@[k].id.canonical()
            } by {
                assert(self.links@[k].id == old(self).links@[k].id);
            }
        }
        r
    }

    /// References to the links at positions `idx`.
    pub fn link_refs(&self, idx: &Vec<usize>) -> (r: Vec<&Link>)
        requires
            forall|k: int| 0 <= k < idx@.len() ==> idx@[k] < self.links@.len(),
        ensures
            r@.len() == idx@.len(),
            forall|k: int| 0 <= k < idx@.len() ==> *r@[k] == self.links@[idx@[k] as int],
    {
        let mut r: Vec<&Link> = Vec::new();
        let mut k: usize = 0;
        while k < idx.len()
            invariant
                k <= idx@.len(),
                r@.len() == k,
                forall|m: int| 0 <= m < idx@.len() ==> idx@[m] < self.links@.len(),
                forall|m: int| 0 <= m < k ==> *r@[m] == self.links@[idx@[m] as int],
            decreases idx@.len() - k,
        {
            r.push(&self.links[idx[k]]);
            k = k + 1;
        }
        r
    }
}

} // verus!

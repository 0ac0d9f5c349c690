//! A deterministic simulator of a routed network fabric: packet codec, ICMP
//! synthesis, topology, routing, link impairment and hop-by-hop forwarding.
use vstd::prelude::*;

pub mod bytes;
pub mod checksum;
pub mod packet;
pub mod icmp;
pub mod topology;
pub mod routing;
pub mod graph;
pub mod fabric;
pub mod simulation;
pub mod forwarding;
pub mod processor;
pub mod config;
pub mod bridge;



use crate::config::{
    SimulatorConfig, is_link_name, link_left, link_right, listed, same_pair, split_link_name,
};
use crate::fabric::{Fabric, FabricError, MAX_LINKS, MAX_ROUTERS};
use crate::topology::is_router_name;
use crate::routing::{
    MultiPathTable, RouterMap, RoutingTable, compute_multi_path_routing, compute_routing, multi_tables_ok, single_tables_ok,
};
use crate::topology::{Link, Router, RouterId};

verus! {

/// Link `j` of the configuration names two listed routers.
pub open spec fn usable_link(cfg: SimulatorConfig, j: int) -> bool {
    let n = cfg.topology.links@[j].0@;
    is_link_name(n) && listed(cfg.topology.routers@, link_left(n)) && listed(cfg.topology.routers@, link_right(n))
}

/// What keeps the fabric of `cfg` from being built: an invalid or repeated
/// router name, two usable links between the same routers, or too many
/// routers or links.
pub open spec fn fabric_blocked(cfg: SimulatorConfig) -> bool {
    let rs = cfg.topology.routers@;
    let ls = cfg.topology.links@;
    ||| exists|i: int| 0 <= i < rs.len() && !is_router_name(#[trigger] rs[i]@)
    ||| exists|i: int, k: int| 0 <= i < k < rs.len() && #[trigger] rs[i]@ == #[trigger] rs[k]@
    ||| exists|i: int, k: int| 0 <= i < k < ls.len() && usable_link(cfg, i) && usable_link(cfg, k) && #[trigger] same_pair(ls, i, k)
    ||| rs.len() > MAX_ROUTERS
    ||| ls.len() > MAX_LINKS
}

/// `f` is the fabric `cfg` describes: its routers are the configured ones,
/// and its links are the usable configured links, each once.
pub open spec fn fabric_of(cfg: SimulatorConfig, f: Fabric) -> bool {
    &&& f.wf()
    &&& forall|i: int| 0 <= i < cfg.topology.routers@.len() ==> f.has_router(#[trigger] cfg.topology.routers@[i]@)
    &&& forall|n: Seq<char>| f.has_router(n) ==> listed(cfg.topology.routers@, n)
    &&& forall|k: int| 0 <= k < cfg.topology.links@.len() && #[trigger] usable_link(cfg, k) ==> f.has_link(link_left(cfg.topology.links@[k].0@), link_right(cfg.topology.links@[k].0@))
    &&& forall|m: int| 0 <= m < f.links@.len() ==> from_usable_link(cfg, #[trigger] f.links@[m])
}

/// Link `l` joins the routers of some usable configured link.
pub open spec fn from_usable_link(cfg: SimulatorConfig, l: Link) -> bool {
    exists|k: int|
        0 <= k < cfg.topology.links@.len() && #[trigger] usable_link(cfg, k) && l.id.joins(
            link_left(cfg.topology.links@[k].0@),
            link_right(cfg.topology.links@[k].0@),
        )
}

/// Fabric link `m` is configured link `src[m]`, a usable one below `j`; and
/// each usable configured link `k` below `j` is fabric link `pos[k]`.
pub open spec fn links_traced(cfg: SimulatorConfig, f: Fabric, j: int, src: Seq<int>, pos: Seq<int>) -> bool {
    &&& src.len() == f.links@.len()
    &&& pos.len() == j
    &&& forall|m: int|
        0 <= m < f.links@.len() ==> 0 <= #[trigger] src[m] < j && usable_link(cfg, src[m]) && f.links@[m].id.joins(
            link_left(cfg.topology.links@[src[m]].0@),
            link_right(cfg.topology.links@[src[m]].0@),
        )
    &&& forall|k: int|
        0 <= k < j && usable_link(cfg, k) ==> 0 <= #[trigger] pos[k] < f.links@.len() && f.links@[pos[k]].id.joins(
            link_left(cfg.topology.links@[k].0@),
            link_right(cfg.topology.links@[k].0@),
        )
}

/// Adds configured link `j` when it is usable.
#[verifier::rlimit(100)]
fn add_configured_link(fabric: &mut Fabric, cfg: &SimulatorConfig, j: usize, src: Ghost<Seq<int>>) -> (r: Result<(), FabricError>)
    requires
        old(fabric).wf(),
        j < cfg.topology.links@.len(),
        forall|k: int| 0 <= k < cfg.topology.routers@.len() ==> old(fabric).has_router(#[trigger] cfg.topology.routers@[k]@),
        forall|m: int| 0 <= m < old(fabric).routers@.len() ==> listed(cfg.topology.routers@, #[trigger] old(fabric).name_at(m)),
        old(fabric).links@.len() <= j,
        src@.len() == old(fabric).links@.len(),
        forall|m: int|
            0 <= m < old(fabric).links@.len() ==> 0 <= #[trigger] src@[m] < j && usable_link(*cfg, src@[m])
                && old(fabric).links@[m].id.joins(
                link_left(cfg.topology.links@[src@[m]].0@),
                link_right(cfg.topology.links@[src@[m]].0@),
            ),
    ensures
        r is Ok ==> {
            &&& final(fabric).wf()
            &&& final(fabric).routers@ == old(fabric).routers@
            &&& if usable_link(*cfg, j as int) {
                &&& final(fabric).links@.len() == old(fabric).links@.len() + 1
                &&& final(fabric).links@.subrange(0, old(fabric).links@.len() as int) == old(fabric).links@
                &&& final(fabric).links@.last().id.joins(
                    link_left(cfg.topology.links@[j as int].0@),
                    link_right(cfg.topology.links@[j as int].0@),
                )
            } else {
                final(fabric).links@ == old(fabric).links@
            }
        },
        r is Err ==> fabric_blocked(*cfg),
{
    let ghost before = *fabric;
    let ghost ls = cfg.topology.links@;
    let name = &cfg.topology.links[j].0;
    let link_cfg = cfg.topology.links[j].1;
    let (a, b) = match split_link_name(name) {
        Some(p) => p,
        None => {
            return Ok(());
        },
    };
    let ra = RouterId(a);
    let rb = RouterId(b);
    if fabric.router_index(&ra).is_none() || fabric.router_index(&rb).is_none() {
        proof {
            if !fabric.has_router(ra.name()) {
                lemma_unlisted(*cfg, *fabric, ra.name());
            } else {
                lemma_unlisted(*cfg, *fabric, rb.name());
            }
        }
        return Ok(());
    }
    proof {
        assert(usable_link(*cfg, j as int)) by {
            let ia = choose|m: int| 0 <= m < fabric.routers@.len() && fabric.name_at(m) == ra.name();
            let ib = choose|m: int| 0 <= m < fabric.routers@.len() && fabric.name_at(m) == rb.name();
            assert(listed(cfg.topology.routers@, fabric.name_at(ia)));
            assert(listed(cfg.topology.routers@, fabric.name_at(ib)));
        }
    }
    match fabric.add_link(&ra, &rb, link_cfg) {
        Ok(()) => {},
        Err(e) => {
            proof {
                if before.has_link(ra.name(), rb.name()) {
                    let m = choose|m: int| 0 <= m < before.links@.len() && before.links@[m].id.joins(ra.name(), rb.name());
                    let k = src@[m];
                    assert(0 <= k < j && usable_link(*cfg, k));
                    assert(same_pair(ls, k, j as int));
                } else {
                    assert(ls.len() > MAX_LINKS);
                }
            }
            return Err(e);
        },
    }
    Ok(())
}

proof fn lemma_fabric_of(cfg: SimulatorConfig, f: Fabric, src: Seq<int>)
    requires
        f.wf(),
        forall|i: int| 0 <= i < cfg.topology.routers@.len() ==> f.has_router(#[trigger] cfg.topology.routers@[i]@),
        forall|n: Seq<char>| f.has_router(n) ==> listed(cfg.topology.routers@, n),
        forall|k: int| 0 <= k < cfg.topology.links@.len() && #[trigger] usable_link(cfg, k) ==> f.has_link(link_left(cfg.topology.links@[k].0@), link_right(cfg.topology.links@[k].0@)),
        src.len() == f.links@.len(),
        forall|m: int|
            0 <= m < f.links@.len() ==> 0 <= #[trigger] src[m] < cfg.topology.links@.len() && usable_link(cfg, src[m])
                && f.links@[m].id.joins(
                link_left(cfg.topology.links@[src[m]].0@),
                link_right(cfg.topology.links@[src[m]].0@),
            ),
    ensures
        fabric_of(cfg, f),
{
    assert forall|m: int| 0 <= m < f.links@.len() implies from_usable_link(cfg, #[trigger] f.links@[m]) by {
        let k = src[m];
        assert(usable_link(cfg, k));
    }
}

/// Builds the fabric a configuration describes: its routers, then its links;
/// a link whose name is not `A_B` over two listed routers is left out.
#[verifier::rlimit(100)]
pub fn build_fabric(cfg: &SimulatorConfig) -> (r: Result<Fabric, FabricError>)
    ensures
        r matches Ok(f) ==> fabric_of(*cfg, f),
        r is Err ==> fabric_blocked(*cfg),
{
    let mut fabric = Fabric::new();
    let mut i: usize = 0;
    while i < cfg.topology.routers.len()
        invariant
            fabric.wf(),
            i <= cfg.topology.routers@.len(),
            forall|k: int| 0 <= k < i ==> fabric.has_router(#[trigger] cfg.topology.routers@[k]@),
            forall|m: int| #![trigger fabric.name_at(m)] 0 <= m < fabric.routers@.len() ==> exists|k: int| 0 <= k < i && fabric.name_at(m) == #[trigger] cfg.topology.routers@[k]@,
            fabric.routers@.len() <= i,
            fabric.links@.len() == 0,
        decreases cfg.topology.routers@.len() - i,
    {
        let ghost before = fabric;
        let id = RouterId(cfg.topology.routers[i].clone());
        match fabric.add_router(Router::new(id)) {
            Ok(()) => {},
            Err(e) => {
                proof {
                    let rs = cfg.topology.routers@;
                    let n = rs[i as int]@;
                    if !is_router_name(n) {
                    } else if before.has_router(n) {
                        let m = choose|m: int| 0 <= m < before.routers@.len() && before.name_at(m) == n;
                        let k = choose|k: int| 0 <= k < i && #[trigger] before.name_at(m) == rs[k]@;
                        assert(rs[k]@ == rs[i as int]@);
                    } else {
                        assert(rs.len() > MAX_ROUTERS);
                    }
                }
                return Err(e);
            },
        }
        proof {
            let n = fabric.routers@.len() - 1;
            assert(fabric.name_at(n) == cfg.topology.routers@[i as int]@);
            assert forall|k: int| 0 <= k < i + 1 implies fabric.has_router(#[trigger] cfg.topology.routers@[k]@) by {
                if k < i {
                    let m = choose|m: int| 0 <= m < before.routers@.len() && before.name_at(m) == cfg.topology.routers@[k]@;
                    assert(fabric.name_at(m) == before.name_at(m));
                }
            }
            assert forall|m: int| #![trigger fabric.name_at(m)] 0 <= m < fabric.routers@.len() implies exists|k: int| 0 <= k < i + 1 && fabric.name_at(m) == #[trigger] cfg.topology.routers@[k]@ by {
                if m < n {
                    assert(fabric.name_at(m) == before.name_at(m));
                    let k = choose|k: int| 0 <= k < i && before.name_at(m) == #[trigger] cfg.topology.routers@[k]@;
                    assert(fabric.name_at(m) == cfg.topology.routers@[k]@);
                } else {
                    assert(fabric.name_at(m) == cfg.topology.routers@[i as int]@);
                }
            }
        }
        i = i + 1;
    }
    proof {
        assert forall|m: int| 0 <= m < fabric.routers@.len() implies listed(cfg.topology.routers@, #[trigger] fabric.name_at(m)) by {
            let k = choose|k: int| 0 <= k < i && fabric.name_at(m) == #[trigger] cfg.topology.routers@[k]@;
            assert(cfg.topology.routers@[k]@ == fabric.name_at(m));
        }
        assert(fabric.links@.len() == 0);
        assert(forall|k: int| 0 <= k < cfg.topology.routers@.len() ==> fabric.has_router(#[trigger] cfg.topology.routers@[k]@));
    }
    let mut j: usize = 0;
    let ghost mut src: Seq<int> = Seq::empty();
    let ghost mut pos: Seq<int> = Seq::empty();
    while j < cfg.topology.links.len()
        invariant
            fabric.wf(),
            j <= cfg.topology.links@.len(),
            forall|k: int| 0 <= k < cfg.topology.routers@.len() ==> fabric.has_router(#[trigger] cfg.topology.routers@[k]@),
            forall|m: int| 0 <= m < fabric.routers@.len() ==> listed(cfg.topology.routers@, #[trigger] fabric.name_at(m)),
            fabric.links@.len() <= j,
            links_traced(*cfg, fabric, j as int, src, pos),
        decreases cfg.topology.links@.len() - j,
    {
        let ghost before = fabric;
        match add_configured_link(&mut fabric, cfg, j, Ghost(src)) {
            Ok(()) => {},
            Err(e) => {
                return Err(e);
            },
        }
        proof {
            assert forall|m: int| 0 <= m < fabric.routers@.len() implies listed(cfg.topology.routers@, #[trigger] fabric.name_at(m)) by {
                assert(fabric.name_at(m) == before.name_at(m));
            }
            assert forall|k: int| 0 <= k < cfg.topology.routers@.len() implies fabric.has_router(#[trigger] cfg.topology.routers@[k]@) by {
                let m = choose|m: int| 0 <= m < before.routers@.len() && before.name_at(m) == cfg.topology.routers@[k]@;
                assert(fabric.name_at(m) == before.name_at(m));
            }
            let n = before.links@.len() as int;
            if usable_link(*cfg, j as int) {
                src = src.push(j as int);
                pos = pos.push(n);
                assert forall|m: int| 0 <= m < n implies fabric.links@[m] == before.links@[m] by {
                    assert(fabric.links@.subrange(0, n)[m] == fabric.links@[m]);
                }
            } else {
                pos = pos.push(-1);
            }
            assert(links_traced(*cfg, fabric, j + 1, src, pos));
        }
        j = j + 1;
    }
    proof {
        assert forall|n: Seq<char>| fabric.has_router(n) implies listed(cfg.topology.routers@, n) by {
            let m = choose|m: int| 0 <= m < fabric.routers@.len() && fabric.name_at(m) == n;
            assert(listed(cfg.topology.routers@, fabric.name_at(m)));
        }
        assert forall|k: int| 0 <= k < cfg.topology.links@.len() && #[trigger] usable_link(*cfg, k) implies fabric.has_link(
            link_left(cfg.topology.links@[k].0@),
            link_right(cfg.topology.links@[k].0@),
        ) by {
            assert(fabric.links@[pos[k]].id.joins(link_left(cfg.topology.links@[k].0@), link_right(cfg.topology.links@[k].0@)));
        }
        lemma_fabric_of(*cfg, fabric, src);
        assert(fabric_of(*cfg, fabric));
    }
    Ok(fabric)
}

/// A name the built fabric lacks is not among the configured routers.
proof fn lemma_unlisted(cfg: SimulatorConfig, f: Fabric, n: Seq<char>)
    requires
        forall|i: int| 0 <= i < cfg.topology.routers@.len() ==> f.has_router(#[trigger] cfg.topology.routers@[i]@),
        !f.has_router(n),
    ensures
        !listed(cfg.topology.routers@, n),
{
    if listed(cfg.topology.routers@, n) {
        let i = choose|i: int| 0 <= i < cfg.topology.routers@.len() && cfg.topology.routers@[i]@ == n;
        assert(f.has_router(cfg.topology.routers@[i]@));
    }
}

/// Single-path routing tables for the fabric a configuration describes.
pub fn compute_routing_tables(cfg: &SimulatorConfig) -> (r: Result<RouterMap<RoutingTable>, FabricError>)
    ensures
        r matches Ok(t) ==> exists|f: Fabric|
            fabric_of(*cfg, f) && single_tables_ok(f, cfg.tun_ingress.tun_a_ingress@, cfg.tun_ingress.tun_b_ingress@, t),
        r matches Ok(t) ==> t.wf() && forall|i: int|
            0 <= i < cfg.topology.routers@.len() ==> t.has(#[trigger] cfg.topology.routers@[i]@),
        r is Err ==> fabric_blocked(*cfg) || !listed(cfg.topology.routers@, cfg.tun_ingress.tun_a_ingress@) || !listed(
            cfg.topology.routers@,
            cfg.tun_ingress.tun_b_ingress@,
        ),
{
    let fabric = match build_fabric(cfg) {
        Ok(f) => f,
        Err(e) => {
            return Err(e);
        },
    };
    let ia = RouterId(cfg.tun_ingress.tun_a_ingress.clone());
    let ib = RouterId(cfg.tun_ingress.tun_b_ingress.clone());
    if fabric.router_index(&ia).is_none() {
        proof {
            lemma_unlisted(*cfg, fabric, ia.name());
        }
        return Err(FabricError::UnknownRouter(ia.0));
    }
    if fabric.router_index(&ib).is_none() {
        proof {
            lemma_unlisted(*cfg, fabric, ib.name());
        }
        return Err(FabricError::UnknownRouter(ib.0));
    }
    let t = compute_routing(&fabric, ia, ib);
    proof {
        assert(fabric_of(*cfg, fabric));
    }
    Ok(t)
}

/// Equal-cost multi-path tables for the fabric a configuration describes;
/// none when multi-path routing is off.
pub fn compute_multipath_tables(cfg: &SimulatorConfig) -> (r: Result<RouterMap<MultiPathTable>, FabricError>)
    ensures
        cfg.enable_multipath ==> (r matches Ok(t) ==> exists|f: Fabric|
            fabric_of(*cfg, f) && multi_tables_ok(f, cfg.tun_ingress.tun_a_ingress@, cfg.tun_ingress.tun_b_ingress@, t)),
        r matches Ok(t) ==> t.wf(),
        !cfg.enable_multipath ==> (r matches Ok(t) && t.size() == 0),
        cfg.enable_multipath ==> (r matches Ok(t) ==> forall|i: int|
            0 <= i < cfg.topology.routers@.len() ==> t.has(#[trigger] cfg.topology.routers@[i]@)),
        r is Err ==> fabric_blocked(*cfg) || !listed(cfg.topology.routers@, cfg.tun_ingress.tun_a_ingress@) || !listed(
            cfg.topology.routers@,
            cfg.tun_ingress.tun_b_ingress@,
        ),
{
    if !cfg.enable_multipath {
        return Ok(RouterMap::new());
    }
    let fabric = match build_fabric(cfg) {
        Ok(f) => f,
        Err(e) => {
            return Err(e);
        },
    };
    let ia = RouterId(cfg.tun_ingress.tun_a_ingress.clone());
    let ib = RouterId(cfg.tun_ingress.tun_b_ingress.clone());
    if fabric.router_index(&ia).is_none() {
        proof {
            lemma_unlisted(*cfg, fabric, ia.name());
        }
        return Err(FabricError::UnknownRouter(ia.0));
    }
    if fabric.router_index(&ib).is_none() {
        proof {
            lemma_unlisted(*cfg, fabric, ib.name());
        }
        return Err(FabricError::UnknownRouter(ib.0));
    }
    let t = compute_multi_path_routing(&fabric, ia, ib);
    proof {
        assert(fabric_of(*cfg, fabric));
    }
    Ok(t)
}

} // verus!

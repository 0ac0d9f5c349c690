//! The fabric's undirected graph, held in a petgraph `Graph`: node `i` stands
//! for the fabric's `i`-th router and edge `j` for its `j`-th link, weighted
//! by the link's routing cost.
use vstd::prelude::*;
use petgraph::graph::{EdgeIndex, Graph, NodeIndex};
use petgraph::Undirected;
use petgraph::visit::EdgeRef;

verus! {

#[verifier::external_type_specification]
#[verifier::external_body]
#[verifier::reject_recursive_types(N)]
#[verifier::reject_recursive_types(E)]
#[verifier::reject_recursive_types(Ty)]
#[verifier::reject_recursive_types(Ix)]
pub struct ExGraph<N, E, Ty, Ix>(Graph<N, E, Ty, Ix>);

#[verifier::external_type_specification]
#[verifier::external_body]
pub struct ExUndirected(Undirected);

/// The fabric's graph: unit node weights, `u32` costs on the edges.
pub type CostGraph = Graph<(), u32, Undirected, u32>;

/// How many nodes the graph holds.
pub uninterp spec fn node_count(g: CostGraph) -> nat;

/// The graph's edges in order of insertion: endpoints and cost.
pub uninterp spec fn edge_list(g: CostGraph) -> Seq<(nat, nat, u32)>;

/// Edge `e` touches node `n`.
pub open spec fn touches(e: (nat, nat, u32), n: nat) -> bool {
    e.0 == n || e.1 == n
}

/// The endpoint of `e` that is not `n` (`n` itself for a loop).
pub open spec fn across(e: (nat, nat, u32), n: nat) -> nat {
    if e.0 == n {
        e.1
    } else {
        e.0
    }
}

/// Relies on petgraph's `Graph::new_undirected`: a graph with no nodes and no edges.
#[verifier::external_body]
pub fn graph_new() -> (g: CostGraph)
    ensures
        node_count(g) == 0,
        edge_list(g) == Seq::<(nat, nat, u32)>::empty(),
{
    Graph::new_undirected()
}

/// Relies on petgraph's `Graph::add_node`: the new node's index is the old node
/// count; it panics only when a `u32` index would reach its maximum.
#[verifier::external_body]
pub fn graph_add_node(g: &mut CostGraph) -> (r: usize)
    requires
        node_count(*old(g)) < u32::MAX,
    ensures
        r == node_count(*old(g)),
        node_count(*final(g)) == node_count(*old(g)) + 1,
        edge_list(*final(g)) == edge_list(*old(g)),
{
    g.add_node(()).index()
}

/// Relies on petgraph's `Graph::add_edge`: the edge is appended to the edge
/// list; it panics when an endpoint is missing or a `u32` index would reach its
/// maximum.
#[verifier::external_body]
pub fn graph_add_edge(g: &mut CostGraph, a: usize, b: usize, cost: u32)
    requires
        a < node_count(*old(g)),
        b < node_count(*old(g)),
        edge_list(*old(g)).len() < u32::MAX,
    ensures
        node_count(*final(g)) == node_count(*old(g)),
        edge_list(*final(g)) == edge_list(*old(g)).push((a as nat, b as nat, cost)),
{
    g.add_edge(NodeIndex::new(a), NodeIndex::new(b), cost);
}

/// Relies on petgraph's `Graph::edges` on an undirected graph: every edge that
/// touches node `n` comes out once (a loop too), and no other edge.
#[verifier::external_body]
pub fn graph_incident_edges(g: &CostGraph, n: usize) -> (r: Vec<usize>)
    requires
        n < node_count(*g),
    ensures
        r@.no_duplicates(),
        forall|k: int| 0 <= k < r@.len() ==> r@[k] < edge_list(*g).len() && touches(edge_list(*g)[r@[k] as int], n as nat),
        forall|j: int| 0 <= j < edge_list(*g).len() && touches(edge_list(*g)[j], n as nat) ==> r@.contains(j as usize),
{
    g.edges(NodeIndex::new(n)).map(|e| e.id().index()).collect()
}

/// Relies on petgraph's `Graph::edge_endpoints`: the endpoints of edge `j`, in
/// the order it was added with.
#[verifier::external_body]
pub fn graph_edge_endpoints(g: &CostGraph, j: usize) -> (r: (usize, usize))
    requires
        j < edge_list(*g).len(),
    ensures
        r.0 == edge_list(*g)[j as int].0,
        r.1 == edge_list(*g)[j as int].1,
{
    let (a, b) = g.edge_endpoints(EdgeIndex::new(j)).unwrap();
    (a.index(), b.index())
}

/// `d` gives the shortest-path distances from `start` over the edge list `es`
/// of a graph with `n` nodes: `None` for a node that cannot be reached.
pub open spec fn shortest_distances(es: Seq<(nat, nat, u32)>, n: nat, start: nat, d: Seq<Option<u64>>) -> bool {
    &&& d.len() == n
    &&& d[start as int] == Some(0u64)
    // No edge offers a shortcut, in either direction.
    &&& forall|j: int| 0 <= j < es.len() ==> {
        &&& (#[trigger] es[j]).0 < n && es[j].1 < n
        &&& (d[es[j].0 as int] is Some ==> d[es[j].1 as int] is Some
            && d[es[j].1 as int]->0 <= d[es[j].0 as int]->0 + es[j].2)
        &&& (d[es[j].1 as int] is Some ==> d[es[j].0 as int] is Some
            && d[es[j].0 as int]->0 <= d[es[j].1 as int]->0 + es[j].2)
    }
    // A shortest path uses each edge at most once.
    &&& forall|v: int| 0 <= v < n && (#[trigger] d[v]) is Some ==> d[v]->0 <= es.len() * 0xFFFF_FFFF
    // Every reached node but the start is reached over some edge.
    &&& forall|v: int| 0 <= v < n && v != start && (#[trigger] d[v]) is Some ==> exists|j: int|
        0 <= j < es.len() && touches(#[trigger] es[j], v as nat) && d[across(es[j], v as nat) as int] is Some
            && d[v]->0 == d[across(es[j], v as nat) as int]->0 + es[j].2
}

/// Relies on petgraph's `algo::dijkstra`: from `start` it yields, for every
/// node it reaches, the length of a shortest path (edge cost = the edge's
/// weight), and nothing for the others. Sums are taken in `u64`; with fewer
/// than 2^31 edges of `u32` cost they cannot overflow.
#[verifier::external_body]
pub fn graph_distances(g: &CostGraph, start: usize) -> (r: Vec<Option<u64>>)
    requires
        start < node_count(*g),
        edge_list(*g).len() < 0x8000_0000,
    ensures
        shortest_distances(edge_list(*g), node_count(*g), start as nat, r@),
{
    let m = petgraph::algo::dijkstra(g, NodeIndex::new(start), None, |e| *e.weight() as u64);
    (0..g.node_count()).map(|i| m.get(&NodeIndex::new(i)).copied()).collect()
}

/// `w` is a walk over the edges `es` through the nodes `nodes`, from
/// `nodes[0]` to `nodes.last()`: edge `w[k]` joins `nodes[k]` and `nodes[k + 1]`.
pub open spec fn is_walk(es: Seq<(nat, nat, u32)>, w: Seq<int>, nodes: Seq<nat>) -> bool {
    &&& nodes.len() == w.len() + 1
    &&& forall|k: int|
        0 <= k < w.len() ==> 0 <= #[trigger] w[k] < es.len() && ((es[w[k]].0 == nodes[k] && es[w[k]].1 == nodes[k + 1]) || (
        es[w[k]].1 == nodes[k] && es[w[k]].0 == nodes[k + 1]))
}

/// The total weight of the edges of walk `w`.
pub open spec fn walk_cost(es: Seq<(nat, nat, u32)>, w: Seq<int>) -> int
    decreases w.len(),
{
    if w.len() == 0 {
        0
    } else {
        walk_cost(es, w.drop_last()) + es[w.last()].2
    }
}

/// No walk from `start` is shorter than the distance `d` gives its end, and
/// only reached nodes are ends of walks from `start`.
pub proof fn lemma_no_shorter_walk(es: Seq<(nat, nat, u32)>, n: nat, start: nat, d: Seq<Option<u64>>, w: Seq<int>, nodes: Seq<nat>)
    requires
        shortest_distances(es, n, start, d),
        is_walk(es, w, nodes),
        nodes[0] == start,
    ensures
        d[nodes.last() as int] is Some,
        d[nodes.last() as int]->0 <= walk_cost(es, w),
    decreases w.len(),
{
    if w.len() > 0 {
        let w0 = w.drop_last();
        let n0 = nodes.drop_last();
        assert(is_walk(es, w0, n0)) by {
            assert forall|k: int| 0 <= k < w0.len() implies 0 <= #[trigger] w0[k] < es.len() && ((es[w0[k]].0 == n0[k] && es[w0[k]].1
                == n0[k + 1]) || (es[w0[k]].1 == n0[k] && es[w0[k]].0 == n0[k + 1])) by {
                assert(w0[k] == w[k]);
            }
        }
        lemma_no_shorter_walk(es, n, start, d, w0, n0);
        let j = w.last();
        let k = w.len() - 1;
        assert(0 <= w[k] < es.len());
        assert(es[j] == es[w[k]]);
    }
}

/// Every reached node is the end of a walk from `start` whose weight is its
/// distance, when every edge weighs at least 1.
pub proof fn lemma_walk_of_distance(es: Seq<(nat, nat, u32)>, n: nat, start: nat, d: Seq<Option<u64>>, v: nat)
    requires
        shortest_distances(es, n, start, d),
        forall|j: int| 0 <= j < es.len() ==> (#[trigger] es[j]).2 >= 1,
        v < n,
        d[v as int] is Some,
    ensures
        exists|w: Seq<int>, nodes: Seq<nat>|
            is_walk(es, w, nodes) && nodes[0] == start && nodes.last() == v && walk_cost(es, w) == d[v as int]->0,
    decreases d[v as int]->0,
{
    if v == start {
        let w = Seq::<int>::empty();
        let nodes = seq![start];
        assert(is_walk(es, w, nodes));
        assert(walk_cost(es, w) == 0);
    } else {
        let j = choose|j: int|
            0 <= j < es.len() && touches(#[trigger] es[j], v) && d[across(es[j], v) as int] is Some && d[v as int]->0
                == d[across(es[j], v) as int]->0 + es[j].2;
        let u = across(es[j], v);
        assert(u < n);
        lemma_walk_of_distance(es, n, start, d, u);
        let (w, nodes) = choose|w: Seq<int>, nodes: Seq<nat>|
            is_walk(es, w, nodes) && nodes[0] == start && nodes.last() == u && walk_cost(es, w) == d[u as int]->0;
        let w2 = w.push(j);
        let nodes2 = nodes.push(v);
        assert(w2.drop_last() =~= w);
        assert(is_walk(es, w2, nodes2)) by {
            assert forall|k: int| 0 <= k < w2.len() implies 0 <= #[trigger] w2[k] < es.len() && ((es[w2[k]].0 == nodes2[k] && es[w2[k]].1
                == nodes2[k + 1]) || (es[w2[k]].1 == nodes2[k] && es[w2[k]].0 == nodes2[k + 1])) by {
                if k < w.len() {
                    assert(w2[k] == w[k]);
                    assert(nodes2[k] == nodes[k] && nodes2[k + 1] == nodes[k + 1]);
                } else {
                    assert(nodes2[k] == nodes.last());
                }
            }
        }
        assert(walk_cost(es, w2) == d[v as int]->0);
    }
}

} // verus!

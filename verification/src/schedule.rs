//! The order in which the nodes of a call graph are computed: every node
//! after the nodes it takes from, and of the nodes that are ready the one
//! with the lowest index first.

use vstd::prelude::*;
use crate::call_graph::{lemma_unvisited_shrinks, unvisited, CallGraph, GraphState};
use crate::graph_order::{ascends, is_acyclic, is_numbering};

verus! {

/// Whether `v` is one of the nodes in `placed`.
pub open spec fn is_placed(placed: Seq<usize>, v: int) -> bool {
    exists|k: int| 0 <= k < placed.len() && #[trigger] placed[k] == v
}

/// Whether node `v` can be computed once the nodes in `placed` were: it is
/// not among them, and every node that it takes from is.
pub open spec fn is_ready(graph: GraphState, placed: Seq<usize>, v: int) -> bool {
    &&& 0 <= v < graph.nodes.len()
    &&& !is_placed(placed, v)
    &&& forall|e: int|
        0 <= e < graph.edges.len() && (#[trigger] graph.edges[e]).to == v ==> is_placed(
            placed,
            graph.edges[e].from as int,
        )
}

/// Whether `v` is the node with the lowest index that is ready.
pub open spec fn is_first_ready(graph: GraphState, placed: Seq<usize>, v: int) -> bool {
    is_ready(graph, placed, v) && forall|u: int| 0 <= u < v ==> !is_ready(graph, placed, u)
}

/// Whether `order` holds every node of the graph, each at the place where
/// it is the first node that is ready.
pub open spec fn is_schedule(graph: GraphState, order: Seq<usize>) -> bool {
    &&& order.len() == graph.nodes.len()
    &&& forall|k: int| 0 <= k < order.len() ==> is_first_ready(graph, #[trigger] order.take(k), order[k] as int)
}

/// Whether every edge leads from a node of the graph to a node of the graph.
pub open spec fn edges_are_inside(graph: GraphState) -> bool {
    forall|e: int|
        0 <= e < graph.edges.len() ==> (#[trigger] graph.edges[e]).from < graph.nodes.len() && graph.edges[e].to
            < graph.nodes.len()
}

/// The node with the lowest number among the first `upto` nodes that are not
/// placed, or -1 if all of them are placed.
pub open spec fn lowest_unplaced(rank: Seq<int>, placed: Seq<usize>, upto: int) -> int
    decreases upto,
{
    if upto <= 0 {
        -1
    } else {
        let rest = lowest_unplaced(rank, placed, upto - 1);
        let v = upto - 1;
        if is_placed(placed, v) {
            rest
        } else if rest < 0 || rank[v] < rank[rest] {
            v
        } else {
            rest
        }
    }
}

/// The node with the lowest number among those not placed is not placed, and
/// no node that is not placed has a lower number.
pub proof fn lemma_lowest_unplaced(rank: Seq<int>, placed: Seq<usize>, upto: int)
    requires
        0 <= upto,
    ensures
        ({
            let m = lowest_unplaced(rank, placed, upto);
            &&& -1 <= m < upto
            &&& m == -1 ==> forall|v: int| 0 <= v < upto ==> is_placed(placed, v)
            &&& m >= 0 ==> !is_placed(placed, m) && forall|v: int|
                0 <= v < upto && !is_placed(placed, v) ==> rank[m] <= rank[v]
        }),
    decreases upto,
{
    if upto > 0 {
        lemma_lowest_unplaced(rank, placed, upto - 1);
    }
}

/// In a graph without a cycle, some node is ready as long as one is not
/// placed.
pub proof fn lemma_some_node_is_ready(graph: GraphState, placed: Seq<usize>, w: int)
    requires
        is_acyclic(graph),
        0 <= w < graph.nodes.len(),
        !is_placed(placed, w),
    ensures
        exists|m: int| is_ready(graph, placed, m),
{
    let rank = choose|rank: Seq<int>| is_numbering(graph, rank);
    let n = graph.nodes.len() as int;
    lemma_lowest_unplaced(rank, placed, n);
    let m = lowest_unplaced(rank, placed, n);
    assert(m >= 0);
    assert forall|e: int| 0 <= e < graph.edges.len() && (#[trigger] graph.edges[e]).to == m implies is_placed(
        placed,
        graph.edges[e].from as int,
    ) by {
        assert(ascends(graph.edges[e], rank));
    }
    assert(is_ready(graph, placed, m));
}

/// The place of node `v` in `order`.
pub open spec fn place_of(order: Seq<usize>, v: int) -> int {
    choose|k: int| 0 <= k < order.len() && #[trigger] order[k] == v
}

/// A schedule numbers the nodes so that every edge ascends: a graph that has
/// a schedule has no cycle.
proof fn lemma_schedule_is_numbering(graph: GraphState, order: Seq<usize>)
    requires
        is_schedule(graph, order),
        edges_are_inside(graph),
        forall|v: int| 0 <= v < graph.nodes.len() ==> is_placed(order, v),
    ensures
        is_acyclic(graph),
{
    let rank = Seq::new(graph.nodes.len(), |v: int| place_of(order, v));
    lemma_schedule_is_distinct(graph, order);
    assert forall|e: int| 0 <= e < graph.edges.len() implies ascends(#[trigger] graph.edges[e], rank) by {
        let a = graph.edges[e].from as int;
        let b = graph.edges[e].to as int;
        assert(is_placed(order, a));
        assert(is_placed(order, b));
        let j = place_of(order, b);
        let i = place_of(order, a);
        assert(is_first_ready(graph, order.take(j), order[j] as int));
        assert(is_placed(order.take(j), a));
        let i2 = choose|i2: int| 0 <= i2 < order.take(j).len() && #[trigger] order.take(j)[i2] == a;
        assert(order[i2] == a);
        assert(i2 == i);
    }
    assert(is_numbering(graph, rank));
}

/// A schedule holds no node twice.
pub proof fn lemma_schedule_is_distinct(graph: GraphState, order: Seq<usize>)
    requires
        is_schedule(graph, order),
    ensures
        order.no_duplicates(),
{
    assert forall|i: int, j: int| 0 <= i < j < order.len() implies order[i] != order[j] by {
        assert(is_first_ready(graph, order.take(j), order[j] as int));
        assert(order.take(j)[i] == order[i]);
        assert(!is_placed(order.take(j), order[j] as int));
    }
}

/// Whether every node that leads to `v` is placed.
pub fn inputs_are_placed(graph: &CallGraph, placed: &Vec<bool>, v: usize) -> (r: bool)
    requires
        forall|e: int| 0 <= e < graph.edges@.len() ==> (#[trigger] graph.edges@[e]).from < placed@.len(),
    ensures
        r == forall|e: int|
            0 <= e < graph.edges@.len() && (#[trigger] graph.edges@[e]).to == v ==> placed@[graph.edges@[e].from as int],
{
    let mut e: usize = 0;
    while e < graph.edges.len()
        invariant
            e <= graph.edges@.len(),
            forall|k: int| 0 <= k < graph.edges@.len() ==> (#[trigger] graph.edges@[k]).from < placed@.len(),
            forall|k: int| 0 <= k < e && (#[trigger] graph.edges@[k]).to == v ==> placed@[graph.edges@[k].from as int],
        decreases graph.edges@.len() - e,
    {
        if graph.edges[e].to == v && !placed[graph.edges[e].from] {
            return false;
        }
        e += 1;
    }
    true
}

/// Whether every edge leads from a node of the graph to a node of the graph.
pub fn has_edges_inside(graph: &CallGraph) -> (r: bool)
    ensures
        r == edges_are_inside(graph@),
{
    let n = graph.nodes.len();
    let mut e: usize = 0;
    while e < graph.edges.len()
        invariant
            e <= graph.edges@.len(),
            n == graph.nodes@.len(),
            forall|k: int| 0 <= k < e ==> (#[trigger] graph.edges@[k]).from < n && graph.edges@[k].to < n,
        decreases graph.edges@.len() - e,
    {
        if graph.edges[e].from >= n || graph.edges[e].to >= n {
            return false;
        }
        e += 1;
    }
    true
}

/// The order in which the nodes of a graph are computed, if it has no cycle:
/// every node after the nodes it takes from, the node with the lowest index
/// first where several are ready.
pub fn execution_order(graph: &CallGraph) -> (r: Option<Vec<usize>>)
    ensures
        r is Some <==> is_acyclic(graph@),
        match r {
            Some(order) => is_schedule(graph@, order@),
            None => true,
        },
{
    let n = graph.nodes.len();
    if !has_edges_inside(graph) {
        proof {
            if is_acyclic(graph@) {
                let rank = choose|rank: Seq<int>| is_numbering(graph@, rank);
                let e = choose|e: int|
                    0 <= e < graph@.edges.len() && !((#[trigger] graph@.edges[e]).from < graph@.nodes.len()
                        && graph@.edges[e].to < graph@.nodes.len());
                assert(ascends(graph@.edges[e], rank));
            }
        }
        return None;
    }
    let mut placed: Vec<bool> = Vec::new();
    while placed.len() < n
        invariant
            placed@.len() <= n,
            forall|v: int| 0 <= v < placed@.len() ==> !placed@[v],
        decreases n - placed@.len(),
    {
        placed.push(false);
    }
    let mut order: Vec<usize> = Vec::new();
    proof {
        vstd::set_lib::lemma_int_range(0, n as int);
        assert(unvisited(n as int, order@) =~= vstd::set_lib::set_int_range(0, n as int));
    }
    while order.len() < n
        invariant
            n == graph.nodes@.len(),
            edges_are_inside(graph@),
            placed@.len() == n,
            order@.len() <= n,
            forall|v: int| 0 <= v < n ==> placed@[v] == is_placed(order@, v),
            unvisited(n as int, order@).finite(),
            unvisited(n as int, order@).len() == n - order@.len(),
            forall|k: int| 0 <= k < order@.len() ==> is_first_ready(graph@, #[trigger] order@.take(k), order@[k] as int),
        decreases n - order@.len(),
    {
        let mut v: usize = 0;
        while v < n && (placed[v] || !inputs_are_placed(graph, &placed, v))
            invariant
                v <= n,
                n == graph.nodes@.len(),
                edges_are_inside(graph@),
                placed@.len() == n,
                forall|u: int| 0 <= u < n ==> placed@[u] == is_placed(order@, u),
                forall|u: int| 0 <= u < v ==> !is_ready(graph@, order@, u),
            decreases n - v,
        {
            proof {
                if is_ready(graph@, order@, v as int) {
                    assert forall|e: int|
                        0 <= e < graph.edges@.len() && (#[trigger] graph.edges@[e]).to == v implies placed@[graph.edges@[e].from as int] by {
                        assert(graph@.edges[e] == graph.edges@[e]);
                        assert(is_placed(order@, graph@.edges[e].from as int));
                    }
                }
            }
            v += 1;
        }
        if v == n {
            proof {
                if is_acyclic(graph@) {
                    let left = unvisited(n as int, order@);
                    let w = left.choose();
                    assert(left.contains(w));
                    if is_placed(order@, w) {
                        let k = choose|k: int| 0 <= k < order@.len() && #[trigger] order@[k] == w;
                        assert(order@[k] != w);
                    }
                    lemma_some_node_is_ready(graph@, order@, w);
                }
            }
            return None;
        }
        proof {
            assert(!is_placed(order@, v as int));
            assert forall|e: int| 0 <= e < graph@.edges.len() && (#[trigger] graph@.edges[e]).to == v implies is_placed(
                order@,
                graph@.edges[e].from as int,
            ) by {
                assert(graph@.edges[e] == graph.edges@[e]);
                assert(placed@[graph.edges@[e].from as int]);
            }
            assert(is_first_ready(graph@, order@, v as int));
            assert(!order@.contains(v)) by {
                if order@.contains(v) {
                    let k = choose|k: int| 0 <= k < order@.len() && order@[k] == v;
                    assert(order@[k] == v as int);
                }
            }
            lemma_unvisited_shrinks(n as int, order@, v);
            let after = order@.push(v);
            assert(after.take(order@.len() as int) =~= order@);
            assert forall|k: int| 0 <= k < after.len() implies is_first_ready(
                graph@,
                #[trigger] after.take(k),
                after[k] as int,
            ) by {
                if k < order@.len() {
                    assert(after.take(k) =~= order@.take(k));
                }
            }
            assert forall|u: int| 0 <= u < n implies (placed@.update(v as int, true)[u] == is_placed(after, u)) by {
                if u == v {
                    assert(after[order@.len() as int] == v);
                } else if is_placed(order@, u) {
                    let k = choose|k: int| 0 <= k < order@.len() && #[trigger] order@[k] == u;
                    assert(after[k] == u);
                } else if is_placed(after, u) {
                    let k = choose|k: int| 0 <= k < after.len() && #[trigger] after[k] == u;
                    assert(order@[k] == u);
                }
            }
        }
        order.push(v);
        placed.set(v, true);
    }
    proof {
        let left = unvisited(n as int, order@);
        assert(left.len() == 0);
        assert forall|v: int| 0 <= v < n implies is_placed(order@, v) by {
            if !is_placed(order@, v) {
                assert(left.contains(v));
            }
        }
        lemma_schedule_is_numbering(graph@, order@);
    }
    Some(order)
}

} // verus!

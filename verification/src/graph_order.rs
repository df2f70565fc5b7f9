//! Every call graph that the walk builds is acyclic: its nodes can be
//! numbered so that every edge leads from a lower number to a higher one.

use vstd::prelude::*;
use crate::call_graph::{
    lemma_unvisited_shrinks, unvisited, CallGraphEdge, CallGraphNode, EdgeKind, GraphState, InputParameterSource,
};
use crate::aliasing::{consumer_edges, lemma_consumer_edges, owner_of};
use crate::diagnostic::Failure;
use crate::graph_facts::{
    lemma_attach_sink_extends, lemma_expand_extends, lemma_notify_extends, lemma_on_error_extends,
    lemma_wire_input_extends, lemma_wire_inputs_extends,
};
use crate::model::{Lifecycle, UserComponentId};
use crate::resolver::{ComponentDb, GraphKind, Producer};

verus! {

/// Whether the edge leads from a node with a lower number to a node with a
/// higher one.
pub open spec fn ascends(edge: CallGraphEdge, rank: Seq<int>) -> bool {
    edge.from < rank.len() && edge.to < rank.len() && rank[edge.from as int] < rank[edge.to as int]
}

/// Whether `rank` numbers the nodes so that every edge ascends.
pub open spec fn is_numbering(st: GraphState, rank: Seq<int>) -> bool {
    rank.len() == st.nodes.len() && forall|e: int| 0 <= e < st.edges.len() ==> ascends(#[trigger] st.edges[e], rank)
}

/// Whether the graph has no cycle: its nodes can be numbered so that every
/// edge ascends.
pub open spec fn is_acyclic(st: GraphState) -> bool {
    exists|rank: Seq<int>| is_numbering(st, rank)
}

/// A numbering of a graph numbers every graph with the same nodes and edges.
pub proof fn lemma_same_shape_same_numbering(st: GraphState, other: GraphState, rank: Seq<int>)
    requires
        is_numbering(st, rank),
        other.nodes.len() == st.nodes.len(),
        other.edges == st.edges,
    ensures
        is_numbering(other, rank),
        is_acyclic(other),
{
    assert forall|e: int| 0 <= e < other.edges.len() implies ascends(#[trigger] other.edges[e], rank) by {
        assert(ascends(st.edges[e], rank));
    }
    assert(is_numbering(other, rank));
}

/// What was found acyclic has a numbering, and with it every graph with the
/// same nodes and edges.
pub proof fn lemma_same_shape_is_acyclic(st: GraphState, other: GraphState)
    requires
        is_acyclic(st),
        other.nodes.len() == st.nodes.len(),
        other.edges == st.edges,
    ensures
        is_acyclic(other),
{
    let rank = choose|rank: Seq<int>| is_numbering(st, rank);
    lemma_same_shape_same_numbering(st, other, rank);
}

/// What holds of an edge while the walk is under way. A node waits for its
/// number while its inputs are being wired. An edge that leaves a waiting node
/// is the one from a fallible node to its branch node; any other edge between
/// numbered nodes ascends.
pub open spec fn edge_in_order(st: GraphState, rank: Seq<int>, waiting: Set<int>, edge: CallGraphEdge) -> bool {
    let from = edge.from as int;
    let to = edge.to as int;
    &&& from < st.nodes.len()
    &&& to < st.nodes.len()
    &&& (waiting.contains(from) ==> edge.kind is Outcome && to == from + 1 && st.nodes[from] is Compute
        && st.nodes[to] is MatchBranching && waiting.contains(to))
    &&& (!waiting.contains(from) && !waiting.contains(to) ==> rank[from] < rank[to])
}

/// What holds of a graph while the walk is under way: every node that does
/// not wait has a number below `next`; a node that waits computes a component
/// on the path, or is a branch node or the node that gathers the application
/// state; the branch node of a fallible node follows it and waits with it;
/// and every edge is in order.
pub open spec fn in_order(
    db: ComponentDb,
    st: GraphState,
    rank: Seq<int>,
    waiting: Set<int>,
    next: int,
    path: Seq<UserComponentId>,
) -> bool {
    &&& st.nodes.len() <= usize::MAX
    &&& rank.len() == st.nodes.len()
    &&& forall|i: int| waiting.contains(i) ==> 0 <= i < st.nodes.len()
    &&& forall|i: int| 0 <= i < st.nodes.len() && !waiting.contains(i) ==> #[trigger] rank[i] < next
    &&& forall|i: int|
        #![trigger st.nodes[i]]
        0 <= i < st.nodes.len() && waiting.contains(i) ==> match st.nodes[i] {
            CallGraphNode::Compute { component_id } => path.contains(component_id),
            CallGraphNode::MatchBranching => true,
            CallGraphNode::StateAggregate => true,
            _ => false,
        }
    &&& forall|k: int|
        #![trigger st.nodes[k]]
        0 <= k < st.nodes.len() ==> (st.nodes[k] matches CallGraphNode::Compute { component_id } && db.fallible(
            component_id,
        ) ==> k + 1 < st.nodes.len() && (waiting.contains(k + 1) <==> waiting.contains(k)))
    &&& forall|e: int| 0 <= e < st.edges.len() ==> edge_in_order(st, rank, waiting, #[trigger] st.edges[e])
}

/// A graph in order in which no node waits is acyclic.
pub proof fn lemma_in_order_is_acyclic(db: ComponentDb, st: GraphState, rank: Seq<int>, next: int, path: Seq<UserComponentId>)
    requires
        in_order(db, st, rank, Set::empty(), next, path),
    ensures
        is_numbering(st, rank),
        is_acyclic(st),
{
    assert forall|e: int| 0 <= e < st.edges.len() implies ascends(#[trigger] st.edges[e], rank) by {
        assert(edge_in_order(st, rank, Set::empty(), st.edges[e]));
    }
    assert(is_numbering(st, rank));
}

/// Adding a failure leaves a graph in order.
pub proof fn lemma_error_keeps_order(
    db: ComponentDb,
    st: GraphState,
    rank: Seq<int>,
    waiting: Set<int>,
    next: int,
    path: Seq<UserComponentId>,
    error: crate::diagnostic::ConfigErrorView,
)
    requires
        in_order(db, st, rank, waiting, next, path),
    ensures
        in_order(db, st.with_error(error), rank, waiting, next, path),
{
    let after = st.with_error(error);
    assert forall|e: int| 0 <= e < after.edges.len() implies edge_in_order(after, rank, waiting, #[trigger] after.edges[e]) by {
        assert(edge_in_order(st, rank, waiting, st.edges[e]));
    }
}

/// Adding an edge from a numbered node to a node that waits, or to a node
/// with a higher number, leaves a graph in order.
pub proof fn lemma_edge_keeps_order(
    db: ComponentDb,
    st: GraphState,
    rank: Seq<int>,
    waiting: Set<int>,
    next: int,
    path: Seq<UserComponentId>,
    from: int,
    to: int,
    kind: EdgeKind,
)
    requires
        in_order(db, st, rank, waiting, next, path),
        0 <= from < st.nodes.len(),
        0 <= to < st.nodes.len(),
        !waiting.contains(from),
        !waiting.contains(to) ==> rank[from] < rank[to],
    ensures
        in_order(db, st.with_edge(from, to, kind), rank, waiting, next, path),
{
    let after = st.with_edge(from, to, kind);
    assert forall|e: int| 0 <= e < after.edges.len() implies edge_in_order(after, rank, waiting, #[trigger] after.edges[e]) by {
        if e < st.edges.len() {
            assert(edge_in_order(st, rank, waiting, st.edges[e]));
        }
    }
}

/// Placing an input parameter leaves a graph in order, and the node it
/// stands at has a number.
pub proof fn lemma_shared_node_keeps_order(
    db: ComponentDb,
    st: GraphState,
    rank: Seq<int>,
    waiting: Set<int>,
    next: int,
    path: Seq<UserComponentId>,
    node: CallGraphNode,
) -> (r: (Seq<int>, int))
    requires
        in_order(db, st, rank, waiting, next, path),
        node is InputParameter,
        st.with_shared_node(node).nodes.len() <= usize::MAX,
    ensures
        in_order(db, st.with_shared_node(node), r.0, waiting, r.1, path),
        next <= r.1,
        r.0.len() >= rank.len(),
        forall|i: int| 0 <= i < rank.len() ==> r.0[i] == rank[i],
        forall|i: int| rank.len() <= i < r.0.len() ==> next <= r.0[i],
        0 <= st.shared_node_index(node) < st.with_shared_node(node).nodes.len(),
        !waiting.contains(st.shared_node_index(node)),
{
    st.nodes.index_of_first_ensures(node);
    if st.nodes.contains(node) {
        let k = st.shared_node_index(node);
        assert(st.nodes[k] == node);
        (rank, next)
    } else {
        let after = st.with_node(node);
        let ranked = rank.push(next);
        assert forall|e: int| 0 <= e < after.edges.len() implies edge_in_order(
            after,
            ranked,
            waiting,
            #[trigger] after.edges[e],
        ) by {
            assert(edge_in_order(st, rank, waiting, st.edges[e]));
        }
        assert forall|i: int|
            #![trigger after.nodes[i]]
            0 <= i < after.nodes.len() && waiting.contains(i) implies match after.nodes[i] {
            CallGraphNode::Compute { component_id } => path.contains(component_id),
            CallGraphNode::MatchBranching => true,
            CallGraphNode::StateAggregate => true,
            _ => false,
        } by {
            assert(after.nodes[i] == st.nodes[i]);
        }
        assert forall|k: int|
            #![trigger after.nodes[k]]
            0 <= k < after.nodes.len() implies (after.nodes[k] matches CallGraphNode::Compute { component_id }
            && db.fallible(component_id) ==> k + 1 < after.nodes.len() && (waiting.contains(k + 1) <==> waiting.contains(
            k,
        ))) by {
            if k < st.nodes.len() {
                assert(after.nodes[k] == st.nodes[k]);
            }
        }
        assert forall|i: int| 0 <= i < after.nodes.len() && !waiting.contains(i) implies #[trigger] ranked[i] < next
            + 1 by {
            if i < st.nodes.len() {
                assert(ranked[i] == rank[i]);
            }
        }
        (ranked, next + 1)
    }
}

/// What a step of the walk does to a graph in order: the graph is in order
/// afterwards, the numbers given before are kept, and the nodes that the step
/// added have numbers that were not given before.
pub open spec fn keeps_order(
    db: ComponentDb,
    before: GraphState,
    rank: Seq<int>,
    next: int,
    after: GraphState,
    ranked: Seq<int>,
    upto: int,
    waiting: Set<int>,
    path: Seq<UserComponentId>,
) -> bool {
    &&& in_order(db, after, ranked, waiting, upto, path)
    &&& next <= upto
    &&& rank.len() <= ranked.len()
    &&& forall|i: int| 0 <= i < rank.len() ==> ranked[i] == rank[i]
    &&& forall|i: int| rank.len() <= i < ranked.len() ==> next <= ranked[i]
}

/// Expanding a component leaves a graph in order.
pub proof fn lemma_expand_in_order(
    db: ComponentDb,
    kind: GraphKind,
    observers: Seq<UserComponentId>,
    c: UserComponentId,
    path: Seq<UserComponentId>,
    st: GraphState,
    rank: Seq<int>,
    waiting: Set<int>,
    next: int,
) -> (r: (Seq<int>, int))
    requires
        in_order(db, st, rank, waiting, next, path),
        db.expand(kind, observers, c, path, st).nodes.len() <= usize::MAX,
    ensures
        keeps_order(db, st, rank, next, db.expand(kind, observers, c, path, st), r.0, r.1, waiting, path),
    decreases unvisited(db.components@.len() as int, path).len(), 0int, 0int,
{
    if db.has(c) && !path.contains(c) {
        lemma_unvisited_shrinks(db.components@.len() as int, path, c);
        let at = st.nodes.len() as int;
        let fallible = db.fallible(c);
        let computed = st.with_node(CallGraphNode::Compute { component_id: c });
        let branched = if fallible {
            computed.with_node(CallGraphNode::MatchBranching).with_edge(at, at + 1, EdgeKind::Outcome)
        } else {
            computed
        };
        let inner_path = path.push(c);
        let wired = db.wire_inputs(kind, observers, c, at, db.first_injected(c), inner_path, branched);
        let done = db.expand(kind, observers, c, path, st);
        // What is built later holds what was built before: every stage fits.
        lemma_wire_inputs_extends(db, kind, observers, c, at, db.first_injected(c), inner_path, branched);
        if fallible && kind == GraphKind::RequestHandling {
            lemma_on_error_extends(db, kind, observers, c, at + 1, inner_path, wired);
        }
        assert(wired.nodes.len() <= done.nodes.len());
        // While its inputs are wired, the node waits, and so does its branch node.
        let started = if fallible {
            rank.push(0).push(0)
        } else {
            rank.push(0)
        };
        let inner_waiting = if fallible {
            waiting.insert(at).insert(at + 1)
        } else {
            waiting.insert(at)
        };
        assert(inner_path[path.len() as int] == c);
        assert(in_order(db, branched, started, inner_waiting, next, inner_path)) by {
            assert forall|i: int|
                #![trigger branched.nodes[i]]
                0 <= i < branched.nodes.len() && inner_waiting.contains(i) implies match branched.nodes[i] {
                CallGraphNode::Compute { component_id } => inner_path.contains(component_id),
                CallGraphNode::MatchBranching => true,
                CallGraphNode::StateAggregate => true,
                _ => false,
            } by {
                if i < at {
                    assert(branched.nodes[i] == st.nodes[i]);
                    match st.nodes[i] {
                        CallGraphNode::Compute { component_id } => {
                            let j = choose|j: int| 0 <= j < path.len() && path[j] == component_id;
                            assert(inner_path[j] == component_id);
                        },
                        _ => {},
                    }
                }
            }
            assert forall|k: int|
                #![trigger branched.nodes[k]]
                0 <= k < branched.nodes.len() implies (branched.nodes[k] matches CallGraphNode::Compute {
                component_id,
            } && db.fallible(component_id) ==> k + 1 < branched.nodes.len() && (inner_waiting.contains(k + 1)
                <==> inner_waiting.contains(k))) by {
                if k < at {
                    assert(branched.nodes[k] == st.nodes[k]);
                }
            }
            assert forall|e: int| 0 <= e < branched.edges.len() implies edge_in_order(
                branched,
                started,
                inner_waiting,
                #[trigger] branched.edges[e],
            ) by {
                if e < st.edges.len() {
                    assert(edge_in_order(st, rank, waiting, st.edges[e]));
                    assert(branched.edges[e] == st.edges[e]);
                }
            }
            assert forall|i: int| 0 <= i < branched.nodes.len() && !inner_waiting.contains(i) implies #[trigger] started[i]
                < next by {
                assert(started[i] == rank[i]);
            }
        }
        let (wired_rank, wired_next) = lemma_wire_inputs_in_order(
            db,
            kind,
            observers,
            c,
            at,
            db.first_injected(c),
            inner_path,
            branched,
            started,
            inner_waiting,
            next,
        );
        // Its inputs are wired: the node is numbered, and its branch node after it.
        let numbered = if fallible {
            wired_rank.update(at, wired_next).update(at + 1, wired_next + 1)
        } else {
            wired_rank.update(at, wired_next)
        };
        let numbered_next = wired_next + 2;
        assert(wired.nodes[at] == CallGraphNode::Compute { component_id: c });
        assert(in_order(db, wired, numbered, waiting, numbered_next, inner_path)) by {
            assert forall|i: int| 0 <= i < wired.nodes.len() && !waiting.contains(i) implies #[trigger] numbered[i]
                < numbered_next by {
                if i != at && !(fallible && i == at + 1) {
                    assert(!inner_waiting.contains(i));
                    assert(numbered[i] == wired_rank[i]);
                }
            }
            assert forall|i: int|
                #![trigger wired.nodes[i]]
                0 <= i < wired.nodes.len() && waiting.contains(i) implies match wired.nodes[i] {
                CallGraphNode::Compute { component_id } => inner_path.contains(component_id),
                CallGraphNode::MatchBranching => true,
                CallGraphNode::StateAggregate => true,
                _ => false,
            } by {
                assert(inner_waiting.contains(i));
            }
            assert forall|k: int|
                #![trigger wired.nodes[k]]
                0 <= k < wired.nodes.len() implies (wired.nodes[k] matches CallGraphNode::Compute { component_id }
                && db.fallible(component_id) ==> k + 1 < wired.nodes.len() && (waiting.contains(k + 1)
                <==> waiting.contains(k))) by {
                match wired.nodes[k] {
                    CallGraphNode::Compute { component_id } => {
                        if db.fallible(component_id) {
                            assert(inner_waiting.contains(k + 1) <==> inner_waiting.contains(k));
                        }
                    },
                    _ => {},
                }
            }
            assert forall|e: int| 0 <= e < wired.edges.len() implies edge_in_order(
                wired,
                numbered,
                waiting,
                #[trigger] wired.edges[e],
            ) by {
                let edge = wired.edges[e];
                assert(edge_in_order(wired, wired_rank, inner_waiting, edge));
                let from = edge.from as int;
                let to = edge.to as int;
                if fallible {
                    assert(wired.nodes[at + 1] == branched.nodes[at + 1]);
                    assert(wired.nodes[at + 1] is MatchBranching);
                }
                if waiting.contains(from) {
                    assert(inner_waiting.contains(from));
                    assert(from < at);
                    assert(to != at);
                    assert(waiting.contains(to));
                }
                if !waiting.contains(from) && !waiting.contains(to) {
                    if from == at {
                        assert(inner_waiting.contains(from));
                        assert(to == at + 1);
                        assert(inner_waiting.contains(to));
                        assert(fallible);
                    } else if fallible && from == at + 1 {
                        assert(inner_waiting.contains(from));
                    } else {
                        assert(!inner_waiting.contains(from));
                        assert(numbered[from] == wired_rank[from]);
                        assert(wired_rank[from] < wired_next);
                        if to == at {
                        } else if fallible && to == at + 1 {
                        } else {
                            assert(!inner_waiting.contains(to));
                            assert(numbered[to] == wired_rank[to]);
                        }
                    }
                }
            }
        }
        let (done_rank, done_next) = if fallible && kind == GraphKind::RequestHandling {
            lemma_on_error_in_order(
                db,
                kind,
                observers,
                c,
                at + 1,
                inner_path,
                wired,
                numbered,
                waiting,
                numbered_next,
            )
        } else {
            (numbered, numbered_next)
        };
        // The component leaves the path: no node that waits computes it.
        assert(in_order(db, done, done_rank, waiting, done_next, path)) by {
            assert forall|i: int|
                #![trigger done.nodes[i]]
                0 <= i < done.nodes.len() && waiting.contains(i) implies match done.nodes[i] {
                CallGraphNode::Compute { component_id } => path.contains(component_id),
                CallGraphNode::MatchBranching => true,
                CallGraphNode::StateAggregate => true,
                _ => false,
            } by {
                assert(i < at);
                assert(done.nodes[i] == st.nodes[i]) by {
                    lemma_expand_extends(db, kind, observers, c, path, st);
                }
            }
            assert forall|e: int| 0 <= e < done.edges.len() implies edge_in_order(
                done,
                done_rank,
                waiting,
                #[trigger] done.edges[e],
            ) by {}
        }
        assert forall|i: int| rank.len() <= i < done_rank.len() implies next <= done_rank[i] by {
            if i < numbered.len() {
                assert(done_rank[i] == numbered[i]);
                if i != at && !(fallible && i == at + 1) {
                    assert(numbered[i] == wired_rank[i]);
                    if i < started.len() {
                    }
                }
            }
        }
        assert forall|i: int| 0 <= i < rank.len() implies done_rank[i] == rank[i] by {
            assert(done_rank[i] == numbered[i]);
            assert(numbered[i] == wired_rank[i]);
            assert(wired_rank[i] == started[i]);
        }
        (done_rank, done_next)
    } else {
        (rank, next)
    }
}

/// Wiring the inputs of a component leaves a graph in order.
pub proof fn lemma_wire_inputs_in_order(
    db: ComponentDb,
    kind: GraphKind,
    observers: Seq<UserComponentId>,
    c: UserComponentId,
    target: int,
    i: int,
    path: Seq<UserComponentId>,
    st: GraphState,
    rank: Seq<int>,
    waiting: Set<int>,
    next: int,
) -> (r: (Seq<int>, int))
    requires
        in_order(db, st, rank, waiting, next, path),
        waiting.contains(target),
        db.wire_inputs(kind, observers, c, target, i, path, st).nodes.len() <= usize::MAX,
    ensures
        keeps_order(db, st, rank, next, db.wire_inputs(kind, observers, c, target, i, path, st), r.0, r.1, waiting, path),
    decreases unvisited(db.components@.len() as int, path).len(), 2int, db.components@[c as int].inputs@.len() - i,
{
    if db.has(c) && 0 <= i < db.components@[c as int].inputs@.len() {
        let step = db.wire_input(kind, observers, c, target, i, path, st);
        lemma_wire_inputs_extends(db, kind, observers, c, target, i + 1, path, step);
        let (step_rank, step_next) = lemma_wire_input_in_order(db, kind, observers, c, target, i, path, st, rank, waiting, next);
        let (rest_rank, rest_next) = lemma_wire_inputs_in_order(
            db,
            kind,
            observers,
            c,
            target,
            i + 1,
            path,
            step,
            step_rank,
            waiting,
            step_next,
        );
        (rest_rank, rest_next)
    } else {
        (rank, next)
    }
}

/// Wiring one input leaves a graph in order.
pub proof fn lemma_wire_input_in_order(
    db: ComponentDb,
    kind: GraphKind,
    observers: Seq<UserComponentId>,
    c: UserComponentId,
    target: int,
    i: int,
    path: Seq<UserComponentId>,
    st: GraphState,
    rank: Seq<int>,
    waiting: Set<int>,
    next: int,
) -> (r: (Seq<int>, int))
    requires
        in_order(db, st, rank, waiting, next, path),
        waiting.contains(target),
        db.wire_input(kind, observers, c, target, i, path, st).nodes.len() <= usize::MAX,
    ensures
        keeps_order(db, st, rank, next, db.wire_input(kind, observers, c, target, i, path, st), r.0, r.1, waiting, path),
    decreases unvisited(db.components@.len() as int, path).len(), 1int, 0int,
{
    let input = db.components@[c as int].inputs@[i];
    let consume = EdgeKind::Consume(input.access);
    match db.resolution(kind, input.ty, db.components@[c as int].scope_id, c) {
        Err(e) => {
            lemma_error_keeps_order(db, st, rank, waiting, next, path, e);
            (rank, next)
        },
        Ok(Producer::Framework) => {
            let node = CallGraphNode::InputParameter { ty: input.ty, source: InputParameterSource::Framework };
            let (placed_rank, placed_next) = lemma_shared_node_keeps_order(db, st, rank, waiting, next, path, node);
            lemma_edge_keeps_order(
                db,
                st.with_shared_node(node),
                placed_rank,
                waiting,
                placed_next,
                path,
                st.shared_node_index(node),
                target,
                consume,
            );
            (placed_rank, placed_next)
        },
        Ok(Producer::Component(p)) => {
            let shared = db.shared_node_of(kind, p, input.ty);
            if !db.has(p) {
                (rank, next)
            } else if shared is InputParameter {
                let (placed_rank, placed_next) = lemma_shared_node_keeps_order(db, st, rank, waiting, next, path, shared);
                lemma_edge_keeps_order(
                    db,
                    st.with_shared_node(shared),
                    placed_rank,
                    waiting,
                    placed_next,
                    path,
                    st.shared_node_index(shared),
                    target,
                    consume,
                );
                (placed_rank, placed_next)
            } else if path.contains(p) {
                lemma_error_keeps_order(
                    db,
                    st,
                    rank,
                    waiting,
                    next,
                    path,
                    Failure::Cycle { participants: crate::call_graph::cycle_of(path, p) },
                );
                (rank, next)
            } else if db.components@[p as int].lifecycle != Lifecycle::Transient && st.nodes.contains(shared) {
                st.nodes.index_of_first_ensures(shared);
                let k = st.shared_node_index(shared);
                assert(st.nodes[k] == shared);
                assert(!waiting.contains(k));
                lemma_edge_keeps_order(db, st, rank, waiting, next, path, db.value_node(p, k), target, consume);
                (rank, next)
            } else {
                lemma_expand_extends(db, kind, observers, p, path, st);
                let expanded = db.expand(kind, observers, p, path, st);
                let (expanded_rank, expanded_next) = lemma_expand_in_order(db, kind, observers, p, path, st, rank, waiting, next);
                let at = st.nodes.len() as int;
                assert(expanded.nodes[at] == CallGraphNode::Compute { component_id: p });
                assert(!waiting.contains(at));
                lemma_edge_keeps_order(
                    db,
                    expanded,
                    expanded_rank,
                    waiting,
                    expanded_next,
                    path,
                    db.value_node(p, at),
                    target,
                    consume,
                );
                (expanded_rank, expanded_next)
            }
        },
    }
}

/// What follows a failure leaves a graph in order.
pub proof fn lemma_on_error_in_order(
    db: ComponentDb,
    kind: GraphKind,
    observers: Seq<UserComponentId>,
    c: UserComponentId,
    branch: int,
    path: Seq<UserComponentId>,
    st: GraphState,
    rank: Seq<int>,
    waiting: Set<int>,
    next: int,
) -> (r: (Seq<int>, int))
    requires
        in_order(db, st, rank, waiting, next, path),
        0 <= branch < st.nodes.len(),
        !waiting.contains(branch),
        db.on_error(kind, observers, c, branch, path, st).nodes.len() <= usize::MAX,
    ensures
        keeps_order(db, st, rank, next, db.on_error(kind, observers, c, branch, path, st), r.0, r.1, waiting, path),
    decreases unvisited(db.components@.len() as int, path).len(), 4int, 0int,
{
    let handled = match db.components@[c as int].error_handler {
        Some(handler) => db.attach_sink(kind, observers, handler, branch, path, st),
        None => st.with_error(Failure::MissingErrorHandler { fallible: c }),
    };
    lemma_notify_extends(db, kind, observers, branch, 0, path, handled);
    let (handled_rank, handled_next) = match db.components@[c as int].error_handler {
        Some(handler) => {
            lemma_attach_sink_extends(db, kind, observers, handler, branch, path, st);
            lemma_attach_sink_in_order(db, kind, observers, handler, branch, path, st, rank, waiting, next)
        },
        None => {
            lemma_error_keeps_order(db, st, rank, waiting, next, path, Failure::MissingErrorHandler { fallible: c });
            (rank, next)
        },
    };
    let (notified_rank, notified_next) = lemma_notify_in_order(
        db,
        kind,
        observers,
        branch,
        0,
        path,
        handled,
        handled_rank,
        waiting,
        handled_next,
    );
    (notified_rank, notified_next)
}

/// The error observers leave a graph in order.
pub proof fn lemma_notify_in_order(
    db: ComponentDb,
    kind: GraphKind,
    observers: Seq<UserComponentId>,
    branch: int,
    k: int,
    path: Seq<UserComponentId>,
    st: GraphState,
    rank: Seq<int>,
    waiting: Set<int>,
    next: int,
) -> (r: (Seq<int>, int))
    requires
        in_order(db, st, rank, waiting, next, path),
        0 <= branch < st.nodes.len(),
        !waiting.contains(branch),
        db.notify(kind, observers, branch, k, path, st).nodes.len() <= usize::MAX,
    ensures
        keeps_order(db, st, rank, next, db.notify(kind, observers, branch, k, path, st), r.0, r.1, waiting, path),
    decreases unvisited(db.components@.len() as int, path).len(), 3int, observers.len() - k,
{
    if 0 <= k < observers.len() {
        let step = db.attach_sink(kind, observers, observers[k], branch, path, st);
        lemma_notify_extends(db, kind, observers, branch, k + 1, path, step);
        lemma_attach_sink_extends(db, kind, observers, observers[k], branch, path, st);
        let (step_rank, step_next) = lemma_attach_sink_in_order(
            db,
            kind,
            observers,
            observers[k],
            branch,
            path,
            st,
            rank,
            waiting,
            next,
        );
        let (rest_rank, rest_next) = lemma_notify_in_order(
            db,
            kind,
            observers,
            branch,
            k + 1,
            path,
            step,
            step_rank,
            waiting,
            step_next,
        );
        (rest_rank, rest_next)
    } else {
        (rank, next)
    }
}

/// An error handler or an error observer leaves a graph in order.
pub proof fn lemma_attach_sink_in_order(
    db: ComponentDb,
    kind: GraphKind,
    observers: Seq<UserComponentId>,
    sink: UserComponentId,
    branch: int,
    path: Seq<UserComponentId>,
    st: GraphState,
    rank: Seq<int>,
    waiting: Set<int>,
    next: int,
) -> (r: (Seq<int>, int))
    requires
        in_order(db, st, rank, waiting, next, path),
        0 <= branch < st.nodes.len(),
        !waiting.contains(branch),
        db.attach_sink(kind, observers, sink, branch, path, st).nodes.len() <= usize::MAX,
    ensures
        keeps_order(db, st, rank, next, db.attach_sink(kind, observers, sink, branch, path, st), r.0, r.1, waiting, path),
    decreases unvisited(db.components@.len() as int, path).len(), 1int, 0int,
{
    if !db.is_sink(sink) {
        (rank, next)
    } else if path.contains(sink) {
        lemma_error_keeps_order(
            db,
            st,
            rank,
            waiting,
            next,
            path,
            Failure::Cycle { participants: crate::call_graph::cycle_of(path, sink) },
        );
        (rank, next)
    } else {
        lemma_expand_extends(db, kind, observers, sink, path, st);
        let expanded = db.expand(kind, observers, sink, path, st);
        let (expanded_rank, expanded_next) = lemma_expand_in_order(db, kind, observers, sink, path, st, rank, waiting, next);
        let at = st.nodes.len() as int;
        assert(!waiting.contains(at));
        assert(expanded_rank[branch] == rank[branch]);
        lemma_edge_keeps_order(db, expanded, expanded_rank, waiting, expanded_next, path, branch, at, EdgeKind::Error);
        (expanded_rank, expanded_next)
    }
}

/// The call graph of a component is acyclic.
pub proof fn lemma_call_graph_is_acyclic(
    db: ComponentDb,
    kind: GraphKind,
    observers: Seq<UserComponentId>,
    terminal: UserComponentId,
) -> (rank: Seq<int>)
    requires
        db.call_graph_of(kind, observers, terminal).nodes.len() <= usize::MAX,
    ensures
        is_numbering(db.call_graph_of(kind, observers, terminal), rank),
        is_acyclic(db.call_graph_of(kind, observers, terminal)),
{
    let start = GraphState::empty();
    let none: Seq<UserComponentId> = Seq::empty();
    assert(in_order(db, start, Seq::<int>::empty(), Set::<int>::empty(), 0, none));
    let (rank, next) = lemma_expand_in_order(
        db,
        kind,
        observers,
        terminal,
        none,
        start,
        Seq::<int>::empty(),
        Set::<int>::empty(),
        0,
    );
    lemma_in_order_is_acyclic(db, db.call_graph_of(kind, observers, terminal), rank, next, none);
    rank
}

/// What holds of a graph while its values are reconciled: the nodes of the
/// graph as it was are where they were, with twice the number they had; the
/// edges of the graph as it was lead where they led; and every edge ascends.
pub open spec fn settles_in_order(given: GraphState, rank: Seq<int>, st: GraphState, doubled: Seq<int>) -> bool {
    &&& is_numbering(given, rank)
    &&& given.edges.len() <= usize::MAX
    &&& given.nodes.len() <= st.nodes.len() <= usize::MAX
    &&& given.edges.len() <= st.edges.len()
    &&& doubled.len() == st.nodes.len()
    &&& forall|i: int| 0 <= i < given.nodes.len() ==> #[trigger] doubled[i] == 2 * rank[i]
    &&& forall|e: int| 0 <= e < given.edges.len() ==> (#[trigger] st.edges[e]).to == given.edges[e].to
    &&& forall|e: int| 0 <= e < st.edges.len() ==> ascends(#[trigger] st.edges[e], doubled)
}

impl ComponentDb {
    /// Giving consumers a clone of their own keeps every edge ascending: a
    /// clone is numbered between the node it is cloned from and its consumer.
    pub proof fn lemma_duplicate_for_ascends(
        self,
        given: GraphState,
        rank: Seq<int>,
        c: UserComponentId,
        v: int,
        listed: Seq<usize>,
        k: int,
        st: GraphState,
        doubled: Seq<int>,
    ) -> (r: Seq<int>)
        requires
            settles_in_order(given, rank, st, doubled),
            0 <= v < given.nodes.len(),
            0 <= k,
            forall|j: int|
                0 <= j < listed.len() ==> (#[trigger] listed[j]) < given.edges.len() && given.edges[listed[j] as int].from
                    == v,
            self.duplicate_for(c, v, listed, k, st).nodes.len() <= usize::MAX,
        ensures
            settles_in_order(given, rank, self.duplicate_for(c, v, listed, k, st), r),
        decreases listed.len() - k,
    {
        if k < listed.len() {
            let at = st.nodes.len() as int;
            let e = listed[k] as int;
            let next = st.with_node(CallGraphNode::Duplicate { component_id: c }).with_edge(v, at, EdgeKind::Clone).redirected(
                e,
                at,
            );
            self.lemma_duplicate_for(c, v, listed, k + 1, next);
            let numbered = doubled.push(2 * rank[v] + 1);
            assert(ascends(given.edges[e], rank));
            let to = given.edges[e].to as int;
            assert(rank[v] < rank[to]);
            assert(st.edges[e].to == given.edges[e].to);
            assert(settles_in_order(given, rank, next, numbered)) by {
                assert forall|i: int| 0 <= i < given.nodes.len() implies #[trigger] numbered[i] == 2 * rank[i] by {
                    assert(numbered[i] == doubled[i]);
                }
                assert forall|x: int| 0 <= x < next.edges.len() implies ascends(#[trigger] next.edges[x], numbered) by {
                    if x == e {
                        assert(numbered[at] == 2 * rank[v] + 1);
                        assert(numbered[to] == 2 * rank[to]);
                    } else if x < st.edges.len() {
                        assert(ascends(st.edges[x], doubled));
                        assert(next.edges[x] == st.edges[x]);
                    } else {
                        assert(numbered[v] == 2 * rank[v]);
                    }
                }
                assert forall|x: int| 0 <= x < given.edges.len() implies (#[trigger] next.edges[x]).to
                    == given.edges[x].to by {
                    assert(st.edges[x].to == given.edges[x].to);
                }
            }
            self.lemma_duplicate_for_ascends(given, rank, c, v, listed, k + 1, next, numbered)
        } else {
            doubled
        }
    }

    /// Reconciling the nodes from the `v`-th on keeps every edge ascending.
    pub proof fn lemma_settle_ascends(self, given: GraphState, rank: Seq<int>, v: int, st: GraphState, doubled: Seq<int>) -> (r:
        Seq<int>)
        requires
            settles_in_order(given, rank, st, doubled),
            0 <= v,
            self.settle_from(given, v, st).nodes.len() <= usize::MAX,
        ensures
            is_numbering(self.settle_from(given, v, st), r),
        decreases given.nodes.len() - v,
    {
        if v < given.nodes.len() {
            let step = self.settle_node(given, v, st);
            self.lemma_settle_keeps_nodes(given, v + 1, step);
            let listed = consumer_edges(given.edges, v, given.edges.len() as int);
            lemma_consumer_edges(given.edges, v, given.edges.len() as int);
            let step_rank = if listed.len() >= 2 && crate::aliasing::any_exclusive(
                given.edges,
                listed,
                listed.len() as int,
            ) {
                match owner_of(given.nodes, v) {
                    Some(c) => if self.may_clone(c) {
                        self.lemma_duplicate_for_ascends(given, rank, c, v, listed, 1, st, doubled)
                    } else {
                        doubled
                    },
                    None => doubled,
                }
            } else {
                doubled
            };
            assert(settles_in_order(given, rank, step, step_rank));
            self.lemma_settle_ascends(given, rank, v + 1, step, step_rank)
        } else {
            doubled
        }
    }

    /// The ownership check leaves an acyclic graph acyclic.
    pub proof fn lemma_settled_is_acyclic(self, given: GraphState, rank: Seq<int>)
        requires
            is_numbering(given, rank),
            given.edges.len() <= usize::MAX,
            self.settled(given).nodes.len() <= usize::MAX,
        ensures
            is_acyclic(self.settled(given)),
    {
        self.lemma_settle_keeps_nodes(given, 0, given);
        let doubled = Seq::new(given.nodes.len(), |i: int| 2 * rank[i]);
        assert(settles_in_order(given, rank, given, doubled)) by {
            assert forall|e: int| 0 <= e < given.edges.len() implies ascends(#[trigger] given.edges[e], doubled) by {
                assert(ascends(given.edges[e], rank));
            }
        }
        let r = self.lemma_settle_ascends(given, rank, 0, given, doubled);
        assert(is_numbering(self.settled(given), r));
    }

    /// The finished call graph of a component is acyclic.
    pub proof fn lemma_finished_graph_is_acyclic(
        self,
        kind: GraphKind,
        observers: Seq<UserComponentId>,
        terminal: UserComponentId,
    )
        requires
            self.call_graph_of(kind, observers, terminal).edges.len() <= usize::MAX,
            self.finished_graph(kind, observers, terminal).nodes.len() <= usize::MAX,
        ensures
            is_acyclic(self.finished_graph(kind, observers, terminal)),
    {
        let built = self.call_graph_of(kind, observers, terminal);
        let start = GraphState { errors: Seq::empty(), ..built };
        self.lemma_settle_keeps_nodes(start, 0, start);
        let rank = lemma_call_graph_is_acyclic(self, kind, observers, terminal);
        assert(is_numbering(start, rank)) by {
            assert forall|e: int| 0 <= e < start.edges.len() implies ascends(#[trigger] start.edges[e], rank) by {
                assert(ascends(built.edges[e], rank));
            }
        }
        self.lemma_settled_is_acyclic(start, rank);
        let settled = self.settled(start);
        let finished = self.finished_graph(kind, observers, terminal);
        let r = choose|r: Seq<int>| is_numbering(settled, r);
        assert(is_numbering(finished, r)) by {
            assert forall|e: int| 0 <= e < finished.edges.len() implies ascends(#[trigger] finished.edges[e], r) by {
                assert(ascends(settled.edges[e], r));
            }
        }
    }
}

/// Storing a singleton keeps every node, edge and failure that was there.
pub proof fn lemma_store_singleton_extends(db: ComponentDb, c: UserComponentId, st: GraphState)
    ensures
        db.store_singleton(c, st).extends(st),
{
    lemma_expand_extends(db, GraphKind::ApplicationState, Seq::empty(), c, Seq::empty(), st);
}

/// Storing the singletons keeps every node, edge and failure that was there.
pub proof fn lemma_store_singletons_extends(db: ComponentDb, c: int, st: GraphState)
    ensures
        db.store_singletons_from(c, st).extends(st),
    decreases db.components@.len() - c,
{
    if 0 <= c < db.components@.len() {
        let next = if db.is_singleton(c) {
            db.store_singleton(c as usize, st)
        } else {
            st
        };
        if db.is_singleton(c) {
            lemma_store_singleton_extends(db, c as usize, st);
        }
        lemma_store_singletons_extends(db, c + 1, next);
    }
}

/// Storing the singletons leaves a graph in order, while the node that
/// gathers them waits.
pub proof fn lemma_store_singletons_in_order(
    db: ComponentDb,
    c: int,
    st: GraphState,
    rank: Seq<int>,
    next: int,
) -> (r: (Seq<int>, int))
    requires
        in_order(db, st, rank, set![0int], next, Seq::<UserComponentId>::empty()),
        st.nodes.len() > 0,
        db.store_singletons_from(c, st).nodes.len() <= usize::MAX,
    ensures
        in_order(db, db.store_singletons_from(c, st), r.0, set![0int], r.1, Seq::<UserComponentId>::empty()),
    decreases db.components@.len() - c,
{
    let none: Seq<UserComponentId> = Seq::empty();
    let waiting = set![0int];
    if 0 <= c < db.components@.len() {
        if db.is_singleton(c) {
            let id = c as usize;
            let stored = db.store_singleton(id, st);
            lemma_store_singletons_extends(db, c + 1, stored);
            let shared = CallGraphNode::Compute { component_id: id };
            let (stored_rank, stored_next) = if st.nodes.contains(shared) {
                st.nodes.index_of_first_ensures(shared);
                let k = st.shared_node_index(shared);
                assert(st.nodes[k] == shared);
                assert(!waiting.contains(k)) by {
                    if waiting.contains(k) {
                        assert(none.contains(id));
                    }
                }
                lemma_edge_keeps_order(db, st, rank, waiting, next, none, db.value_node(id, k), 0, EdgeKind::Store);
                (rank, next)
            } else {
                lemma_expand_extends(db, GraphKind::ApplicationState, none, id, none, st);
                let expanded = db.expand(GraphKind::ApplicationState, none, id, none, st);
                let (expanded_rank, expanded_next) = lemma_expand_in_order(
                    db,
                    GraphKind::ApplicationState,
                    none,
                    id,
                    none,
                    st,
                    rank,
                    waiting,
                    next,
                );
                let at = st.nodes.len() as int;
                assert(expanded.nodes[at] == shared);
                lemma_edge_keeps_order(
                    db,
                    expanded,
                    expanded_rank,
                    waiting,
                    expanded_next,
                    none,
                    db.value_node(id, at),
                    0,
                    EdgeKind::Store,
                );
                (expanded_rank, expanded_next)
            };
            lemma_store_singleton_extends(db, id, st);
            lemma_store_singletons_in_order(db, c + 1, stored, stored_rank, stored_next)
        } else {
            lemma_store_singletons_in_order(db, c + 1, st, rank, next)
        }
    } else {
        (rank, next)
    }
}

/// The graph that builds the application state is acyclic.
pub proof fn lemma_state_graph_is_acyclic(db: ComponentDb) -> (rank: Seq<int>)
    requires
        db.state_graph().nodes.len() <= usize::MAX,
    ensures
        is_numbering(db.state_graph(), rank),
        is_acyclic(db.state_graph()),
{
    let none: Seq<UserComponentId> = Seq::empty();
    let waiting = set![0int];
    let start = GraphState::empty().with_node(CallGraphNode::StateAggregate);
    lemma_store_singletons_extends(db, 0, start);
    assert(in_order(db, start, seq![0int], waiting, 0, none));
    let (stored_rank, stored_next) = lemma_store_singletons_in_order(db, 0, start, seq![0int], 0);
    let graph = db.state_graph();
    assert(graph.nodes[0] == start.nodes[0]);
    // The node that gathers the singletons is numbered last.
    let rank = stored_rank.update(0, stored_next);
    assert forall|e: int| 0 <= e < graph.edges.len() implies ascends(#[trigger] graph.edges[e], rank) by {
        let edge = graph.edges[e];
        assert(edge_in_order(graph, stored_rank, waiting, edge));
        let from = edge.from as int;
        let to = edge.to as int;
        if from == 0 {
            assert(waiting.contains(from));
        } else {
            assert(!waiting.contains(from));
            if to != 0 {
                assert(!waiting.contains(to));
            }
        }
    }
    assert(is_numbering(graph, rank));
    rank
}

impl ComponentDb {
    /// The finished graph of the application state is acyclic.
    pub proof fn lemma_finished_state_graph_is_acyclic(self)
        requires
            self.state_graph().edges.len() <= usize::MAX,
            self.finished_state_graph().nodes.len() <= usize::MAX,
        ensures
            is_acyclic(self.finished_state_graph()),
    {
        let built = self.state_graph();
        let start = GraphState { errors: Seq::empty(), ..built };
        self.lemma_settle_keeps_nodes(start, 0, start);
        let rank = lemma_state_graph_is_acyclic(self);
        assert(is_numbering(start, rank)) by {
            assert forall|e: int| 0 <= e < start.edges.len() implies ascends(#[trigger] start.edges[e], rank) by {
                assert(ascends(built.edges[e], rank));
            }
        }
        self.lemma_settled_is_acyclic(start, rank);
        let settled = self.settled(start);
        let finished = self.finished_state_graph();
        let r = choose|r: Seq<int>| is_numbering(settled, r);
        assert(is_numbering(finished, r)) by {
            assert forall|e: int| 0 <= e < finished.edges.len() implies ascends(#[trigger] finished.edges[e], r) by {
                assert(ascends(settled.edges[e], r));
            }
        }
    }
}

} // verus!

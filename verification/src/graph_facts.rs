//! What holds of every call graph that the walk builds.

use vstd::prelude::*;
use crate::call_graph::{
    cycle_of, lemma_unvisited_shrinks, unvisited, CallGraphEdge, CallGraphNode, EdgeKind, GraphState,
    InputParameterSource,
};
use crate::diagnostic::{ConfigErrorView, Failure};
use crate::model::{Lifecycle, UserComponentId};
use crate::resolver::{lemma_resolution_in_range, ComponentDb, GraphKind, Producer};

verus! {

/// Whether `later` starts with `earlier`.
pub open spec fn grows<T>(earlier: Seq<T>, later: Seq<T>) -> bool {
    earlier.len() <= later.len() && forall|i: int| 0 <= i < earlier.len() ==> later[i] == earlier[i]
}

impl GraphState {
    /// Whether the state holds everything that `earlier` holds, at the same
    /// places: what the walk has added is never changed or taken away.
    pub open spec fn extends(self, earlier: GraphState) -> bool {
        grows(earlier.nodes, self.nodes) && grows(earlier.edges, self.edges) && grows(earlier.errors, self.errors)
    }
}

/// The walk only adds: expanding a component keeps every node, edge and
/// failure that was there.
pub proof fn lemma_expand_extends(
    db: ComponentDb,
    kind: GraphKind,
    observers: Seq<UserComponentId>,
    c: UserComponentId,
    path: Seq<UserComponentId>,
    st: GraphState,
)
    ensures
        db.expand(kind, observers, c, path, st).extends(st),
        db.has(c) && !path.contains(c) ==> db.expand(kind, observers, c, path, st).nodes.len() > st.nodes.len()
            && db.expand(kind, observers, c, path, st).nodes[st.nodes.len() as int] == (CallGraphNode::Compute {
            component_id: c,
        }),
    decreases unvisited(db.components@.len() as int, path).len(), 0int, 0int,
{
    if db.has(c) && !path.contains(c) {
        lemma_unvisited_shrinks(db.components@.len() as int, path, c);
        let at = st.nodes.len() as int;
        let computed = st.with_node(CallGraphNode::Compute { component_id: c });
        let branched = if db.fallible(c) {
            computed.with_node(CallGraphNode::MatchBranching).with_edge(at, at + 1, EdgeKind::Outcome)
        } else {
            computed
        };
        assert(branched.extends(st));
        let wired = db.wire_inputs(kind, observers, c, at, db.first_injected(c), path.push(c), branched);
        lemma_wire_inputs_extends(db, kind, observers, c, at, db.first_injected(c), path.push(c), branched);
        if db.fallible(c) && kind == GraphKind::RequestHandling {
            lemma_on_error_extends(db, kind, observers, c, at + 1, path.push(c), wired);
        }
    }
}

/// Wiring the inputs of a component keeps what was there.
pub proof fn lemma_wire_inputs_extends(
    db: ComponentDb,
    kind: GraphKind,
    observers: Seq<UserComponentId>,
    c: UserComponentId,
    target: int,
    i: int,
    path: Seq<UserComponentId>,
    st: GraphState,
)
    ensures
        db.wire_inputs(kind, observers, c, target, i, path, st).extends(st),
    decreases unvisited(db.components@.len() as int, path).len(), 2int, db.components@[c as int].inputs@.len() - i,
{
    if db.has(c) && 0 <= i < db.components@[c as int].inputs@.len() {
        let next = db.wire_input(kind, observers, c, target, i, path, st);
        lemma_wire_input_extends(db, kind, observers, c, target, i, path, st);
        lemma_wire_inputs_extends(db, kind, observers, c, target, i + 1, path, next);
    }
}

/// Wiring one input keeps what was there.
pub proof fn lemma_wire_input_extends(
    db: ComponentDb,
    kind: GraphKind,
    observers: Seq<UserComponentId>,
    c: UserComponentId,
    target: int,
    i: int,
    path: Seq<UserComponentId>,
    st: GraphState,
)
    ensures
        db.wire_input(kind, observers, c, target, i, path, st).extends(st),
    decreases unvisited(db.components@.len() as int, path).len(), 1int, 0int,
{
    let input = db.components@[c as int].inputs@[i];
    match db.resolution(kind, input.ty, db.components@[c as int].scope_id, c) {
        Err(e) => {},
        Ok(Producer::Framework) => {},
        Ok(Producer::Component(p)) => {
            let shared = db.shared_node_of(kind, p, input.ty);
            if !db.has(p) {
            } else if shared is InputParameter {
            } else if path.contains(p) {
            } else if db.components@[p as int].lifecycle != Lifecycle::Transient && st.nodes.contains(shared) {
            } else {
                lemma_expand_extends(db, kind, observers, p, path, st);
            }
        },
    }
}

/// Adding what follows a failure keeps what was there.
pub proof fn lemma_on_error_extends(
    db: ComponentDb,
    kind: GraphKind,
    observers: Seq<UserComponentId>,
    c: UserComponentId,
    branch: int,
    path: Seq<UserComponentId>,
    st: GraphState,
)
    ensures
        db.on_error(kind, observers, c, branch, path, st).extends(st),
    decreases unvisited(db.components@.len() as int, path).len(), 4int, 0int,
{
    let handled = match db.components@[c as int].error_handler {
        Some(handler) => db.attach_sink(kind, observers, handler, branch, path, st),
        None => st.with_error(Failure::MissingErrorHandler { fallible: c }),
    };
    match db.components@[c as int].error_handler {
        Some(handler) => {
            lemma_attach_sink_extends(db, kind, observers, handler, branch, path, st);
        },
        None => {},
    }
    lemma_notify_extends(db, kind, observers, branch, 0, path, handled);
}

/// Adding the error observers keeps what was there.
pub proof fn lemma_notify_extends(
    db: ComponentDb,
    kind: GraphKind,
    observers: Seq<UserComponentId>,
    branch: int,
    k: int,
    path: Seq<UserComponentId>,
    st: GraphState,
)
    ensures
        db.notify(kind, observers, branch, k, path, st).extends(st),
    decreases unvisited(db.components@.len() as int, path).len(), 3int, observers.len() - k,
{
    if 0 <= k < observers.len() {
        let next = db.attach_sink(kind, observers, observers[k], branch, path, st);
        lemma_attach_sink_extends(db, kind, observers, observers[k], branch, path, st);
        lemma_notify_extends(db, kind, observers, branch, k + 1, path, next);
    }
}

/// Adding an error handler or an error observer keeps what was there.
pub proof fn lemma_attach_sink_extends(
    db: ComponentDb,
    kind: GraphKind,
    observers: Seq<UserComponentId>,
    sink: UserComponentId,
    branch: int,
    path: Seq<UserComponentId>,
    st: GraphState,
)
    ensures
        db.attach_sink(kind, observers, sink, branch, path, st).extends(st),
    decreases unvisited(db.components@.len() as int, path).len(), 1int, 0int,
{
    if db.is_sink(sink) && !path.contains(sink) {
        lemma_expand_extends(db, kind, observers, sink, path, st);
    }
}

/// A failure that a state holds is held by every state that extends it.
pub proof fn lemma_failure_is_kept(earlier: GraphState, later: GraphState, failure: ConfigErrorView)
    requires
        later.extends(earlier),
        earlier.errors.contains(failure),
    ensures
        later.errors.contains(failure),
{
    let i = choose|i: int| 0 <= i < earlier.errors.len() && earlier.errors[i] == failure;
    assert(later.errors[i] == failure);
}

/// Two components that need each other are a cycle. Where the one input of
/// `a` is produced by `b` alone and the one input of `b` by `a` alone,
/// building `a`, with `b` not built yet, fails with a cycle that names `a`
/// and `b`. (A singleton is no part of a request-handling graph: there the
/// cycle shows in the graph of the application state.)
pub proof fn lemma_mutual_need_is_a_cycle(
    db: ComponentDb,
    kind: GraphKind,
    observers: Seq<UserComponentId>,
    a: UserComponentId,
    b: UserComponentId,
    path: Seq<UserComponentId>,
    st: GraphState,
)
    requires
        db.has(a),
        db.has(b),
        a != b,
        db.components@[a as int].inputs@.len() == 1,
        db.components@[b as int].inputs@.len() == 1,
        db.resolution(kind, db.components@[a as int].inputs@[0].ty, db.components@[a as int].scope_id, a) == Ok::<
            Producer,
            ConfigErrorView,
        >(Producer::Component(b)),
        db.resolution(kind, db.components@[b as int].inputs@[0].ty, db.components@[b as int].scope_id, b) == Ok::<
            Producer,
            ConfigErrorView,
        >(Producer::Component(a)),
        kind == GraphKind::RequestHandling ==> db.components@[a as int].lifecycle != Lifecycle::Singleton
            && db.components@[b as int].lifecycle != Lifecycle::Singleton,
        !path.contains(a),
        !path.contains(b),
        !st.nodes.contains(CallGraphNode::Compute { component_id: b }),
    ensures
        db.expand(kind, observers, a, path, st).errors.contains(Failure::Cycle { participants: seq![a, b] }),
{
    let input_a = db.components@[a as int].inputs@[0];
    let input_b = db.components@[b as int].inputs@[0];
    lemma_resolution_in_range(db, kind, input_a.ty, db.components@[a as int].scope_id, a);
    lemma_resolution_in_range(db, kind, input_b.ty, db.components@[b as int].scope_id, b);
    assert(db.is_producer(a as int) && db.is_producer(b as int));
    assert(db.first_injected(a) == 0 && db.first_injected(b) == 0);
    // The node of `a`.
    let at_a = st.nodes.len() as int;
    let computed_a = st.with_node(CallGraphNode::Compute { component_id: a });
    let branched_a = if db.fallible(a) {
        computed_a.with_node(CallGraphNode::MatchBranching).with_edge(at_a, at_a + 1, EdgeKind::Outcome)
    } else {
        computed_a
    };
    let path_a = path.push(a);
    let node_b = CallGraphNode::Compute { component_id: b };
    assert(!branched_a.nodes.contains(node_b)) by {
        if branched_a.nodes.contains(node_b) {
            let i = choose|i: int| 0 <= i < branched_a.nodes.len() && branched_a.nodes[i] == node_b;
            if i < st.nodes.len() {
                assert(st.nodes[i] == node_b);
            }
        }
    }
    assert(!path_a.contains(b)) by {
        if path_a.contains(b) {
            let i = choose|i: int| 0 <= i < path_a.len() && path_a[i] == b;
            if i < path.len() {
                assert(path[i] == b);
            }
        }
    }
    // The node of `b`, built for `a`.
    let at_b = branched_a.nodes.len() as int;
    let computed_b = branched_a.with_node(node_b);
    let branched_b = if db.fallible(b) {
        computed_b.with_node(CallGraphNode::MatchBranching).with_edge(at_b, at_b + 1, EdgeKind::Outcome)
    } else {
        computed_b
    };
    let path_b = path_a.push(b);
    assert(path_b.contains(a)) by {
        assert(path_b[path.len() as int] == a);
    }
    assert(cycle_of(path_b, a) =~= seq![a, b]) by {
        path_b.index_of_first_ensures(a);
        let first = path_b.index_of_first(a)->0;
        if first < path.len() {
            assert(path[first] == a);
        }
        assert(path_b[path.len() as int] == a);
        assert(first == path.len());
    }
    let cycle = Failure::Cycle { participants: seq![a, b] };
    let failed_b = branched_b.with_error(cycle);
    assert(db.wire_input(kind, observers, b, at_b, 0, path_b, branched_b) == failed_b);
    assert(db.wire_inputs(kind, observers, b, at_b, 1, path_b, failed_b) == failed_b);
    assert(db.wire_inputs(kind, observers, b, at_b, 0, path_b, branched_b) == failed_b);
    assert(failed_b.errors.contains(cycle)) by {
        assert(failed_b.errors[branched_b.errors.len() as int] == cycle);
    }
    lemma_unvisited_shrinks(db.components@.len() as int, path, a);
    let expanded_b = db.expand(kind, observers, b, path_a, branched_a);
    assert(expanded_b.extends(failed_b)) by {
        if db.fallible(b) && kind == GraphKind::RequestHandling {
            lemma_on_error_extends(db, kind, observers, b, at_b + 1, path_b, failed_b);
        }
    }
    lemma_failure_is_kept(failed_b, expanded_b, cycle);
    // Back at `a`.
    let wired_a = expanded_b.with_edge(db.value_node(b, at_b), at_a, EdgeKind::Consume(input_a.access));
    assert(db.wire_input(kind, observers, a, at_a, 0, path_a, branched_a) == wired_a);
    assert(db.wire_inputs(kind, observers, a, at_a, 1, path_a, wired_a) == wired_a);
    assert(db.wire_inputs(kind, observers, a, at_a, 0, path_a, branched_a) == wired_a);
    assert(wired_a.errors.contains(cycle));
    let expanded_a = db.expand(kind, observers, a, path, st);
    assert(expanded_a.extends(wired_a)) by {
        if db.fallible(a) && kind == GraphKind::RequestHandling {
            lemma_on_error_extends(db, kind, observers, a, at_a + 1, path_a, wired_a);
        }
    }
    lemma_failure_is_kept(wired_a, expanded_a, cycle);
}

/// A singleton that a request-handling graph needs is an input parameter
/// that the application state provides, shared by every consumer in the
/// graph: wiring an input that a singleton produces adds that input
/// parameter if the graph does not hold it yet, adds nothing else, and wires
/// the consumer to it.
pub proof fn lemma_singleton_is_a_shared_input(
    db: ComponentDb,
    observers: Seq<UserComponentId>,
    c: UserComponentId,
    target: int,
    i: int,
    path: Seq<UserComponentId>,
    st: GraphState,
    p: UserComponentId,
)
    requires
        db.has(p),
        db.components@[p as int].lifecycle == Lifecycle::Singleton,
        db.resolution(
            GraphKind::RequestHandling,
            db.components@[c as int].inputs@[i].ty,
            db.components@[c as int].scope_id,
            c,
        ) == Ok::<Producer, ConfigErrorView>(Producer::Component(p)),
    ensures
        ({
            let input = db.components@[c as int].inputs@[i];
            let shared = CallGraphNode::InputParameter {
                ty: input.ty,
                source: InputParameterSource::ApplicationState { component_id: p },
            };
            let wired = db.wire_input(GraphKind::RequestHandling, observers, c, target, i, path, st);
            &&& wired.nodes == st.with_shared_node(shared).nodes
            &&& wired.nodes.contains(shared)
            &&& 0 <= st.shared_node_index(shared) < wired.nodes.len()
            &&& wired.nodes[st.shared_node_index(shared)] == shared
            &&& wired.edges == st.edges.push(
                CallGraphEdge {
                    from: st.shared_node_index(shared) as usize,
                    to: target as usize,
                    kind: EdgeKind::Consume(input.access),
                },
            )
            &&& wired.errors == st.errors
        }),
{
    let input = db.components@[c as int].inputs@[i];
    let shared = CallGraphNode::InputParameter {
        ty: input.ty,
        source: InputParameterSource::ApplicationState { component_id: p },
    };
    st.nodes.index_of_first_ensures(shared);
    let placed = st.with_shared_node(shared);
    if !st.nodes.contains(shared) {
        assert(placed.nodes[st.nodes.len() as int] == shared);
    }
}

/// A transient component is computed anew for each consumer: wiring an input
/// that a transient component produces adds a node that computes it, after
/// every node that the graph held, and wires the consumer to the value of
/// that node. The nodes given to two consumers are therefore two.
pub proof fn lemma_transient_gets_a_node_of_its_own(
    db: ComponentDb,
    kind: GraphKind,
    observers: Seq<UserComponentId>,
    c: UserComponentId,
    target: int,
    i: int,
    path: Seq<UserComponentId>,
    st: GraphState,
    p: UserComponentId,
)
    requires
        db.has(p),
        db.components@[p as int].lifecycle == Lifecycle::Transient,
        !path.contains(p),
        db.resolution(kind, db.components@[c as int].inputs@[i].ty, db.components@[c as int].scope_id, c) == Ok::<
            Producer,
            ConfigErrorView,
        >(Producer::Component(p)),
    ensures
        ({
            let input = db.components@[c as int].inputs@[i];
            let wired = db.wire_input(kind, observers, c, target, i, path, st);
            &&& wired.extends(st)
            &&& wired.nodes.len() > st.nodes.len()
            &&& wired.nodes[st.nodes.len() as int] == (CallGraphNode::Compute { component_id: p })
            &&& wired.edges.len() > 0
            &&& wired.edges.last() == (CallGraphEdge {
                from: db.value_node(p, st.nodes.len() as int) as usize,
                to: target as usize,
                kind: EdgeKind::Consume(input.access),
            })
        }),
{
    lemma_expand_extends(db, kind, observers, p, path, st);
    lemma_wire_input_extends(db, kind, observers, c, target, i, path, st);
}

impl ComponentDb {
    /// Whether no node of the state computes a singleton.
    pub open spec fn computes_no_singleton(self, st: GraphState) -> bool {
        forall|i: int|
            0 <= i < st.nodes.len() ==> ((#[trigger] st.nodes[i]) matches CallGraphNode::Compute { component_id }
                ==> !self.is_singleton(component_id as int))
    }
}

/// No request-handling graph computes a singleton.
pub proof fn lemma_expand_computes_no_singleton(
    db: ComponentDb,
    observers: Seq<UserComponentId>,
    c: UserComponentId,
    path: Seq<UserComponentId>,
    st: GraphState,
)
    requires
        db.computes_no_singleton(st),
        !db.is_singleton(c as int),
    ensures
        db.computes_no_singleton(db.expand(GraphKind::RequestHandling, observers, c, path, st)),
    decreases unvisited(db.components@.len() as int, path).len(), 0int, 0int,
{
    let kind = GraphKind::RequestHandling;
    if db.has(c) && !path.contains(c) {
        lemma_unvisited_shrinks(db.components@.len() as int, path, c);
        let at = st.nodes.len() as int;
        let computed = st.with_node(CallGraphNode::Compute { component_id: c });
        let branched = if db.fallible(c) {
            computed.with_node(CallGraphNode::MatchBranching).with_edge(at, at + 1, EdgeKind::Outcome)
        } else {
            computed
        };
        assert(db.computes_no_singleton(branched)) by {
            assert forall|i: int| 0 <= i < branched.nodes.len() implies ((#[trigger] branched.nodes[i]) matches CallGraphNode::Compute {
                component_id,
            } ==> !db.is_singleton(component_id as int)) by {
                if i < st.nodes.len() {
                    assert(branched.nodes[i] == st.nodes[i]);
                }
            }
        }
        let wired = db.wire_inputs(kind, observers, c, at, db.first_injected(c), path.push(c), branched);
        lemma_wire_inputs_compute_no_singleton(db, observers, c, at, db.first_injected(c), path.push(c), branched);
        if db.fallible(c) {
            lemma_on_error_computes_no_singleton(db, observers, c, at + 1, path.push(c), wired);
        }
    }
}

/// Wiring the inputs of a component adds no node that computes a singleton.
pub proof fn lemma_wire_inputs_compute_no_singleton(
    db: ComponentDb,
    observers: Seq<UserComponentId>,
    c: UserComponentId,
    target: int,
    i: int,
    path: Seq<UserComponentId>,
    st: GraphState,
)
    requires
        db.computes_no_singleton(st),
    ensures
        db.computes_no_singleton(db.wire_inputs(GraphKind::RequestHandling, observers, c, target, i, path, st)),
    decreases unvisited(db.components@.len() as int, path).len(), 2int, db.components@[c as int].inputs@.len() - i,
{
    let kind = GraphKind::RequestHandling;
    if db.has(c) && 0 <= i < db.components@[c as int].inputs@.len() {
        let next = db.wire_input(kind, observers, c, target, i, path, st);
        lemma_wire_input_computes_no_singleton(db, observers, c, target, i, path, st);
        lemma_wire_inputs_compute_no_singleton(db, observers, c, target, i + 1, path, next);
    }
}

/// Wiring one input adds no node that computes a singleton.
pub proof fn lemma_wire_input_computes_no_singleton(
    db: ComponentDb,
    observers: Seq<UserComponentId>,
    c: UserComponentId,
    target: int,
    i: int,
    path: Seq<UserComponentId>,
    st: GraphState,
)
    requires
        db.computes_no_singleton(st),
    ensures
        db.computes_no_singleton(db.wire_input(GraphKind::RequestHandling, observers, c, target, i, path, st)),
    decreases unvisited(db.components@.len() as int, path).len(), 1int, 0int,
{
    let kind = GraphKind::RequestHandling;
    let input = db.components@[c as int].inputs@[i];
    match db.resolution(kind, input.ty, db.components@[c as int].scope_id, c) {
        Err(e) => {},
        Ok(Producer::Framework) => {
            let node = CallGraphNode::InputParameter { ty: input.ty, source: InputParameterSource::Framework };
            lemma_shared_node_computes_nothing(db, st, node);
        },
        Ok(Producer::Component(p)) => {
            let shared = db.shared_node_of(kind, p, input.ty);
            if !db.has(p) {
            } else if shared is InputParameter {
                lemma_shared_node_computes_nothing(db, st, shared);
            } else if path.contains(p) {
            } else if db.components@[p as int].lifecycle != Lifecycle::Transient && st.nodes.contains(shared) {
            } else {
                lemma_expand_computes_no_singleton(db, observers, p, path, st);
            }
        },
    }
}

/// Placing an input parameter adds no node that computes a singleton.
pub proof fn lemma_shared_node_computes_nothing(db: ComponentDb, st: GraphState, node: CallGraphNode)
    requires
        db.computes_no_singleton(st),
        node is InputParameter,
    ensures
        db.computes_no_singleton(st.with_shared_node(node)),
{
    let placed = st.with_shared_node(node);
    assert forall|i: int| 0 <= i < placed.nodes.len() implies ((#[trigger] placed.nodes[i]) matches CallGraphNode::Compute {
        component_id,
    } ==> !db.is_singleton(component_id as int)) by {
        if i < st.nodes.len() {
            assert(placed.nodes[i] == st.nodes[i]);
        }
    }
}

/// What follows a failure adds no node that computes a singleton.
pub proof fn lemma_on_error_computes_no_singleton(
    db: ComponentDb,
    observers: Seq<UserComponentId>,
    c: UserComponentId,
    branch: int,
    path: Seq<UserComponentId>,
    st: GraphState,
)
    requires
        db.computes_no_singleton(st),
        db.has(c),
    ensures
        db.computes_no_singleton(db.on_error(GraphKind::RequestHandling, observers, c, branch, path, st)),
    decreases unvisited(db.components@.len() as int, path).len(), 4int, 0int,
{
    let kind = GraphKind::RequestHandling;
    let handled = match db.components@[c as int].error_handler {
        Some(handler) => db.attach_sink(kind, observers, handler, branch, path, st),
        None => st.with_error(Failure::MissingErrorHandler { fallible: c }),
    };
    match db.components@[c as int].error_handler {
        Some(handler) => {
            lemma_attach_sink_computes_no_singleton(db, observers, handler, branch, path, st);
        },
        None => {},
    }
    lemma_notify_computes_no_singleton(db, observers, branch, 0, path, handled);
}

/// The error observers add no node that computes a singleton.
pub proof fn lemma_notify_computes_no_singleton(
    db: ComponentDb,
    observers: Seq<UserComponentId>,
    branch: int,
    k: int,
    path: Seq<UserComponentId>,
    st: GraphState,
)
    requires
        db.computes_no_singleton(st),
    ensures
        db.computes_no_singleton(db.notify(GraphKind::RequestHandling, observers, branch, k, path, st)),
    decreases unvisited(db.components@.len() as int, path).len(), 3int, observers.len() - k,
{
    let kind = GraphKind::RequestHandling;
    if 0 <= k < observers.len() {
        let next = db.attach_sink(kind, observers, observers[k], branch, path, st);
        lemma_attach_sink_computes_no_singleton(db, observers, observers[k], branch, path, st);
        lemma_notify_computes_no_singleton(db, observers, branch, k + 1, path, next);
    }
}

/// An error handler or an error observer adds no node that computes a
/// singleton.
pub proof fn lemma_attach_sink_computes_no_singleton(
    db: ComponentDb,
    observers: Seq<UserComponentId>,
    sink: UserComponentId,
    branch: int,
    path: Seq<UserComponentId>,
    st: GraphState,
)
    requires
        db.computes_no_singleton(st),
    ensures
        db.computes_no_singleton(db.attach_sink(GraphKind::RequestHandling, observers, sink, branch, path, st)),
    decreases unvisited(db.components@.len() as int, path).len(), 1int, 0int,
{
    if db.is_sink(sink) && !path.contains(sink) {
        assert(!db.is_singleton(sink as int));
        lemma_expand_computes_no_singleton(db, observers, sink, path, st);
    }
}

/// The call graph of a request handler computes no singleton: every
/// singleton in it is an input parameter that the application state
/// provides.
pub proof fn lemma_handler_graph_computes_no_singleton(
    db: ComponentDb,
    observers: Seq<UserComponentId>,
    handler: UserComponentId,
)
    requires
        !db.is_singleton(handler as int),
    ensures
        db.computes_no_singleton(db.call_graph_of(GraphKind::RequestHandling, observers, handler)),
{
    lemma_expand_computes_no_singleton(db, observers, handler, Seq::empty(), GraphState::empty());
}

/// The terminal node of a call graph is its node 0: the node that computes
/// the component that the graph was built for.
pub proof fn lemma_terminal_is_node_zero(
    db: ComponentDb,
    kind: GraphKind,
    observers: Seq<UserComponentId>,
    terminal: UserComponentId,
)
    requires
        db.has(terminal),
    ensures
        db.call_graph_of(kind, observers, terminal).nodes.len() > 0,
        db.call_graph_of(kind, observers, terminal).nodes[0] == (CallGraphNode::Compute { component_id: terminal }),
{
    lemma_expand_extends(db, kind, observers, terminal, Seq::empty(), GraphState::empty());
}

/// A finished call graph has exactly one terminal node, its node 0: the
/// ownership check leaves the node that computes the component that the graph
/// was built for where the walk put it.
pub proof fn lemma_finished_graph_keeps_terminal(
    db: ComponentDb,
    kind: GraphKind,
    observers: Seq<UserComponentId>,
    terminal: UserComponentId,
)
    requires
        db.has(terminal),
    ensures
        db.finished_graph(kind, observers, terminal).nodes.len() > 0,
        db.finished_graph(kind, observers, terminal).nodes[0] == (CallGraphNode::Compute { component_id: terminal }),
{
    lemma_terminal_is_node_zero(db, kind, observers, terminal);
    let built = db.call_graph_of(kind, observers, terminal);
    let start = GraphState { errors: Seq::empty(), ..built };
    db.lemma_settle_keeps_nodes(start, 0, start);
}

/// A finished request-handling graph computes no singleton: every singleton
/// in it is an input parameter that the application state provides, and the
/// ownership check adds nothing but clones.
pub proof fn lemma_finished_graph_computes_no_singleton(
    db: ComponentDb,
    observers: Seq<UserComponentId>,
    terminal: UserComponentId,
)
    requires
        !db.is_singleton(terminal as int),
    ensures
        db.computes_no_singleton(db.finished_graph(GraphKind::RequestHandling, observers, terminal)),
{
    lemma_handler_graph_computes_no_singleton(db, observers, terminal);
    let built = db.call_graph_of(GraphKind::RequestHandling, observers, terminal);
    let start = GraphState { errors: Seq::empty(), ..built };
    db.lemma_settle_keeps_nodes(start, 0, start);
    db.lemma_settle_adds_clones(start, 0, start, start.nodes.len() as int);
    let finished = db.finished_graph(GraphKind::RequestHandling, observers, terminal);
    assert forall|i: int| 0 <= i < finished.nodes.len() implies ((#[trigger] finished.nodes[i]) matches CallGraphNode::Compute {
        component_id,
    } ==> !db.is_singleton(component_id as int)) by {
        if i < built.nodes.len() {
            assert(finished.nodes[i] == built.nodes[i]);
        } else {
            assert(finished.nodes[i] is Duplicate);
        }
    }
}

/// Wiring the inputs of a component from the `j`-th on places, for an input
/// at or after `j` that a singleton produces, the input parameter that stands
/// for the singleton.
pub proof fn lemma_wire_inputs_place_singleton(
    db: ComponentDb,
    observers: Seq<UserComponentId>,
    c: UserComponentId,
    target: int,
    j: int,
    i: int,
    path: Seq<UserComponentId>,
    st: GraphState,
    p: UserComponentId,
)
    requires
        db.has(c),
        0 <= j <= i < db.components@[c as int].inputs@.len(),
        db.has(p),
        db.components@[p as int].lifecycle == Lifecycle::Singleton,
        db.resolution(
            GraphKind::RequestHandling,
            db.components@[c as int].inputs@[i].ty,
            db.components@[c as int].scope_id,
            c,
        ) == Ok::<Producer, ConfigErrorView>(Producer::Component(p)),
    ensures
        db.wire_inputs(GraphKind::RequestHandling, observers, c, target, j, path, st).nodes.contains(
            CallGraphNode::InputParameter {
                ty: db.components@[c as int].inputs@[i].ty,
                source: InputParameterSource::ApplicationState { component_id: p },
            },
        ),
    decreases i - j,
{
    let kind = GraphKind::RequestHandling;
    let node = CallGraphNode::InputParameter {
        ty: db.components@[c as int].inputs@[i].ty,
        source: InputParameterSource::ApplicationState { component_id: p },
    };
    let step = db.wire_input(kind, observers, c, target, j, path, st);
    if j == i {
        lemma_singleton_is_a_shared_input(db, observers, c, target, i, path, st, p);
        lemma_wire_inputs_extends(db, kind, observers, c, target, j + 1, path, step);
        let done = db.wire_inputs(kind, observers, c, target, j + 1, path, step);
        let k = choose|k: int| 0 <= k < step.nodes.len() && step.nodes[k] == node;
        assert(done.nodes[k] == node);
    } else {
        lemma_wire_inputs_place_singleton(db, observers, c, target, j + 1, i, path, step, p);
    }
}

/// Every request handler that needs a singleton holds, in its call graph,
/// the input parameter that stands for it: the one node, provided by the
/// application state, that all its consumers in the graph share. Two
/// handlers that need the same singleton each hold such a node, and neither
/// computes the singleton.
pub proof fn lemma_singleton_input_is_in_the_graph(
    db: ComponentDb,
    observers: Seq<UserComponentId>,
    handler: UserComponentId,
    i: int,
    p: UserComponentId,
)
    requires
        db.has(handler),
        db.first_injected(handler) <= i < db.components@[handler as int].inputs@.len(),
        db.has(p),
        db.components@[p as int].lifecycle == Lifecycle::Singleton,
        db.resolution(
            GraphKind::RequestHandling,
            db.components@[handler as int].inputs@[i].ty,
            db.components@[handler as int].scope_id,
            handler,
        ) == Ok::<Producer, ConfigErrorView>(Producer::Component(p)),
    ensures
        db.call_graph_of(GraphKind::RequestHandling, observers, handler).nodes.contains(
            CallGraphNode::InputParameter {
                ty: db.components@[handler as int].inputs@[i].ty,
                source: InputParameterSource::ApplicationState { component_id: p },
            },
        ),
{
    let kind = GraphKind::RequestHandling;
    let node = CallGraphNode::InputParameter {
        ty: db.components@[handler as int].inputs@[i].ty,
        source: InputParameterSource::ApplicationState { component_id: p },
    };
    let st = GraphState::empty();
    let none: Seq<UserComponentId> = Seq::empty();
    let at = 0int;
    let computed = st.with_node(CallGraphNode::Compute { component_id: handler });
    let branched = if db.fallible(handler) {
        computed.with_node(CallGraphNode::MatchBranching).with_edge(at, at + 1, EdgeKind::Outcome)
    } else {
        computed
    };
    let inner = none.push(handler);
    let wired = db.wire_inputs(kind, observers, handler, at, db.first_injected(handler), inner, branched);
    lemma_wire_inputs_place_singleton(db, observers, handler, at, db.first_injected(handler), i, inner, branched, p);
    let k = choose|k: int| 0 <= k < wired.nodes.len() && wired.nodes[k] == node;
    if db.fallible(handler) {
        lemma_on_error_extends(db, kind, observers, handler, at + 1, inner, wired);
    }
    let graph = db.call_graph_of(kind, observers, handler);
    assert(graph.nodes[k] == node);
}

} // verus!

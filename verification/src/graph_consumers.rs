//! A transient component is computed anew for each consumer: in every call
//! graph that the walk builds, no two consumers take the value of the same
//! node of a transient component.

use vstd::prelude::*;
use crate::call_graph::{
    lemma_unvisited_shrinks, unvisited, CallGraphEdge, CallGraphNode, EdgeKind, GraphState, InputParameterSource,
};
use crate::aliasing::{any_exclusive, consumer_edges, owner_of};
use crate::diagnostic::Failure;
use crate::graph_facts::{
    lemma_attach_sink_extends, lemma_expand_extends, lemma_notify_extends, lemma_on_error_extends,
    lemma_wire_input_extends, lemma_wire_inputs_extends,
};
use crate::model::{Lifecycle, UserComponentId};
use crate::resolver::{ComponentDb, GraphKind, Producer};

verus! {

impl ComponentDb {
    /// Whether node `i` computes a component and node `v` holds the value of
    /// that computation: node `i` itself, or its branch node if the component
    /// can fail.
    pub open spec fn holds_value_of(self, nodes: Seq<CallGraphNode>, i: int, v: int) -> bool {
        0 <= i < nodes.len() && (nodes[i] matches CallGraphNode::Compute { component_id } && self.has(component_id)
            && v == self.value_node(component_id, i))
    }

    /// Whether node `i` computes a transient component.
    pub open spec fn computes_transient(self, nodes: Seq<CallGraphNode>, i: int) -> bool {
        0 <= i < nodes.len() && (nodes[i] matches CallGraphNode::Compute { component_id } && self.has(component_id)
            && self.components@[component_id as int].lifecycle == Lifecycle::Transient)
    }

    /// Whether node `v` holds the value of a node that computes a transient
    /// component.
    pub open spec fn is_transient_value(self, nodes: Seq<CallGraphNode>, v: int) -> bool {
        exists|i: int| #[trigger] self.holds_value_of(nodes, i, v) && self.computes_transient(nodes, i)
    }

    /// Whether node `v` holds the value of a node that computes a component
    /// that is not transient: a value that consumers may share.
    pub open spec fn is_shared_value(self, nodes: Seq<CallGraphNode>, v: int) -> bool {
        exists|i: int| #[trigger] self.holds_value_of(nodes, i, v) && !self.computes_transient(nodes, i)
    }

    /// Whether no two consumers take the value of the same node of a
    /// transient component, and the graph is laid out as the walk lays it
    /// out: every edge leaves a node of the graph, and the node after a node
    /// that computes a fallible component is its branch node.
    pub open spec fn consumes_transients_once(self, st: GraphState) -> bool {
        &&& st.nodes.len() <= usize::MAX
        &&& forall|k: int|
            #![trigger st.nodes[k]]
            0 <= k < st.nodes.len() ==> (st.nodes[k] matches CallGraphNode::Compute { component_id } && self.fallible(
                component_id,
            ) ==> k + 1 < st.nodes.len() && st.nodes[k + 1] is MatchBranching)
        &&& forall|e: int| 0 <= e < st.edges.len() ==> (#[trigger] st.edges[e]).from < st.nodes.len()
        &&& forall|e1: int, e2: int|
            #![trigger st.edges[e1], st.edges[e2]]
            0 <= e1 < e2 < st.edges.len() && st.edges[e1].kind is Consume && st.edges[e2].kind is Consume
                && st.edges[e1].from == st.edges[e2].from ==> !self.is_transient_value(st.nodes, st.edges[e1].from as int)
    }

    /// Whether every edge that `after` has and `before` has not, if it hands a
    /// value to a consumer, leaves a node at or after `floor`, an input
    /// parameter, or a node whose value consumers may share.
    pub open spec fn consumes_from_above(self, before: GraphState, after: GraphState, floor: int) -> bool {
        forall|e: int|
            before.edges.len() <= e < after.edges.len() && (#[trigger] after.edges[e]).kind is Consume ==> {
                let from = after.edges[e].from as int;
                ||| from >= floor
                ||| (from < after.nodes.len() && after.nodes[from] is InputParameter)
                ||| self.is_shared_value(after.nodes, from)
            }
    }
}

/// In a graph laid out as the walk lays it out, a node that holds the value
/// of a transient component is no input parameter and holds no value that
/// consumers may share.
pub proof fn lemma_transient_value_is_its_own(db: ComponentDb, st: GraphState, v: int)
    requires
        db.consumes_transients_once(st),
        db.is_transient_value(st.nodes, v),
    ensures
        0 <= v < st.nodes.len(),
        !(st.nodes[v] is InputParameter),
        !db.is_shared_value(st.nodes, v),
{
    let i = choose|i: int| #[trigger] db.holds_value_of(st.nodes, i, v) && db.computes_transient(st.nodes, i);
    let t = st.nodes[i]->Compute_component_id;
    assert(st.nodes[i] is Compute);
    if db.fallible(t) {
        assert(st.nodes[i + 1] is MatchBranching);
    }
    if db.is_shared_value(st.nodes, v) {
        let k = choose|k: int| #[trigger] db.holds_value_of(st.nodes, k, v) && !db.computes_transient(st.nodes, k);
        let q = st.nodes[k]->Compute_component_id;
        assert(st.nodes[k] is Compute);
        if db.fallible(q) {
            assert(st.nodes[k + 1] is MatchBranching);
        }
        assert(k != i);
    }
}

/// What holds of a graph holds of it with more nodes after its nodes, as
/// long as the layout is kept: the value that a node holds is the value it
/// held.
pub proof fn lemma_values_are_kept(db: ComponentDb, before: Seq<CallGraphNode>, after: Seq<CallGraphNode>, v: int)
    requires
        before.len() <= after.len(),
        forall|i: int| 0 <= i < before.len() ==> after[i] == before[i],
    ensures
        db.is_shared_value(before, v) ==> db.is_shared_value(after, v),
        db.is_transient_value(before, v) ==> db.is_transient_value(after, v),
{
    if db.is_shared_value(before, v) {
        let i = choose|i: int| #[trigger] db.holds_value_of(before, i, v) && !db.computes_transient(before, i);
        assert(after[i] == before[i]);
        assert(db.holds_value_of(after, i, v) && !db.computes_transient(after, i));
    }
    if db.is_transient_value(before, v) {
        let i = choose|i: int| #[trigger] db.holds_value_of(before, i, v) && db.computes_transient(before, i);
        assert(after[i] == before[i]);
        assert(db.holds_value_of(after, i, v) && db.computes_transient(after, i));
    }
}

/// A node that holds the value of a transient component in a graph with more
/// nodes held it before, if it is one of the nodes that were there.
pub proof fn lemma_old_values_are_old(db: ComponentDb, before: Seq<CallGraphNode>, after: Seq<CallGraphNode>, v: int)
    requires
        before.len() <= after.len(),
        forall|i: int| 0 <= i < before.len() ==> after[i] == before[i],
        0 <= v < before.len(),
        db.is_transient_value(after, v),
    ensures
        db.is_transient_value(before, v),
{
    let i = choose|i: int| #[trigger] db.holds_value_of(after, i, v) && db.computes_transient(after, i);
    assert(i <= v);
    assert(after[i] == before[i]);
    assert(db.holds_value_of(before, i, v) && db.computes_transient(before, i));
}

/// Adding a failure changes nothing of what consumers take.
pub proof fn lemma_error_keeps_consumers(db: ComponentDb, st: GraphState, error: crate::diagnostic::ConfigErrorView)
    requires
        db.consumes_transients_once(st),
    ensures
        db.consumes_transients_once(st.with_error(error)),
        db.consumes_from_above(st, st.with_error(error), st.nodes.len() as int),
{
    let after = st.with_error(error);
    assert forall|e1: int, e2: int|
        #![trigger after.edges[e1], after.edges[e2]]
        0 <= e1 < e2 < after.edges.len() && after.edges[e1].kind is Consume && after.edges[e2].kind is Consume
            && after.edges[e1].from == after.edges[e2].from implies !db.is_transient_value(
        after.nodes,
        after.edges[e1].from as int,
    ) by {
        assert(st.edges[e1].from == st.edges[e2].from);
    }
}

/// Adding an edge keeps what holds of consumers, if the edge hands on no
/// value, or the value of a node that holds no value of a transient
/// component, or the value of a node that no consumer takes yet.
pub proof fn lemma_edge_keeps_consumers(db: ComponentDb, st: GraphState, from: int, to: int, kind: EdgeKind)
    requires
        db.consumes_transients_once(st),
        0 <= from < st.nodes.len(),
        kind is Consume ==> !db.is_transient_value(st.nodes, from) || forall|e: int|
            0 <= e < st.edges.len() && (#[trigger] st.edges[e]).kind is Consume ==> st.edges[e].from != from,
    ensures
        db.consumes_transients_once(st.with_edge(from, to, kind)),
{
    let after = st.with_edge(from, to, kind);
    assert forall|e: int| 0 <= e < after.edges.len() implies (#[trigger] after.edges[e]).from < after.nodes.len() by {
        if e < st.edges.len() {
            assert(after.edges[e] == st.edges[e]);
        }
    }
    assert forall|e1: int, e2: int|
        #![trigger after.edges[e1], after.edges[e2]]
        0 <= e1 < e2 < after.edges.len() && after.edges[e1].kind is Consume && after.edges[e2].kind is Consume
            && after.edges[e1].from == after.edges[e2].from implies !db.is_transient_value(
        after.nodes,
        after.edges[e1].from as int,
    ) by {
        assert(after.edges[e1] == st.edges[e1]);
        if e2 < st.edges.len() {
            assert(after.edges[e2] == st.edges[e2]);
            assert(st.edges[e1].from == st.edges[e2].from);
        } else {
            assert(st.edges[e1].from == from);
        }
    }
}

/// Placing an input parameter keeps what holds of consumers.
pub proof fn lemma_shared_node_keeps_consumers(db: ComponentDb, st: GraphState, node: CallGraphNode)
    requires
        db.consumes_transients_once(st),
        node is InputParameter,
        st.with_shared_node(node).nodes.len() <= usize::MAX,
    ensures
        db.consumes_transients_once(st.with_shared_node(node)),
        0 <= st.shared_node_index(node) < st.with_shared_node(node).nodes.len(),
        st.with_shared_node(node).nodes[st.shared_node_index(node)] == node,
        !db.is_transient_value(st.with_shared_node(node).nodes, st.shared_node_index(node)),
{
    st.nodes.index_of_first_ensures(node);
    let after = st.with_shared_node(node);
    if !st.nodes.contains(node) {
        assert(after.nodes[st.nodes.len() as int] == node);
        assert forall|k: int|
            #![trigger after.nodes[k]]
            0 <= k < after.nodes.len() implies (after.nodes[k] matches CallGraphNode::Compute { component_id }
            && db.fallible(component_id) ==> k + 1 < after.nodes.len() && after.nodes[k + 1] is MatchBranching) by {
            if k < st.nodes.len() {
                assert(after.nodes[k] == st.nodes[k]);
                if st.nodes[k] is Compute && k + 1 < st.nodes.len() {
                    assert(after.nodes[k + 1] == st.nodes[k + 1]);
                }
            }
        }
        assert forall|e1: int, e2: int|
            #![trigger after.edges[e1], after.edges[e2]]
            0 <= e1 < e2 < after.edges.len() && after.edges[e1].kind is Consume && after.edges[e2].kind is Consume
                && after.edges[e1].from == after.edges[e2].from implies !db.is_transient_value(
            after.nodes,
            after.edges[e1].from as int,
        ) by {
            assert(st.edges[e1].from == st.edges[e2].from);
            if db.is_transient_value(after.nodes, st.edges[e1].from as int) {
                lemma_old_values_are_old(db, st.nodes, after.nodes, st.edges[e1].from as int);
            }
        }
    }
    if db.is_transient_value(after.nodes, st.shared_node_index(node)) {
        lemma_transient_value_is_its_own(db, after, st.shared_node_index(node));
    }
}

/// What a step of the walk keeps: afterwards no two consumers take the value
/// of the same node of a transient component, what was there is there, and
/// what the step added to the consumers takes from above `floor`.
pub open spec fn keeps_consumers(db: ComponentDb, before: GraphState, after: GraphState, floor: int) -> bool {
    &&& db.consumes_transients_once(after)
    &&& db.consumes_from_above(before, after, floor)
    &&& after.extends(before)
}

/// Two steps in a row keep what each of them keeps.
pub proof fn lemma_steps_keep_consumers(
    db: ComponentDb,
    before: GraphState,
    between: GraphState,
    after: GraphState,
    floor: int,
    later_floor: int,
)
    requires
        between.extends(before),
        db.consumes_from_above(before, between, floor),
        keeps_consumers(db, between, after, later_floor),
        floor <= later_floor,
    ensures
        keeps_consumers(db, before, after, floor),
{
    assert forall|e: int|
        before.edges.len() <= e < after.edges.len() && (#[trigger] after.edges[e]).kind is Consume implies {
        let from = after.edges[e].from as int;
        ||| from >= floor
        ||| (from < after.nodes.len() && after.nodes[from] is InputParameter)
        ||| db.is_shared_value(after.nodes, from)
    } by {
        if e < between.edges.len() {
            assert(after.edges[e] == between.edges[e]);
            let from = between.edges[e].from as int;
            if from < between.nodes.len() && between.nodes[from] is InputParameter {
                assert(after.nodes[from] == between.nodes[from]);
            }
            lemma_values_are_kept(db, between.nodes, after.nodes, from);
        }
    }
}

/// Expanding a component keeps what holds of consumers, and no consumer
/// takes the value of the new node yet.
pub proof fn lemma_expand_keeps_consumers(
    db: ComponentDb,
    kind: GraphKind,
    observers: Seq<UserComponentId>,
    c: UserComponentId,
    path: Seq<UserComponentId>,
    st: GraphState,
)
    requires
        db.consumes_transients_once(st),
        db.expand(kind, observers, c, path, st).nodes.len() <= usize::MAX,
    ensures
        keeps_consumers(
            db,
            st,
            db.expand(kind, observers, c, path, st),
            db.value_node(c, st.nodes.len() as int) + 1,
        ),
    decreases unvisited(db.components@.len() as int, path).len(), 0int, 0int,
{
    let done = db.expand(kind, observers, c, path, st);
    let at = st.nodes.len() as int;
    let floor = db.value_node(c, at) + 1;
    if db.has(c) && !path.contains(c) {
        lemma_unvisited_shrinks(db.components@.len() as int, path, c);
        let fallible = db.fallible(c);
        let computed = st.with_node(CallGraphNode::Compute { component_id: c });
        let branched = if fallible {
            computed.with_node(CallGraphNode::MatchBranching).with_edge(at, at + 1, EdgeKind::Outcome)
        } else {
            computed
        };
        let inner_path = path.push(c);
        let wired = db.wire_inputs(kind, observers, c, at, db.first_injected(c), inner_path, branched);
        lemma_wire_inputs_extends(db, kind, observers, c, at, db.first_injected(c), inner_path, branched);
        if fallible && kind == GraphKind::RequestHandling {
            lemma_on_error_extends(db, kind, observers, c, at + 1, inner_path, wired);
        }
        assert(wired.nodes.len() <= done.nodes.len());
        assert(db.consumes_transients_once(branched)) by {
            assert forall|k: int|
                #![trigger branched.nodes[k]]
                0 <= k < branched.nodes.len() implies (branched.nodes[k] matches CallGraphNode::Compute {
                component_id,
            } && db.fallible(component_id) ==> k + 1 < branched.nodes.len() && branched.nodes[k + 1]
                is MatchBranching) by {
                if k < at {
                    assert(branched.nodes[k] == st.nodes[k]);
                    if st.nodes[k] is Compute && k + 1 < st.nodes.len() {
                        assert(branched.nodes[k + 1] == st.nodes[k + 1]);
                    }
                }
            }
            assert forall|e: int| 0 <= e < branched.edges.len() implies (#[trigger] branched.edges[e]).from
                < branched.nodes.len() by {
                if e < st.edges.len() {
                    assert(branched.edges[e] == st.edges[e]);
                }
            }
            assert forall|e1: int, e2: int|
                #![trigger branched.edges[e1], branched.edges[e2]]
                0 <= e1 < e2 < branched.edges.len() && branched.edges[e1].kind is Consume && branched.edges[e2].kind
                    is Consume && branched.edges[e1].from == branched.edges[e2].from implies !db.is_transient_value(
                branched.nodes,
                branched.edges[e1].from as int,
            ) by {
                assert(branched.edges[e1] == st.edges[e1]);
                assert(branched.edges[e2] == st.edges[e2]);
                assert(st.edges[e1].from == st.edges[e2].from);
                if db.is_transient_value(branched.nodes, st.edges[e1].from as int) {
                    lemma_old_values_are_old(db, st.nodes, branched.nodes, st.edges[e1].from as int);
                }
            }
        }
        assert(branched.extends(st));
        assert(db.consumes_from_above(st, branched, floor));
        assert(branched.nodes.len() == floor);
        lemma_wire_inputs_keep_consumers(db, kind, observers, c, at, db.first_injected(c), inner_path, branched);
        lemma_steps_keep_consumers(db, st, branched, wired, floor, floor);
        if fallible && kind == GraphKind::RequestHandling {
            lemma_on_error_keeps_consumers(db, kind, observers, c, at + 1, inner_path, wired);
            lemma_steps_keep_consumers(db, st, wired, done, floor, wired.nodes.len() as int);
        }
    } else {
        assert(done == st);
    }
}

/// Wiring the inputs of a component keeps what holds of consumers.
pub proof fn lemma_wire_inputs_keep_consumers(
    db: ComponentDb,
    kind: GraphKind,
    observers: Seq<UserComponentId>,
    c: UserComponentId,
    target: int,
    i: int,
    path: Seq<UserComponentId>,
    st: GraphState,
)
    requires
        db.consumes_transients_once(st),
        db.wire_inputs(kind, observers, c, target, i, path, st).nodes.len() <= usize::MAX,
    ensures
        keeps_consumers(db, st, db.wire_inputs(kind, observers, c, target, i, path, st), st.nodes.len() as int),
    decreases unvisited(db.components@.len() as int, path).len(), 2int, db.components@[c as int].inputs@.len() - i,
{
    if db.has(c) && 0 <= i < db.components@[c as int].inputs@.len() {
        let step = db.wire_input(kind, observers, c, target, i, path, st);
        let rest = db.wire_inputs(kind, observers, c, target, i + 1, path, step);
        lemma_wire_inputs_extends(db, kind, observers, c, target, i + 1, path, step);
        lemma_wire_input_keeps_consumers(db, kind, observers, c, target, i, path, st);
        lemma_wire_inputs_keep_consumers(db, kind, observers, c, target, i + 1, path, step);
        lemma_steps_keep_consumers(db, st, step, rest, st.nodes.len() as int, step.nodes.len() as int);
    }
}

/// Wiring one input keeps what holds of consumers: the consumer is wired to
/// an input parameter, to a value that consumers may share, or to a node that
/// was computed for it alone.
pub proof fn lemma_wire_input_keeps_consumers(
    db: ComponentDb,
    kind: GraphKind,
    observers: Seq<UserComponentId>,
    c: UserComponentId,
    target: int,
    i: int,
    path: Seq<UserComponentId>,
    st: GraphState,
)
    requires
        db.consumes_transients_once(st),
        db.wire_input(kind, observers, c, target, i, path, st).nodes.len() <= usize::MAX,
    ensures
        keeps_consumers(db, st, db.wire_input(kind, observers, c, target, i, path, st), st.nodes.len() as int),
    decreases unvisited(db.components@.len() as int, path).len(), 1int, 0int,
{
    let input = db.components@[c as int].inputs@[i];
    let consume = EdgeKind::Consume(input.access);
    let done = db.wire_input(kind, observers, c, target, i, path, st);
    lemma_wire_input_extends(db, kind, observers, c, target, i, path, st);
    match db.resolution(kind, input.ty, db.components@[c as int].scope_id, c) {
        Err(e) => {
            lemma_error_keeps_consumers(db, st, e);
        },
        Ok(Producer::Framework) => {
            let node = CallGraphNode::InputParameter { ty: input.ty, source: InputParameterSource::Framework };
            lemma_shared_node_keeps_consumers(db, st, node);
            lemma_edge_keeps_consumers(db, st.with_shared_node(node), st.shared_node_index(node), target, consume);
            assert(done.nodes[st.shared_node_index(node)] is InputParameter);
        },
        Ok(Producer::Component(p)) => {
            let shared = db.shared_node_of(kind, p, input.ty);
            if !db.has(p) {
            } else if shared is InputParameter {
                lemma_shared_node_keeps_consumers(db, st, shared);
                lemma_edge_keeps_consumers(db, st.with_shared_node(shared), st.shared_node_index(shared), target, consume);
                assert(done.nodes[st.shared_node_index(shared)] is InputParameter);
            } else if path.contains(p) {
                lemma_error_keeps_consumers(db, st, Failure::Cycle { participants: crate::call_graph::cycle_of(path, p) });
            } else if db.components@[p as int].lifecycle != Lifecycle::Transient && st.nodes.contains(shared) {
                st.nodes.index_of_first_ensures(shared);
                let k = st.shared_node_index(shared);
                assert(st.nodes[k] == shared);
                let v = db.value_node(p, k);
                assert(db.holds_value_of(st.nodes, k, v) && !db.computes_transient(st.nodes, k));
                assert(db.is_shared_value(st.nodes, v));
                if db.is_transient_value(st.nodes, v) {
                    lemma_transient_value_is_its_own(db, st, v);
                }
                lemma_edge_keeps_consumers(db, st, v, target, consume);
            } else {
                let at = st.nodes.len() as int;
                let expanded = db.expand(kind, observers, p, path, st);
                lemma_expand_extends(db, kind, observers, p, path, st);
                lemma_expand_keeps_consumers(db, kind, observers, p, path, st);
                let v = db.value_node(p, at);
                assert(expanded.nodes[at] == CallGraphNode::Compute { component_id: p });
                assert(db.holds_value_of(expanded.nodes, at, v));
                if db.computes_transient(expanded.nodes, at) {
                    // No consumer takes the value of the new node yet.
                    assert forall|e: int|
                        0 <= e < expanded.edges.len() && (#[trigger] expanded.edges[e]).kind is Consume implies expanded.edges[e].from
                        != v by {
                        if e < st.edges.len() {
                            assert(expanded.edges[e] == st.edges[e]);
                        } else if expanded.edges[e].from == v {
                            assert(db.is_transient_value(expanded.nodes, v));
                            lemma_transient_value_is_its_own(db, expanded, v);
                        }
                    }
                } else {
                    assert(db.is_shared_value(expanded.nodes, v));
                    if db.is_transient_value(expanded.nodes, v) {
                        lemma_transient_value_is_its_own(db, expanded, v);
                    }
                }
                lemma_edge_keeps_consumers(db, expanded, v, target, consume);
            }
        },
    }
}

/// What follows a failure keeps what holds of consumers.
pub proof fn lemma_on_error_keeps_consumers(
    db: ComponentDb,
    kind: GraphKind,
    observers: Seq<UserComponentId>,
    c: UserComponentId,
    branch: int,
    path: Seq<UserComponentId>,
    st: GraphState,
)
    requires
        db.consumes_transients_once(st),
        0 <= branch < st.nodes.len(),
        db.on_error(kind, observers, c, branch, path, st).nodes.len() <= usize::MAX,
    ensures
        keeps_consumers(db, st, db.on_error(kind, observers, c, branch, path, st), st.nodes.len() as int),
    decreases unvisited(db.components@.len() as int, path).len(), 4int, 0int,
{
    let handled = match db.components@[c as int].error_handler {
        Some(handler) => db.attach_sink(kind, observers, handler, branch, path, st),
        None => st.with_error(Failure::MissingErrorHandler { fallible: c }),
    };
    let done = db.on_error(kind, observers, c, branch, path, st);
    lemma_notify_extends(db, kind, observers, branch, 0, path, handled);
    match db.components@[c as int].error_handler {
        Some(handler) => {
            lemma_attach_sink_extends(db, kind, observers, handler, branch, path, st);
            lemma_attach_sink_keeps_consumers(db, kind, observers, handler, branch, path, st);
        },
        None => {
            lemma_error_keeps_consumers(db, st, Failure::MissingErrorHandler { fallible: c });
        },
    }
    lemma_notify_keeps_consumers(db, kind, observers, branch, 0, path, handled);
    lemma_steps_keep_consumers(db, st, handled, done, st.nodes.len() as int, handled.nodes.len() as int);
}

/// The error observers keep what holds of consumers.
pub proof fn lemma_notify_keeps_consumers(
    db: ComponentDb,
    kind: GraphKind,
    observers: Seq<UserComponentId>,
    branch: int,
    k: int,
    path: Seq<UserComponentId>,
    st: GraphState,
)
    requires
        db.consumes_transients_once(st),
        0 <= branch < st.nodes.len(),
        db.notify(kind, observers, branch, k, path, st).nodes.len() <= usize::MAX,
    ensures
        keeps_consumers(db, st, db.notify(kind, observers, branch, k, path, st), st.nodes.len() as int),
    decreases unvisited(db.components@.len() as int, path).len(), 3int, observers.len() - k,
{
    if 0 <= k < observers.len() {
        let step = db.attach_sink(kind, observers, observers[k], branch, path, st);
        let rest = db.notify(kind, observers, branch, k + 1, path, step);
        lemma_notify_extends(db, kind, observers, branch, k + 1, path, step);
        lemma_attach_sink_extends(db, kind, observers, observers[k], branch, path, st);
        lemma_attach_sink_keeps_consumers(db, kind, observers, observers[k], branch, path, st);
        lemma_notify_keeps_consumers(db, kind, observers, branch, k + 1, path, step);
        lemma_steps_keep_consumers(db, st, step, rest, st.nodes.len() as int, step.nodes.len() as int);
    }
}

/// An error handler or an error observer keeps what holds of consumers.
pub proof fn lemma_attach_sink_keeps_consumers(
    db: ComponentDb,
    kind: GraphKind,
    observers: Seq<UserComponentId>,
    sink: UserComponentId,
    branch: int,
    path: Seq<UserComponentId>,
    st: GraphState,
)
    requires
        db.consumes_transients_once(st),
        0 <= branch < st.nodes.len(),
        db.attach_sink(kind, observers, sink, branch, path, st).nodes.len() <= usize::MAX,
    ensures
        keeps_consumers(db, st, db.attach_sink(kind, observers, sink, branch, path, st), st.nodes.len() as int),
    decreases unvisited(db.components@.len() as int, path).len(), 1int, 0int,
{
    lemma_attach_sink_extends(db, kind, observers, sink, branch, path, st);
    if !db.is_sink(sink) {
    } else if path.contains(sink) {
        lemma_error_keeps_consumers(db, st, Failure::Cycle { participants: crate::call_graph::cycle_of(path, sink) });
    } else {
        lemma_expand_extends(db, kind, observers, sink, path, st);
        lemma_expand_keeps_consumers(db, kind, observers, sink, path, st);
        let expanded = db.expand(kind, observers, sink, path, st);
        lemma_edge_keeps_consumers(db, expanded, branch, st.nodes.len() as int, EdgeKind::Error);
    }
}

/// In the call graph of a component no two consumers take the value of the
/// same node of a transient component: a transient component that is
/// consumed twice is computed by two nodes, each with its own consumer.
pub proof fn lemma_transients_are_consumed_once(
    db: ComponentDb,
    kind: GraphKind,
    observers: Seq<UserComponentId>,
    terminal: UserComponentId,
)
    requires
        db.call_graph_of(kind, observers, terminal).nodes.len() <= usize::MAX,
    ensures
        db.consumes_transients_once(db.call_graph_of(kind, observers, terminal)),
{
    let start = GraphState::empty();
    assert(db.consumes_transients_once(start));
    lemma_expand_keeps_consumers(db, kind, observers, terminal, Seq::empty(), start);
}

/// What holds of consumers depends on the nodes and the edges alone.
pub proof fn lemma_same_shape_same_consumers(db: ComponentDb, st: GraphState, other: GraphState)
    requires
        db.consumes_transients_once(st),
        other.nodes == st.nodes,
        other.edges == st.edges,
    ensures
        db.consumes_transients_once(other),
{
    assert forall|e1: int, e2: int|
        #![trigger other.edges[e1], other.edges[e2]]
        0 <= e1 < e2 < other.edges.len() && other.edges[e1].kind is Consume && other.edges[e2].kind is Consume
            && other.edges[e1].from == other.edges[e2].from implies !db.is_transient_value(
        other.nodes,
        other.edges[e1].from as int,
    ) by {
        assert(st.edges[e1].from == st.edges[e2].from);
    }
}

/// Adding a clone keeps what holds of consumers.
pub proof fn lemma_clone_node_keeps_consumers(db: ComponentDb, st: GraphState, c: UserComponentId)
    requires
        db.consumes_transients_once(st),
        st.nodes.len() < usize::MAX,
    ensures
        db.consumes_transients_once(st.with_node(CallGraphNode::Duplicate { component_id: c })),
        !db.is_transient_value(st.with_node(CallGraphNode::Duplicate { component_id: c }).nodes, st.nodes.len() as int),
{
    let after = st.with_node(CallGraphNode::Duplicate { component_id: c });
    assert forall|k: int|
        #![trigger after.nodes[k]]
        0 <= k < after.nodes.len() implies (after.nodes[k] matches CallGraphNode::Compute { component_id } && db.fallible(
        component_id,
    ) ==> k + 1 < after.nodes.len() && after.nodes[k + 1] is MatchBranching) by {
        if k < st.nodes.len() {
            assert(after.nodes[k] == st.nodes[k]);
            if st.nodes[k] is Compute && k + 1 < st.nodes.len() {
                assert(after.nodes[k + 1] == st.nodes[k + 1]);
            }
        }
    }
    assert forall|e1: int, e2: int|
        #![trigger after.edges[e1], after.edges[e2]]
        0 <= e1 < e2 < after.edges.len() && after.edges[e1].kind is Consume && after.edges[e2].kind is Consume
            && after.edges[e1].from == after.edges[e2].from implies !db.is_transient_value(
        after.nodes,
        after.edges[e1].from as int,
    ) by {
        assert(st.edges[e1].from == st.edges[e2].from);
        if db.is_transient_value(after.nodes, st.edges[e1].from as int) {
            lemma_old_values_are_old(db, st.nodes, after.nodes, st.edges[e1].from as int);
        }
    }
    if db.is_transient_value(after.nodes, st.nodes.len() as int) {
        let i = choose|i: int|
            #[trigger] db.holds_value_of(after.nodes, i, st.nodes.len() as int) && db.computes_transient(after.nodes, i);
        assert(after.nodes[st.nodes.len() as int] is Duplicate);
        let t = after.nodes[i]->Compute_component_id;
        if db.fallible(t) {
            assert(after.nodes[i + 1] is MatchBranching);
        }
    }
}

/// Handing an edge over to a clone that no edge leaves yet keeps what holds
/// of consumers.
pub proof fn lemma_redirect_keeps_consumers(db: ComponentDb, st: GraphState, e: int, at: int)
    requires
        db.consumes_transients_once(st),
        0 <= at < st.nodes.len(),
        forall|x: int| 0 <= x < st.edges.len() ==> (#[trigger] st.edges[x]).from != at,
    ensures
        db.consumes_transients_once(st.redirected(e, at)),
{
    let after = st.redirected(e, at);
    if 0 <= e < st.edges.len() {
        assert forall|x: int| 0 <= x < after.edges.len() implies (#[trigger] after.edges[x]).from < after.nodes.len() by {
            if x != e {
                assert(after.edges[x] == st.edges[x]);
            }
        }
        assert forall|e1: int, e2: int|
            #![trigger after.edges[e1], after.edges[e2]]
            0 <= e1 < e2 < after.edges.len() && after.edges[e1].kind is Consume && after.edges[e2].kind is Consume
                && after.edges[e1].from == after.edges[e2].from implies !db.is_transient_value(
            after.nodes,
            after.edges[e1].from as int,
        ) by {
            if e1 != e && e2 != e {
                assert(after.edges[e1] == st.edges[e1]);
                assert(after.edges[e2] == st.edges[e2]);
                assert(st.edges[e1].from == st.edges[e2].from);
            } else if e1 == e {
                assert(after.edges[e2] == st.edges[e2]);
                assert(st.edges[e2].from != at);
            } else {
                assert(after.edges[e1] == st.edges[e1]);
                assert(st.edges[e1].from != at);
            }
        }
    }
}

impl ComponentDb {
    /// Giving consumers a clone of their own keeps what holds of consumers.
    pub proof fn lemma_duplicate_for_keeps_consumers(
        self,
        c: UserComponentId,
        v: int,
        listed: Seq<usize>,
        k: int,
        st: GraphState,
    )
        requires
            self.consumes_transients_once(st),
            0 <= v < st.nodes.len(),
            0 <= k,
            self.duplicate_for(c, v, listed, k, st).nodes.len() <= usize::MAX,
        ensures
            self.consumes_transients_once(self.duplicate_for(c, v, listed, k, st)),
        decreases listed.len() - k,
    {
        if k < listed.len() {
            let at = st.nodes.len() as int;
            let cloned = st.with_node(CallGraphNode::Duplicate { component_id: c });
            let wired = cloned.with_edge(v, at, EdgeKind::Clone);
            let next = wired.redirected(listed[k] as int, at);
            self.lemma_duplicate_for(c, v, listed, k + 1, next);
            lemma_clone_node_keeps_consumers(self, st, c);
            lemma_edge_keeps_consumers(self, cloned, v, at, EdgeKind::Clone);
            assert forall|x: int| 0 <= x < wired.edges.len() implies (#[trigger] wired.edges[x]).from != at by {
                if x < st.edges.len() {
                    assert(wired.edges[x] == st.edges[x]);
                }
            }
            lemma_redirect_keeps_consumers(self, wired, listed[k] as int, at);
            self.lemma_duplicate_for_keeps_consumers(c, v, listed, k + 1, next);
        }
    }

    /// The ownership check keeps what holds of consumers.
    pub proof fn lemma_settle_keeps_consumers(self, given: GraphState, v: int, st: GraphState)
        requires
            self.consumes_transients_once(st),
            given.nodes.len() <= st.nodes.len(),
            0 <= v,
            self.settle_from(given, v, st).nodes.len() <= usize::MAX,
        ensures
            self.consumes_transients_once(self.settle_from(given, v, st)),
        decreases given.nodes.len() - v,
    {
        if v < given.nodes.len() {
            let step = self.settle_node(given, v, st);
            self.lemma_settle_keeps_nodes(given, v + 1, step);
            self.lemma_settle_node_keeps_nodes(given, v, st);
            let listed = consumer_edges(given.edges, v, given.edges.len() as int);
            if listed.len() >= 2 && any_exclusive(given.edges, listed, listed.len() as int) {
                match owner_of(given.nodes, v) {
                    Some(c) => {
                        if self.may_clone(c) {
                            self.lemma_duplicate_for_keeps_consumers(c, v, listed, 1, st);
                        } else {
                            lemma_error_keeps_consumers(self, st, self.conflict_at(given, v));
                        }
                    },
                    None => {
                        lemma_error_keeps_consumers(self, st, self.conflict_at(given, v));
                    },
                }
            }
            self.lemma_settle_keeps_consumers(given, v + 1, step);
        }
    }

    /// In the finished call graph of a component no two consumers take the
    /// value of the same node of a transient component.
    pub proof fn lemma_finished_graph_consumes_transients_once(
        self,
        kind: GraphKind,
        observers: Seq<UserComponentId>,
        terminal: UserComponentId,
    )
        requires
            self.finished_graph(kind, observers, terminal).nodes.len() <= usize::MAX,
        ensures
            self.consumes_transients_once(self.finished_graph(kind, observers, terminal)),
    {
        let built = self.call_graph_of(kind, observers, terminal);
        let start = GraphState { errors: Seq::empty(), ..built };
        self.lemma_settle_keeps_nodes(start, 0, start);
        lemma_transients_are_consumed_once(self, kind, observers, terminal);
        lemma_same_shape_same_consumers(self, built, start);
        self.lemma_settle_keeps_consumers(start, 0, start);
        lemma_same_shape_same_consumers(self, self.settled(start), self.finished_graph(kind, observers, terminal));
    }

    /// Storing the singletons keeps what holds of consumers.
    pub proof fn lemma_store_singletons_keep_consumers(self, c: int, st: GraphState)
        requires
            self.consumes_transients_once(st),
            st.nodes.len() > 0,
            self.store_singletons_from(c, st).nodes.len() <= usize::MAX,
        ensures
            self.consumes_transients_once(self.store_singletons_from(c, st)),
        decreases self.components@.len() - c,
    {
        if 0 <= c < self.components@.len() {
            if self.is_singleton(c) {
                let id = c as usize;
                let stored = self.store_singleton(id, st);
                crate::graph_order::lemma_store_singletons_extends(self, c + 1, stored);
                crate::graph_order::lemma_store_singleton_extends(self, id, st);
                let shared = CallGraphNode::Compute { component_id: id };
                let none: Seq<UserComponentId> = Seq::empty();
                if st.nodes.contains(shared) {
                    st.nodes.index_of_first_ensures(shared);
                    let k = st.shared_node_index(shared);
                    assert(st.nodes[k] == shared);
                    if self.fallible(id) {
                        assert(st.nodes[k + 1] is MatchBranching);
                    }
                    lemma_edge_keeps_consumers(self, st, self.value_node(id, k), 0, EdgeKind::Store);
                } else {
                    lemma_expand_extends(self, GraphKind::ApplicationState, none, id, none, st);
                    lemma_expand_keeps_consumers(self, GraphKind::ApplicationState, none, id, none, st);
                    let expanded = self.expand(GraphKind::ApplicationState, none, id, none, st);
                    let at = st.nodes.len() as int;
                    assert(expanded.nodes[at] == shared);
                    if self.fallible(id) {
                        assert(expanded.nodes[at + 1] is MatchBranching);
                    }
                    lemma_edge_keeps_consumers(self, expanded, self.value_node(id, at), 0, EdgeKind::Store);
                }
                self.lemma_store_singletons_keep_consumers(c + 1, stored);
            } else {
                self.lemma_store_singletons_keep_consumers(c + 1, st);
            }
        }
    }

    /// In the finished graph of the application state no two consumers take
    /// the value of the same node of a transient component.
    pub proof fn lemma_finished_state_graph_consumes_transients_once(self)
        requires
            self.finished_state_graph().nodes.len() <= usize::MAX,
        ensures
            self.consumes_transients_once(self.finished_state_graph()),
    {
        let first = GraphState::empty().with_node(CallGraphNode::StateAggregate);
        let built = self.state_graph();
        let start = GraphState { errors: Seq::empty(), ..built };
        self.lemma_settle_keeps_nodes(start, 0, start);
        crate::graph_order::lemma_store_singletons_extends(self, 0, first);
        assert(self.consumes_transients_once(first));
        self.lemma_store_singletons_keep_consumers(0, first);
        lemma_same_shape_same_consumers(self, built, start);
        self.lemma_settle_keeps_consumers(start, 0, start);
        lemma_same_shape_same_consumers(self, self.settled(start), self.finished_state_graph());
    }
}

} // verus!

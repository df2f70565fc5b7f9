//! Two components that need each other never end up in a graph without a
//! failure that names them both.

use vstd::prelude::*;
use crate::call_graph::{cycle_of, lemma_unvisited_shrinks, unvisited, CallGraphNode, EdgeKind, GraphState, InputParameterSource};
use crate::diagnostic::{ConfigErrorView, Failure};
use crate::graph_facts::{
    lemma_attach_sink_extends, lemma_expand_extends, lemma_notify_extends, lemma_on_error_extends,
    lemma_wire_input_extends, lemma_wire_inputs_extends,
};
use crate::model::{Lifecycle, UserComponentId};
use crate::resolver::{lemma_resolution_in_range, ComponentDb, GraphKind, Producer};

verus! {

/// The two components of a pair that need each other, and the input of each
/// that the other produces.
pub struct MutualNeed {
    pub a: UserComponentId,
    pub a_input: int,
    pub b: UserComponentId,
    pub b_input: int,
}

impl MutualNeed {
    /// Whether `x` is one of the two.
    pub open spec fn has(self, x: UserComponentId) -> bool {
        x == self.a || x == self.b
    }

    /// The other of the two.
    pub open spec fn partner(self, x: UserComponentId) -> UserComponentId {
        if x == self.a {
            self.b
        } else {
            self.a
        }
    }

    /// The input of `x` that its partner produces.
    pub open spec fn input_of(self, x: UserComponentId) -> int {
        if x == self.a {
            self.a_input
        } else {
            self.b_input
        }
    }
}

impl ComponentDb {
    /// Whether input `i` of `x` is produced by `y` alone, in a graph of this
    /// kind. (A singleton is no part of a request-handling graph.)
    pub open spec fn needs(self, kind: GraphKind, x: UserComponentId, i: int, y: UserComponentId) -> bool {
        &&& self.has(x)
        &&& 0 <= i < self.components@[x as int].inputs@.len()
        &&& self.resolution(kind, self.components@[x as int].inputs@[i].ty, self.components@[x as int].scope_id, x)
            == Ok::<Producer, ConfigErrorView>(Producer::Component(y))
        &&& (kind == GraphKind::RequestHandling ==> self.components@[y as int].lifecycle != Lifecycle::Singleton)
    }

    /// Whether the two components of `pair` need each other.
    pub open spec fn need_each_other(self, kind: GraphKind, pair: MutualNeed) -> bool {
        &&& pair.a != pair.b
        &&& self.needs(kind, pair.a, pair.a_input, pair.b)
        &&& self.needs(kind, pair.b, pair.b_input, pair.a)
    }
}

/// Whether one of the failures is a cycle that names both components of the
/// pair.
pub open spec fn names_both(errors: Seq<ConfigErrorView>, pair: MutualNeed) -> bool {
    exists|k: int|
        0 <= k < errors.len() && ((#[trigger] errors[k]) matches Failure::Cycle { participants }
            && participants.contains(pair.a) && participants.contains(pair.b))
}

/// Whether a node of the state computes `x`.
pub open spec fn computes(st: GraphState, x: UserComponentId) -> bool {
    st.nodes.contains(CallGraphNode::Compute { component_id: x })
}

/// What holds while the walk is under way: a component of the pair that a
/// node computes is still being expanded, or the cycle was reported.
pub open spec fn cycle_is_caught(st: GraphState, path: Seq<UserComponentId>, pair: MutualNeed) -> bool {
    &&& computes(st, pair.a) ==> path.contains(pair.a) || names_both(st.errors, pair)
    &&& computes(st, pair.b) ==> path.contains(pair.b) || names_both(st.errors, pair)
}

/// A cycle that was reported stays reported.
pub proof fn lemma_names_both_is_kept(earlier: GraphState, later: GraphState, pair: MutualNeed)
    requires
        later.extends(earlier),
        names_both(earlier.errors, pair),
    ensures
        names_both(later.errors, pair),
{
    let k = choose|k: int|
        0 <= k < earlier.errors.len() && ((#[trigger] earlier.errors[k]) matches Failure::Cycle { participants }
            && participants.contains(pair.a) && participants.contains(pair.b));
    assert(later.errors[k] == earlier.errors[k]);
}

/// A node that computes a component was added by a step, or was there
/// before.
pub proof fn lemma_computed_before_or_new(before: GraphState, after: GraphState, x: UserComponentId, added: Seq<
    CallGraphNode,
>)
    requires
        after.nodes == before.nodes + added,
        computes(after, x),
        !added.contains(CallGraphNode::Compute { component_id: x }),
    ensures
        computes(before, x),
{
    let node = CallGraphNode::Compute { component_id: x };
    let i = choose|i: int| 0 <= i < after.nodes.len() && after.nodes[i] == node;
    if i >= before.nodes.len() {
        assert(added[i - before.nodes.len()] == node);
    }
    assert(before.nodes[i] == node);
}

/// The chain that closes on a component of the path names that component and
/// the component that the path ends with.
pub proof fn lemma_cycle_names_both_ends(path: Seq<UserComponentId>, y: UserComponentId)
    requires
        path.len() > 0,
        path.contains(y),
    ensures
        cycle_of(path, y).contains(y),
        cycle_of(path, y).contains(path.last()),
{
    path.index_of_first_ensures(y);
    let first = path.index_of_first(y)->0;
    let chain = path.skip(first);
    assert(chain[0] == y);
    assert(chain[chain.len() - 1] == path.last());
}

/// A node that computes a component stays.
pub proof fn lemma_computes_is_kept(earlier: GraphState, later: GraphState, x: UserComponentId)
    requires
        later.extends(earlier),
        computes(earlier, x),
    ensures
        computes(later, x),
{
    let node = CallGraphNode::Compute { component_id: x };
    let i = choose|i: int| 0 <= i < earlier.nodes.len() && earlier.nodes[i] == node;
    assert(later.nodes[i] == node);
}

/// Adding a failure keeps what was caught.
pub proof fn lemma_error_keeps_caught(st: GraphState, path: Seq<UserComponentId>, pair: MutualNeed, error: ConfigErrorView)
    requires
        cycle_is_caught(st, path, pair),
    ensures
        cycle_is_caught(st.with_error(error), path, pair),
{
    let after = st.with_error(error);
    if names_both(st.errors, pair) {
        lemma_names_both_is_kept(st, after, pair);
    }
}

/// Placing an input parameter keeps what was caught.
pub proof fn lemma_shared_node_keeps_caught(st: GraphState, path: Seq<UserComponentId>, pair: MutualNeed, node: CallGraphNode)
    requires
        cycle_is_caught(st, path, pair),
        node is InputParameter,
    ensures
        cycle_is_caught(st.with_shared_node(node), path, pair),
{
    let after = st.with_shared_node(node);
    if !st.nodes.contains(node) {
        assert(after.nodes =~= st.nodes + seq![node]);
        if computes(after, pair.a) {
            lemma_computed_before_or_new(st, after, pair.a, seq![node]);
        }
        if computes(after, pair.b) {
            lemma_computed_before_or_new(st, after, pair.b, seq![node]);
        }
    }
}

/// A member of a path is a member of the path with one more component.
pub proof fn lemma_longer_path_contains(path: Seq<UserComponentId>, c: UserComponentId, x: UserComponentId)
    ensures
        path.contains(x) ==> path.push(c).contains(x),
        path.push(c).contains(c),
        path.push(c).contains(x) && x != c ==> path.contains(x),
        path.push(c).last() == c,
{
    if path.contains(x) {
        let i = choose|i: int| 0 <= i < path.len() && path[i] == x;
        assert(path.push(c)[i] == x);
    }
    assert(path.push(c)[path.len() as int] == c);
    if path.push(c).contains(x) && x != c {
        let i = choose|i: int| 0 <= i < path.push(c).len() && path.push(c)[i] == x;
        assert(path[i] == x);
    }
}

/// Expanding a component keeps what was caught: if it is one of the two, the
/// cycle is reported before its expansion ends.
pub proof fn lemma_expand_catches_cycle(
    db: ComponentDb,
    kind: GraphKind,
    observers: Seq<UserComponentId>,
    c: UserComponentId,
    path: Seq<UserComponentId>,
    st: GraphState,
    pair: MutualNeed,
)
    requires
        db.need_each_other(kind, pair),
        cycle_is_caught(st, path, pair),
    ensures
        cycle_is_caught(db.expand(kind, observers, c, path, st), path, pair),
    decreases unvisited(db.components@.len() as int, path).len(), 0int, 0int,
{
    if db.has(c) && !path.contains(c) {
        lemma_unvisited_shrinks(db.components@.len() as int, path, c);
        let at = st.nodes.len() as int;
        let fallible = db.fallible(c);
        let node = CallGraphNode::Compute { component_id: c };
        let computed = st.with_node(node);
        let branched = if fallible {
            computed.with_node(CallGraphNode::MatchBranching).with_edge(at, at + 1, EdgeKind::Outcome)
        } else {
            computed
        };
        let inner_path = path.push(c);
        let wired = db.wire_inputs(kind, observers, c, at, db.first_injected(c), inner_path, branched);
        let done = db.expand(kind, observers, c, path, st);
        let added = if fallible {
            seq![node, CallGraphNode::MatchBranching]
        } else {
            seq![node]
        };
        assert(branched.nodes =~= st.nodes + added);
        assert(cycle_is_caught(branched, inner_path, pair)) by {
            lemma_longer_path_contains(path, c, pair.a);
            lemma_longer_path_contains(path, c, pair.b);
            if computes(branched, pair.a) && pair.a != c {
                lemma_computed_before_or_new(st, branched, pair.a, added);
            }
            if computes(branched, pair.b) && pair.b != c {
                lemma_computed_before_or_new(st, branched, pair.b, added);
            }
        }
        // Whoever needs a component of the pair finds a producer in it.
        lemma_resolution_in_range(
            db,
            kind,
            db.components@[pair.a as int].inputs@[pair.a_input].ty,
            db.components@[pair.a as int].scope_id,
            pair.a,
        );
        lemma_resolution_in_range(
            db,
            kind,
            db.components@[pair.b as int].inputs@[pair.b_input].ty,
            db.components@[pair.b as int].scope_id,
            pair.b,
        );
        lemma_longer_path_contains(path, c, c);
        lemma_wire_inputs_catch_cycle(db, kind, observers, c, at, db.first_injected(c), inner_path, branched, pair);
        if fallible && kind == GraphKind::RequestHandling {
            lemma_on_error_catches_cycle(db, kind, observers, c, at + 1, inner_path, wired, pair);
            lemma_on_error_extends(db, kind, observers, c, at + 1, inner_path, wired);
            if names_both(wired.errors, pair) {
                lemma_names_both_is_kept(wired, done, pair);
            }
        }
        lemma_longer_path_contains(path, c, pair.a);
        lemma_longer_path_contains(path, c, pair.b);
    }
}

/// Wiring the inputs of a component keeps what was caught, and reports the
/// cycle if the component is one of the two and the input that its partner
/// produces is among them.
pub proof fn lemma_wire_inputs_catch_cycle(
    db: ComponentDb,
    kind: GraphKind,
    observers: Seq<UserComponentId>,
    c: UserComponentId,
    target: int,
    i: int,
    path: Seq<UserComponentId>,
    st: GraphState,
    pair: MutualNeed,
)
    requires
        db.need_each_other(kind, pair),
        cycle_is_caught(st, path, pair),
        path.len() > 0,
        path.last() == c,
    ensures
        cycle_is_caught(db.wire_inputs(kind, observers, c, target, i, path, st), path, pair),
        pair.has(c) && 0 <= i <= pair.input_of(c) ==> names_both(
            db.wire_inputs(kind, observers, c, target, i, path, st).errors,
            pair,
        ),
    decreases unvisited(db.components@.len() as int, path).len(), 2int, db.components@[c as int].inputs@.len() - i,
{
    if db.has(c) && 0 <= i < db.components@[c as int].inputs@.len() {
        let step = db.wire_input(kind, observers, c, target, i, path, st);
        let rest = db.wire_inputs(kind, observers, c, target, i + 1, path, step);
        lemma_wire_input_catches_cycle(db, kind, observers, c, target, i, path, st, pair);
        lemma_wire_inputs_catch_cycle(db, kind, observers, c, target, i + 1, path, step, pair);
        lemma_wire_inputs_extends(db, kind, observers, c, target, i + 1, path, step);
        if names_both(step.errors, pair) {
            lemma_names_both_is_kept(step, rest, pair);
        }
    }
}

/// Wiring one input keeps what was caught, and reports the cycle if it is the
/// input of one of the two that its partner produces.
pub proof fn lemma_wire_input_catches_cycle(
    db: ComponentDb,
    kind: GraphKind,
    observers: Seq<UserComponentId>,
    c: UserComponentId,
    target: int,
    i: int,
    path: Seq<UserComponentId>,
    st: GraphState,
    pair: MutualNeed,
)
    requires
        db.need_each_other(kind, pair),
        cycle_is_caught(st, path, pair),
        path.len() > 0,
        path.last() == c,
    ensures
        cycle_is_caught(db.wire_input(kind, observers, c, target, i, path, st), path, pair),
        pair.has(c) && i == pair.input_of(c) ==> names_both(
            db.wire_input(kind, observers, c, target, i, path, st).errors,
            pair,
        ),
    decreases unvisited(db.components@.len() as int, path).len(), 1int, 0int,
{
    let input = db.components@[c as int].inputs@[i];
    let done = db.wire_input(kind, observers, c, target, i, path, st);
    let needed = pair.has(c) && i == pair.input_of(c);
    let y = pair.partner(c);
    lemma_wire_input_extends(db, kind, observers, c, target, i, path, st);
    match db.resolution(kind, input.ty, db.components@[c as int].scope_id, c) {
        Err(e) => {
            lemma_error_keeps_caught(st, path, pair, e);
        },
        Ok(Producer::Framework) => {
            let node = CallGraphNode::InputParameter { ty: input.ty, source: InputParameterSource::Framework };
            lemma_shared_node_keeps_caught(st, path, pair, node);
        },
        Ok(Producer::Component(p)) => {
            let shared = db.shared_node_of(kind, p, input.ty);
            if !db.has(p) {
            } else if shared is InputParameter {
                lemma_shared_node_keeps_caught(st, path, pair, shared);
            } else if path.contains(p) {
                let error = Failure::Cycle { participants: cycle_of(path, p) };
                lemma_error_keeps_caught(st, path, pair, error);
                if needed {
                    lemma_cycle_names_both_ends(path, p);
                    assert(done.errors[st.errors.len() as int] == error);
                }
            } else if db.components@[p as int].lifecycle != Lifecycle::Transient && st.nodes.contains(shared) {
                if needed {
                    assert(computes(st, y));
                }
            } else {
                let expanded = db.expand(kind, observers, p, path, st);
                lemma_expand_catches_cycle(db, kind, observers, p, path, st, pair);
                lemma_expand_extends(db, kind, observers, p, path, st);
                if needed {
                    assert(expanded.nodes[st.nodes.len() as int] == CallGraphNode::Compute { component_id: p });
                    assert(computes(expanded, y));
                }
            }
        },
    }
}

/// What follows a failure keeps what was caught.
pub proof fn lemma_on_error_catches_cycle(
    db: ComponentDb,
    kind: GraphKind,
    observers: Seq<UserComponentId>,
    c: UserComponentId,
    branch: int,
    path: Seq<UserComponentId>,
    st: GraphState,
    pair: MutualNeed,
)
    requires
        db.need_each_other(kind, pair),
        cycle_is_caught(st, path, pair),
    ensures
        cycle_is_caught(db.on_error(kind, observers, c, branch, path, st), path, pair),
    decreases unvisited(db.components@.len() as int, path).len(), 4int, 0int,
{
    let handled = match db.components@[c as int].error_handler {
        Some(handler) => db.attach_sink(kind, observers, handler, branch, path, st),
        None => st.with_error(Failure::MissingErrorHandler { fallible: c }),
    };
    match db.components@[c as int].error_handler {
        Some(handler) => {
            lemma_attach_sink_catches_cycle(db, kind, observers, handler, branch, path, st, pair);
        },
        None => {
            lemma_error_keeps_caught(st, path, pair, Failure::MissingErrorHandler { fallible: c });
        },
    }
    lemma_notify_catches_cycle(db, kind, observers, branch, 0, path, handled, pair);
}

/// The error observers keep what was caught.
pub proof fn lemma_notify_catches_cycle(
    db: ComponentDb,
    kind: GraphKind,
    observers: Seq<UserComponentId>,
    branch: int,
    k: int,
    path: Seq<UserComponentId>,
    st: GraphState,
    pair: MutualNeed,
)
    requires
        db.need_each_other(kind, pair),
        cycle_is_caught(st, path, pair),
    ensures
        cycle_is_caught(db.notify(kind, observers, branch, k, path, st), path, pair),
    decreases unvisited(db.components@.len() as int, path).len(), 3int, observers.len() - k,
{
    if 0 <= k < observers.len() {
        let step = db.attach_sink(kind, observers, observers[k], branch, path, st);
        lemma_attach_sink_catches_cycle(db, kind, observers, observers[k], branch, path, st, pair);
        lemma_notify_catches_cycle(db, kind, observers, branch, k + 1, path, step, pair);
    }
}

/// An error handler or an error observer keeps what was caught.
pub proof fn lemma_attach_sink_catches_cycle(
    db: ComponentDb,
    kind: GraphKind,
    observers: Seq<UserComponentId>,
    sink: UserComponentId,
    branch: int,
    path: Seq<UserComponentId>,
    st: GraphState,
    pair: MutualNeed,
)
    requires
        db.need_each_other(kind, pair),
        cycle_is_caught(st, path, pair),
    ensures
        cycle_is_caught(db.attach_sink(kind, observers, sink, branch, path, st), path, pair),
    decreases unvisited(db.components@.len() as int, path).len(), 1int, 0int,
{
    if !db.is_sink(sink) {
    } else if path.contains(sink) {
        lemma_error_keeps_caught(st, path, pair, Failure::Cycle { participants: cycle_of(path, sink) });
    } else {
        lemma_expand_catches_cycle(db, kind, observers, sink, path, st, pair);
    }
}

/// No call graph holds a node for one of two components that need each
/// other without a failure: whatever the graph is built for, and whatever
/// else the two need, if a node computes one of them, a cycle that names both
/// is among the failures.
pub proof fn lemma_mutual_need_is_always_reported(
    db: ComponentDb,
    kind: GraphKind,
    observers: Seq<UserComponentId>,
    terminal: UserComponentId,
    pair: MutualNeed,
)
    requires
        db.need_each_other(kind, pair),
    ensures
        computes(db.call_graph_of(kind, observers, terminal), pair.a) || computes(
            db.call_graph_of(kind, observers, terminal),
            pair.b,
        ) ==> names_both(db.call_graph_of(kind, observers, terminal).errors, pair),
{
    let none: Seq<UserComponentId> = Seq::empty();
    lemma_expand_catches_cycle(db, kind, observers, terminal, none, GraphState::empty(), pair);
}

/// Wiring the inputs of a component from the `j`-th on, with an input at or
/// after `j` that component `p` produces, leaves a node that computes `p`,
/// unless `p` is being expanded.
pub proof fn lemma_wire_inputs_reach_producer(
    db: ComponentDb,
    kind: GraphKind,
    observers: Seq<UserComponentId>,
    c: UserComponentId,
    target: int,
    j: int,
    i: int,
    path: Seq<UserComponentId>,
    st: GraphState,
    p: UserComponentId,
)
    requires
        0 <= j <= i,
        db.needs(kind, c, i, p),
    ensures
        computes(db.wire_inputs(kind, observers, c, target, j, path, st), p) || path.contains(p),
    decreases i - j,
{
    let step = db.wire_input(kind, observers, c, target, j, path, st);
    let rest = db.wire_inputs(kind, observers, c, target, j + 1, path, step);
    if j == i {
        lemma_resolution_in_range(db, kind, db.components@[c as int].inputs@[i].ty, db.components@[c as int].scope_id, c);
        lemma_wire_inputs_extends(db, kind, observers, c, target, j + 1, path, step);
        if !path.contains(p) {
            if db.components@[p as int].lifecycle != Lifecycle::Transient && st.nodes.contains(
                CallGraphNode::Compute { component_id: p },
            ) {
                assert(computes(st, p));
                lemma_wire_input_extends(db, kind, observers, c, target, j, path, st);
                lemma_computes_is_kept(st, step, p);
            } else {
                let expanded = db.expand(kind, observers, p, path, st);
                lemma_expand_extends(db, kind, observers, p, path, st);
                assert(expanded.nodes[st.nodes.len() as int] == CallGraphNode::Compute { component_id: p });
                assert(computes(expanded, p));
                assert(step.extends(expanded));
                lemma_computes_is_kept(expanded, step, p);
            }
            lemma_computes_is_kept(step, rest, p);
        }
    } else {
        lemma_wire_inputs_reach_producer(db, kind, observers, c, target, j + 1, i, path, step, p);
    }
}

/// A component that needs one of two components that need each other cannot
/// be built: whatever else it and the two need, its call graph fails with a
/// cycle that names both.
pub proof fn lemma_needing_a_cycle_fails(
    db: ComponentDb,
    kind: GraphKind,
    observers: Seq<UserComponentId>,
    terminal: UserComponentId,
    input: int,
    pair: MutualNeed,
)
    requires
        db.need_each_other(kind, pair),
        db.needs(kind, terminal, input, pair.a),
        db.first_injected(terminal) <= input,
    ensures
        names_both(db.call_graph_of(kind, observers, terminal).errors, pair),
{
    let none: Seq<UserComponentId> = Seq::empty();
    let st = GraphState::empty();
    let graph = db.call_graph_of(kind, observers, terminal);
    lemma_mutual_need_is_always_reported(db, kind, observers, terminal, pair);
    let at = 0int;
    let computed = st.with_node(CallGraphNode::Compute { component_id: terminal });
    let branched = if db.fallible(terminal) {
        computed.with_node(CallGraphNode::MatchBranching).with_edge(at, at + 1, EdgeKind::Outcome)
    } else {
        computed
    };
    let inner = none.push(terminal);
    let wired = db.wire_inputs(kind, observers, terminal, at, db.first_injected(terminal), inner, branched);
    lemma_wire_inputs_reach_producer(
        db,
        kind,
        observers,
        terminal,
        at,
        db.first_injected(terminal),
        input,
        inner,
        branched,
        pair.a,
    );
    lemma_wire_inputs_extends(db, kind, observers, terminal, at, db.first_injected(terminal), inner, branched);
    if db.fallible(terminal) && kind == GraphKind::RequestHandling {
        lemma_on_error_extends(db, kind, observers, terminal, at + 1, inner, wired);
    }
    assert(graph.extends(wired));
    if inner.contains(pair.a) {
        lemma_longer_path_contains(none, terminal, pair.a);
        assert(pair.a == terminal);
        assert(wired.nodes[0] == CallGraphNode::Compute { component_id: terminal });
        assert(computes(wired, pair.a));
    }
    lemma_computes_is_kept(wired, graph, pair.a);
}

} // verus!

//! The call graph of a component: what has to be computed, from what, to
//! invoke it.
//!
//! A graph is built from its terminal node, which is node 0, towards the
//! inputs. Nodes and edges are numbered in the order in which the walk creates
//! them, so a graph is a function of the component database alone.
//!
//! - A singleton that a request-handling graph needs is an input parameter
//!   that the application state provides; every consumer in the graph shares
//!   that one node.
//! - A request-scoped component is computed by one node, shared by every
//!   consumer in the graph.
//! - A transient component is computed by a node of its own for each
//!   consumer.
//! - A fallible component is followed by a branch node. Consumers take the
//!   value from the branch node; its error handler and the error observers
//!   take the error from it, the handler first, then the observers in order.

use vstd::prelude::*;
use crate::diagnostic::{failures_view, ConfigError, ConfigErrorView, Failure};
use crate::model::{Access, ComponentKind, Lifecycle, TypeId, UserComponentId};
use crate::resolver::{lemma_resolution_in_range, ComponentDb, GraphKind, Producer};

verus! {

/// Where the value of an input parameter comes from.
#[derive(Debug, Clone, Copy, PartialEq, Eq, Hash, Structural)]
pub enum InputParameterSource {
    /// The framework provides it with the request.
    Framework,
    /// It is shared, and built in the application-state graph by this
    /// component.
    ApplicationState { component_id: UserComponentId },
}

/// A node of a call graph.
#[derive(Debug, Clone, Copy, PartialEq, Eq, Hash, Structural)]
pub enum CallGraphNode {
    /// Invokes a component.
    Compute { component_id: UserComponentId },
    /// A clone of the value that a component produced.
    Duplicate { component_id: UserComponentId },
    /// A value that the graph is handed from outside.
    InputParameter { ty: TypeId, source: InputParameterSource },
    /// Splits on the outcome of the fallible node before it.
    MatchBranching,
    /// Gathers the singletons into the application state.
    StateAggregate,
}

/// What an edge carries from its source to its target.
#[derive(Debug, Clone, Copy, PartialEq, Eq, Hash, Structural)]
pub enum EdgeKind {
    /// The value of the source, consumed by the target with this access.
    Consume(Access),
    /// The outcome of a fallible node, to its branch node.
    Outcome,
    /// The error of a branch node, by shared reference.
    Error,
    /// The value of the source, to the node that clones it.
    Clone,
    /// The value of a singleton, to the application state, once every other
    /// consumer is done with it.
    Store,
}

/// An edge: the source produces what the target consumes.
#[derive(Debug, Clone, Copy, PartialEq, Eq, Hash, Structural)]
pub struct CallGraphEdge {
    pub from: usize,
    pub to: usize,
    pub kind: EdgeKind,
}

/// A call graph. Node 0 is its terminal node.
#[derive(Debug, Clone, PartialEq, Eq)]
pub struct CallGraph {
    pub nodes: Vec<CallGraphNode>,
    pub edges: Vec<CallGraphEdge>,
}

impl View for CallGraph {
    type V = GraphState;

    /// The graph as a state that holds no failure.
    open spec fn view(&self) -> GraphState {
        GraphState { nodes: self.nodes@, edges: self.edges@, errors: Seq::empty() }
    }
}

/// A graph under construction, with the failures met so far.
pub struct GraphState {
    pub nodes: Seq<CallGraphNode>,
    pub edges: Seq<CallGraphEdge>,
    pub errors: Seq<ConfigErrorView>,
}

impl GraphState {
    pub open spec fn empty() -> GraphState {
        GraphState { nodes: Seq::empty(), edges: Seq::empty(), errors: Seq::empty() }
    }

    pub open spec fn with_node(self, node: CallGraphNode) -> GraphState {
        GraphState { nodes: self.nodes.push(node), ..self }
    }

    pub open spec fn with_edge(self, from: int, to: int, kind: EdgeKind) -> GraphState {
        GraphState { edges: self.edges.push(CallGraphEdge { from: from as usize, to: to as usize, kind }), ..self }
    }

    pub open spec fn with_error(self, error: ConfigErrorView) -> GraphState {
        GraphState { errors: self.errors.push(error), ..self }
    }

    /// The state with `node` in it: unchanged if it holds the node already.
    pub open spec fn with_shared_node(self, node: CallGraphNode) -> GraphState {
        if self.nodes.contains(node) {
            self
        } else {
            self.with_node(node)
        }
    }

    /// Where `node` stands once `with_shared_node` has placed it.
    pub open spec fn shared_node_index(self, node: CallGraphNode) -> int {
        match self.nodes.index_of_first(node) {
            Some(i) => i,
            None => self.nodes.len() as int,
        }
    }
}

/// The identifiers below `n` that `path` does not hold.
pub open spec fn unvisited(n: int, path: Seq<UserComponentId>) -> Set<int> {
    Set::new(|i: int| 0 <= i < n && forall|k: int| 0 <= k < path.len() ==> path[k] != i)
}

/// Entering a component that is not on the path leaves fewer to visit.
pub proof fn lemma_unvisited_shrinks(n: int, path: Seq<UserComponentId>, p: UserComponentId)
    requires
        p < n,
        !path.contains(p),
    ensures
        unvisited(n, path).finite(),
        unvisited(n, path.push(p)).len() < unvisited(n, path).len(),
        unvisited(n, path.push(p)).len() == unvisited(n, path).len() - 1,
        unvisited(n, path.push(p)).finite(),
{
    let full = vstd::set_lib::set_int_range(0, n);
    vstd::set_lib::lemma_int_range(0, n);
    let before = unvisited(n, path);
    let after = unvisited(n, path.push(p));
    assert(before.subset_of(full));
    vstd::set_lib::lemma_len_subset(before, full);
    assert(before.contains(p as int));
    assert forall|i: int| after.contains(i) <==> before.remove(p as int).contains(i) by {
        if before.remove(p as int).contains(i) {
            assert forall|k: int| 0 <= k < path.push(p).len() implies path.push(p)[k] != i by {
                if k < path.len() {
                    assert(path.push(p)[k] == path[k]);
                }
            }
        }
        if after.contains(i) {
            assert(path.push(p)[path.len() as int] == p);
            assert forall|k: int| 0 <= k < path.len() implies path[k] != i by {
                assert(path.push(p)[k] == path[k]);
            }
        }
    }
    assert(after =~= before.remove(p as int));
}

/// The chain that closes when `p`, already on the path, is needed again: the
/// path from `p` on.
pub open spec fn cycle_of(path: Seq<UserComponentId>, p: UserComponentId) -> Seq<UserComponentId> {
    match path.index_of_first(p) {
        Some(i) => path.skip(i),
        None => path,
    }
}

impl ComponentDb {
    /// Whether invoking `c` can fail. Error handlers and error observers are
    /// taken not to fail.
    pub open spec fn fallible(self, c: UserComponentId) -> bool {
        &&& self.has(c)
        &&& self.components@[c as int].error is Some
        &&& self.components@[c as int].kind != ComponentKind::ErrorHandler
        &&& self.components@[c as int].kind != ComponentKind::ErrorObserver
    }

    /// Whether `c` is an error handler or an error observer: a component
    /// that takes an error.
    pub open spec fn is_sink(self, c: UserComponentId) -> bool {
        self.has(c) && (self.components@[c as int].kind == ComponentKind::ErrorHandler || self.components@[c
            as int].kind == ComponentKind::ErrorObserver)
    }

    /// The first input of `c` that is injected. The one before it, for an
    /// error handler or an error observer, is the error.
    pub open spec fn first_injected(self, c: UserComponentId) -> int {
        if self.has(c) && (self.components@[c as int].kind == ComponentKind::ErrorHandler
            || self.components@[c as int].kind == ComponentKind::ErrorObserver) {
            1
        } else {
            0
        }
    }

    /// The node that consumers of `c` take its value from, when the node that
    /// computes `c` is node `at`.
    pub open spec fn value_node(self, c: UserComponentId, at: int) -> int {
        if self.fallible(c) {
            at + 1
        } else {
            at
        }
    }

    /// The node that a graph of this kind holds for producer `p` when every
    /// consumer shares it.
    pub open spec fn shared_node_of(self, kind: GraphKind, p: UserComponentId, ty: TypeId) -> CallGraphNode {
        if kind == GraphKind::RequestHandling && self.components@[p as int].lifecycle == Lifecycle::Singleton {
            CallGraphNode::InputParameter { ty, source: InputParameterSource::ApplicationState { component_id: p } }
        } else {
            CallGraphNode::Compute { component_id: p }
        }
    }

    /// The state after the node that computes `c` was added, with what `c`
    /// needs wired to it, and with what follows if `c` fails.
    pub open spec fn expand(
        self,
        kind: GraphKind,
        observers: Seq<UserComponentId>,
        c: UserComponentId,
        path: Seq<UserComponentId>,
        st: GraphState,
    ) -> GraphState
        decreases unvisited(self.components@.len() as int, path).len(), 0int, 0int,
    {
        if self.has(c) && !path.contains(c) {
            proof {
                lemma_unvisited_shrinks(self.components@.len() as int, path, c);
            }
            let at = st.nodes.len() as int;
            let computed = st.with_node(CallGraphNode::Compute { component_id: c });
            let branched = if self.fallible(c) {
                computed.with_node(CallGraphNode::MatchBranching).with_edge(at, at + 1, EdgeKind::Outcome)
            } else {
                computed
            };
            let wired = self.wire_inputs(kind, observers, c, at, self.first_injected(c), path.push(c), branched);
            if self.fallible(c) && kind == GraphKind::RequestHandling {
                self.on_error(kind, observers, c, at + 1, path.push(c), wired)
            } else {
                wired
            }
        } else {
            st
        }
    }

    /// The state after the inputs of `c` from the `i`-th on were wired to node
    /// `target`.
    pub open spec fn wire_inputs(
        self,
        kind: GraphKind,
        observers: Seq<UserComponentId>,
        c: UserComponentId,
        target: int,
        i: int,
        path: Seq<UserComponentId>,
        st: GraphState,
    ) -> GraphState
        decreases unvisited(self.components@.len() as int, path).len(), 2int, self.components@[c as int].inputs@.len()
            - i,
    {
        if self.has(c) && 0 <= i < self.components@[c as int].inputs@.len() {
            self.wire_inputs(
                kind,
                observers,
                c,
                target,
                i + 1,
                path,
                self.wire_input(kind, observers, c, target, i, path, st),
            )
        } else {
            st
        }
    }

    /// The state after the `i`-th input of `c` was matched to its producer and
    /// wired to node `target`.
    pub open spec fn wire_input(
        self,
        kind: GraphKind,
        observers: Seq<UserComponentId>,
        c: UserComponentId,
        target: int,
        i: int,
        path: Seq<UserComponentId>,
        st: GraphState,
    ) -> GraphState
        decreases unvisited(self.components@.len() as int, path).len(), 1int, 0int,
    {
        let input = self.components@[c as int].inputs@[i];
        let consume = EdgeKind::Consume(input.access);
        match self.resolution(kind, input.ty, self.components@[c as int].scope_id, c) {
            Err(e) => st.with_error(e),
            Ok(Producer::Framework) => {
                let node = CallGraphNode::InputParameter { ty: input.ty, source: InputParameterSource::Framework };
                st.with_shared_node(node).with_edge(st.shared_node_index(node), target, consume)
            },
            Ok(Producer::Component(p)) => {
                let shared = self.shared_node_of(kind, p, input.ty);
                if !self.has(p) {
                    st
                } else if shared is InputParameter {
                    st.with_shared_node(shared).with_edge(st.shared_node_index(shared), target, consume)
                } else if path.contains(p) {
                    st.with_error(Failure::Cycle { participants: cycle_of(path, p) })
                } else if self.components@[p as int].lifecycle != Lifecycle::Transient && st.nodes.contains(
                    shared,
                ) {
                    st.with_edge(self.value_node(p, st.shared_node_index(shared)), target, consume)
                } else {
                    self.expand(kind, observers, p, path, st).with_edge(
                        self.value_node(p, st.nodes.len() as int),
                        target,
                        consume,
                    )
                }
            },
        }
    }

    /// The state after what follows a failure of `c` was added: its error
    /// handler, then every error observer, each taking the error from node
    /// `branch`.
    pub open spec fn on_error(
        self,
        kind: GraphKind,
        observers: Seq<UserComponentId>,
        c: UserComponentId,
        branch: int,
        path: Seq<UserComponentId>,
        st: GraphState,
    ) -> GraphState
        decreases unvisited(self.components@.len() as int, path).len(), 4int, 0int,
    {
        let handled = match self.components@[c as int].error_handler {
            Some(handler) => self.attach_sink(kind, observers, handler, branch, path, st),
            None => st.with_error(Failure::MissingErrorHandler { fallible: c }),
        };
        self.notify(kind, observers, branch, 0, path, handled)
    }

    /// The state after the observers from the `k`-th on were added.
    pub open spec fn notify(
        self,
        kind: GraphKind,
        observers: Seq<UserComponentId>,
        branch: int,
        k: int,
        path: Seq<UserComponentId>,
        st: GraphState,
    ) -> GraphState
        decreases unvisited(self.components@.len() as int, path).len(), 3int, observers.len() - k,
    {
        if 0 <= k < observers.len() {
            self.notify(
                kind,
                observers,
                branch,
                k + 1,
                path,
                self.attach_sink(kind, observers, observers[k], branch, path, st),
            )
        } else {
            st
        }
    }

    /// The state after `sink`, an error handler or an error observer, was
    /// added with the error of node `branch` wired to it. A component of any
    /// other kind is not given the error: nothing is added for it.
    pub open spec fn attach_sink(
        self,
        kind: GraphKind,
        observers: Seq<UserComponentId>,
        sink: UserComponentId,
        branch: int,
        path: Seq<UserComponentId>,
        st: GraphState,
    ) -> GraphState
        decreases unvisited(self.components@.len() as int, path).len(), 1int, 0int,
    {
        if !self.is_sink(sink) {
            st
        } else if path.contains(sink) {
            st.with_error(Failure::Cycle { participants: cycle_of(path, sink) })
        } else {
            self.expand(kind, observers, sink, path, st).with_edge(branch, st.nodes.len() as int, EdgeKind::Error)
        }
    }

    /// The call graph with `terminal` as its terminal node, and the failures
    /// met on the way.
    pub open spec fn call_graph_of(self, kind: GraphKind, observers: Seq<UserComponentId>, terminal: UserComponentId) -> GraphState {
        self.expand(kind, observers, terminal, Seq::empty(), GraphState::empty())
    }
}

/// A call graph under construction.
pub struct GraphBuilder {
    pub nodes: Vec<CallGraphNode>,
    pub edges: Vec<CallGraphEdge>,
    pub errors: Vec<ConfigError>,
}

impl View for GraphBuilder {
    type V = GraphState;

    open spec fn view(&self) -> GraphState {
        GraphState { nodes: self.nodes@, edges: self.edges@, errors: failures_view(self.errors@) }
    }
}

impl GraphBuilder {
    /// A builder that holds nothing.
    pub fn new() -> (b: Self)
        ensures
            b@ == GraphState::empty(),
    {
        let b = GraphBuilder { nodes: Vec::new(), edges: Vec::new(), errors: Vec::new() };
        assert(b@.errors =~= Seq::empty());
        b
    }

    /// Adds a node after those that are there and returns its index.
    pub fn add_node(&mut self, node: CallGraphNode) -> (at: usize)
        ensures
            final(self)@ == old(self)@.with_node(node),
            at == old(self)@.nodes.len(),
    {
        let at = self.nodes.len();
        self.nodes.push(node);
        at
    }

    /// Adds an edge after those that are there.
    pub fn add_edge(&mut self, from: usize, to: usize, kind: EdgeKind)
        ensures
            final(self)@ == old(self)@.with_edge(from as int, to as int, kind),
    {
        self.edges.push(CallGraphEdge { from, to, kind });
    }

    /// Records a failure after those that are there.
    pub fn add_error(&mut self, error: ConfigError)
        ensures
            final(self)@ == old(self)@.with_error(error@),
    {
        self.errors.push(error);
        assert(failures_view(self.errors@) =~= failures_view(old(self).errors@).push(error@));
    }

    /// The index of the first node equal to `node`.
    pub fn find_node(&self, node: CallGraphNode) -> (found: Option<usize>)
        ensures
            match found {
                Some(i) => self@.nodes.index_of_first(node) == Some(i as int),
                None => self@.nodes.index_of_first(node) is None,
            },
            found is Some == self@.nodes.contains(node),
            found matches Some(i) ==> i < self@.nodes.len() && self@.nodes[i as int] == node,
    {
        let mut i: usize = 0;
        while i < self.nodes.len()
            invariant
                i <= self.nodes@.len(),
                forall|k: int| 0 <= k < i ==> self.nodes@[k] != node,
            decreases self.nodes@.len() - i,
        {
            if self.nodes[i] == node {
                proof {
                    self.nodes@.index_of_first_ensures(node);
                }
                return Some(i);
            }
            i += 1;
        }
        proof {
            self.nodes@.index_of_first_ensures(node);
        }
        None
    }

    /// The index of the node equal to `node`, which is added if there is none.
    pub fn share_node(&mut self, node: CallGraphNode) -> (at: usize)
        ensures
            final(self)@ == old(self)@.with_shared_node(node),
            at == old(self)@.shared_node_index(node),
    {
        match self.find_node(node) {
            Some(at) => at,
            None => self.add_node(node),
        }
    }
}

impl ComponentDb {
    /// Whether `r` is what building the call graph of `terminal` returns: the
    /// graph if the walk met no failure, and else every failure it met, in
    /// order.
    pub open spec fn is_built(
        self,
        kind: GraphKind,
        observers: Seq<UserComponentId>,
        terminal: UserComponentId,
        r: Result<CallGraph, Vec<ConfigError>>,
    ) -> bool {
        match r {
            Ok(graph) => {
                &&& self.call_graph_of(kind, observers, terminal).errors.len() == 0
                &&& graph.nodes@ == self.call_graph_of(kind, observers, terminal).nodes
                &&& graph.edges@ == self.call_graph_of(kind, observers, terminal).edges
                &&& crate::graph_order::is_acyclic(graph@)
                &&& self.consumes_transients_once(graph@)
            },
            Err(errors) => {
                &&& errors@.len() > 0
                &&& failures_view(errors@) == self.call_graph_of(kind, observers, terminal).errors
            },
        }
    }

    /// Building is deterministic: two builds of the call graph of one
    /// component from one database end alike, and where they succeed the two
    /// graphs hold the same nodes and the same edges, numbered alike; where
    /// they fail they report the same failures in the same order.
    pub proof fn lemma_building_twice_gives_the_same(
        self,
        kind: GraphKind,
        observers: Seq<UserComponentId>,
        terminal: UserComponentId,
        first: Result<CallGraph, Vec<ConfigError>>,
        second: Result<CallGraph, Vec<ConfigError>>,
    )
        requires
            self.is_built(kind, observers, terminal, first),
            self.is_built(kind, observers, terminal, second),
        ensures
            first is Ok <==> second is Ok,
            first is Ok ==> first->Ok_0.nodes@ == second->Ok_0.nodes@ && first->Ok_0.edges@ == second->Ok_0.edges@,
            first is Err ==> failures_view(first->Err_0@) == failures_view(second->Err_0@),
    {
        if first is Err && second is Ok {
            assert(failures_view(first->Err_0@).len() == first->Err_0@.len());
        }
        if first is Ok && second is Err {
            assert(failures_view(second->Err_0@).len() == second->Err_0@.len());
        }
    }
}

/// Builds the call graph with `terminal` as its terminal node. The graph is
/// returned if no failure was met, else every failure, in the order in which
/// the walk met them.
pub fn build_call_graph(
    db: &ComponentDb,
    kind: GraphKind,
    terminal: UserComponentId,
    observers: &Vec<UserComponentId>,
) -> (r: Result<CallGraph, Vec<ConfigError>>)
    requires
        db.wf(),
    ensures
        db.is_built(kind, observers@, terminal, r),
{
    let mut builder = GraphBuilder::new();
    let mut path: Vec<UserComponentId> = Vec::new();
    db.expand_into(kind, observers, terminal, &mut path, &mut builder);
    if builder.errors.len() == 0 {
        let graph = CallGraph { nodes: builder.nodes, edges: builder.edges };
        proof {
            assert(graph.nodes@.len() == graph.nodes.len());
            let rank = crate::graph_order::lemma_call_graph_is_acyclic(*db, kind, observers@, terminal);
            crate::graph_order::lemma_same_shape_same_numbering(
                db.call_graph_of(kind, observers@, terminal),
                graph@,
                rank,
            );
            crate::graph_consumers::lemma_transients_are_consumed_once(*db, kind, observers@, terminal);
            crate::graph_consumers::lemma_same_shape_same_consumers(
                *db,
                db.call_graph_of(kind, observers@, terminal),
                graph@,
            );
        }
        Ok(graph)
    } else {
        Err(builder.errors)
    }
}

/// The part of `path` from the first `p` on.
pub fn cycle_from(path: &Vec<UserComponentId>, p: UserComponentId) -> (chain: Vec<UserComponentId>)
    ensures
        chain@ == cycle_of(path@, p),
{
    proof {
        path@.index_of_first_ensures(p);
    }
    let mut start: usize = 0;
    while start < path.len() && path[start] != p
        invariant
            start <= path@.len(),
            forall|k: int| 0 <= k < start ==> path@[k] != p,
        decreases path@.len() - start,
    {
        start += 1;
    }
    if start == path.len() {
        start = 0;
    }
    let mut chain: Vec<UserComponentId> = Vec::new();
    let mut i: usize = start;
    while i < path.len()
        invariant
            start <= i <= path@.len(),
            chain@ == path@.subrange(start as int, i as int),
        decreases path@.len() - i,
    {
        chain.push(path[i]);
        i += 1;
        assert(chain@ =~= path@.subrange(start as int, i as int));
    }
    assert(chain@ =~= path@.skip(start as int));
    assert(path@.skip(0) =~= path@);
    chain
}

/// Whether `path` holds `c`.
pub fn on_path(path: &Vec<UserComponentId>, c: UserComponentId) -> (r: bool)
    ensures
        r == path@.contains(c),
{
    let mut i: usize = 0;
    while i < path.len()
        invariant
            i <= path@.len(),
            forall|k: int| 0 <= k < i ==> path@[k] != c,
        decreases path@.len() - i,
    {
        if path[i] == c {
            return true;
        }
        i += 1;
    }
    false
}

impl ComponentDb {
    /// Whether invoking `c` can fail.
    pub fn is_fallible(&self, c: UserComponentId) -> (r: bool)
        ensures
            r == self.fallible(c),
    {
        if c >= self.components.len() {
            return false;
        }
        let component = &self.components[c];
        let sink = match component.kind {
            ComponentKind::ErrorHandler => true,
            ComponentKind::ErrorObserver => true,
            _ => false,
        };
        component.error.is_some() && !sink
    }

    /// Adds the node that computes `c` to `builder`, wires what `c` needs to
    /// it, and adds what follows if `c` fails. `path` holds the components
    /// that are being expanded, the outermost first.
    pub fn expand_into(
        &self,
        kind: GraphKind,
        observers: &Vec<UserComponentId>,
        c: UserComponentId,
        path: &mut Vec<UserComponentId>,
        builder: &mut GraphBuilder,
    )
        requires
            self.wf(),
        ensures
            final(path)@ == old(path)@,
            final(builder)@ == self.expand(kind, observers@, c, old(path)@, old(builder)@),
            old(builder)@.nodes.len() <= final(builder)@.nodes.len(),
            self.has(c) && !old(path)@.contains(c) ==> old(builder)@.nodes.len() < final(builder)@.nodes.len(),
        decreases unvisited(self.components@.len() as int, old(path)@).len(), 0int, 0int,
    {
        if c >= self.components.len() || on_path(path, c) {
            return;
        }
        proof {
            lemma_unvisited_shrinks(self.components@.len() as int, path@, c);
        }
        let fallible = self.is_fallible(c);
        let at = builder.add_node(CallGraphNode::Compute { component_id: c });
        let mut branch = at;
        if fallible {
            branch = builder.add_node(CallGraphNode::MatchBranching);
            builder.add_edge(at, branch, EdgeKind::Outcome);
        }
        path.push(c);
        let sink = match self.components[c].kind {
            ComponentKind::ErrorHandler => true,
            ComponentKind::ErrorObserver => true,
            _ => false,
        };
        let mut i: usize = if sink {
            1
        } else {
            0
        };
        let ghost first = i as int;
        let ghost start = builder@;
        let n_inputs = self.components[c].inputs.len();
        while i < n_inputs
            invariant
                self.wf(),
                self.has(c),
                n_inputs == self.components@[c as int].inputs@.len(),
                0 <= first <= i,
                old(builder)@.nodes.len() < builder@.nodes.len(),
                path@ == old(path)@.push(c),
                unvisited(self.components@.len() as int, path@).len() < unvisited(
                    self.components@.len() as int,
                    old(path)@,
                ).len(),
                self.wire_inputs(kind, observers@, c, at as int, i as int, path@, builder@) == self.wire_inputs(
                    kind,
                    observers@,
                    c,
                    at as int,
                    first,
                    path@,
                    start,
                ),
            decreases n_inputs - i,
        {
            self.wire_input_into(kind, observers, c, at, i, path, builder);
            i += 1;
        }
        if fallible {
            match kind {
                GraphKind::RequestHandling => {
                    self.on_error_into(kind, observers, c, branch, path, builder);
                },
                GraphKind::ApplicationState => {},
            }
        }
        path.pop();
        assert(path@ =~= old(path)@);
    }

    /// Matches the `i`-th input of `c` to its producer and wires it to node
    /// `target`.
    pub fn wire_input_into(
        &self,
        kind: GraphKind,
        observers: &Vec<UserComponentId>,
        c: UserComponentId,
        target: usize,
        i: usize,
        path: &mut Vec<UserComponentId>,
        builder: &mut GraphBuilder,
    )
        requires
            self.wf(),
            self.has(c),
            i < self.components@[c as int].inputs@.len(),
        ensures
            final(path)@ == old(path)@,
            final(builder)@ == self.wire_input(kind, observers@, c, target as int, i as int, old(path)@, old(builder)@),
            old(builder)@.nodes.len() <= final(builder)@.nodes.len(),
        decreases unvisited(self.components@.len() as int, old(path)@).len(), 1int, 0int,
    {
        let input = self.components[c].inputs[i];
        let consume = EdgeKind::Consume(input.access);
        let scope = self.components[c].scope_id;
        proof {
            lemma_resolution_in_range(*self, kind, input.ty, scope, c);
        }
        match self.resolve(kind, input.ty, scope, c) {
            Err(e) => {
                builder.add_error(e);
            },
            Ok(Producer::Framework) => {
                let node = CallGraphNode::InputParameter { ty: input.ty, source: InputParameterSource::Framework };
                let from = builder.share_node(node);
                builder.add_edge(from, target, consume);
            },
            Ok(Producer::Component(p)) => {
                if p >= self.components.len() {
                    return;
                }
                let singleton = match self.components[p].lifecycle {
                    Lifecycle::Singleton => true,
                    _ => false,
                };
                let transient = match self.components[p].lifecycle {
                    Lifecycle::Transient => true,
                    _ => false,
                };
                let request_handling = match kind {
                    GraphKind::RequestHandling => true,
                    GraphKind::ApplicationState => false,
                };
                if request_handling && singleton {
                    let node = CallGraphNode::InputParameter {
                        ty: input.ty,
                        source: InputParameterSource::ApplicationState { component_id: p },
                    };
                    let from = builder.share_node(node);
                    builder.add_edge(from, target, consume);
                    return;
                }
                let shared = CallGraphNode::Compute { component_id: p };
                if on_path(path, p) {
                    let participants = cycle_from(path, p);
                    builder.add_error(Failure::Cycle { participants });
                    return;
                }
                let fallible = self.is_fallible(p);
                if !transient {
                    match builder.find_node(shared) {
                        Some(found) => {
                            proof {
                                builder@.nodes.index_of_first_ensures(shared);
                            }
                            assert(builder.nodes@.len() == builder.nodes.len());
                            if fallible {
                                // The branch node of a fallible node follows it.
                                builder.add_edge(found + 1, target, consume);
                            } else {
                                builder.add_edge(found, target, consume);
                            }
                            return;
                        },
                        None => {},
                    }
                }
                let at = builder.nodes.len();
                self.expand_into(kind, observers, p, path, builder);
                assert(builder.nodes@.len() == builder.nodes.len());
                if fallible {
                    builder.add_edge(at + 1, target, consume);
                } else {
                    builder.add_edge(at, target, consume);
                }
            },
        }
    }

    /// Adds what follows a failure of `c`: its error handler, then every
    /// error observer, each taking the error from node `branch`.
    pub fn on_error_into(
        &self,
        kind: GraphKind,
        observers: &Vec<UserComponentId>,
        c: UserComponentId,
        branch: usize,
        path: &mut Vec<UserComponentId>,
        builder: &mut GraphBuilder,
    )
        requires
            self.wf(),
            self.has(c),
        ensures
            final(path)@ == old(path)@,
            final(builder)@ == self.on_error(kind, observers@, c, branch as int, old(path)@, old(builder)@),
            old(builder)@.nodes.len() <= final(builder)@.nodes.len(),
        decreases unvisited(self.components@.len() as int, old(path)@).len(), 4int, 0int,
    {
        match self.components[c].error_handler {
            Some(handler) => {
                self.attach_sink_into(kind, observers, handler, branch, path, builder);
            },
            None => {
                builder.add_error(Failure::MissingErrorHandler { fallible: c });
            },
        }
        let ghost handled = builder@;
        let mut k: usize = 0;
        while k < observers.len()
            invariant
                self.wf(),
                k <= observers@.len(),
                path@ == old(path)@,
                old(builder)@.nodes.len() <= builder@.nodes.len(),
                self.notify(kind, observers@, branch as int, k as int, path@, builder@) == self.notify(
                    kind,
                    observers@,
                    branch as int,
                    0,
                    path@,
                    handled,
                ),
            decreases observers@.len() - k,
        {
            self.attach_sink_into(kind, observers, observers[k], branch, path, builder);
            k += 1;
        }
    }

    /// Adds `sink`, an error handler or an error observer, with the error of
    /// node `branch` wired to it.
    pub fn attach_sink_into(
        &self,
        kind: GraphKind,
        observers: &Vec<UserComponentId>,
        sink: UserComponentId,
        branch: usize,
        path: &mut Vec<UserComponentId>,
        builder: &mut GraphBuilder,
    )
        requires
            self.wf(),
        ensures
            final(path)@ == old(path)@,
            final(builder)@ == self.attach_sink(kind, observers@, sink, branch as int, old(path)@, old(builder)@),
            old(builder)@.nodes.len() <= final(builder)@.nodes.len(),
        decreases unvisited(self.components@.len() as int, old(path)@).len(), 1int, 0int,
    {
        if sink >= self.components.len() {
            return;
        }
        let takes_error = match self.components[sink].kind {
            ComponentKind::ErrorHandler => true,
            ComponentKind::ErrorObserver => true,
            _ => false,
        };
        if !takes_error {
            return;
        }
        if on_path(path, sink) {
            let participants = cycle_from(path, sink);
            builder.add_error(Failure::Cycle { participants });
            return;
        }
        let at = builder.nodes.len();
        self.expand_into(kind, observers, sink, path, builder);
        builder.add_edge(branch, at, EdgeKind::Error);
    }
}

} // verus!

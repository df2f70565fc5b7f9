//! Compiling is deterministic: what is built depends on what the components
//! and the scopes are, and on nothing else. Two databases that hold the same
//! components in the same scopes give the same call graphs, node for node
//! and edge for edge, and the same failures in the same order.

use vstd::prelude::*;
use crate::call_graph::{lemma_unvisited_shrinks, unvisited, CallGraphNode, EdgeKind, GraphState, InputParameterSource};
use crate::aliasing::{any_exclusive, consumer_edges, owner_of};
use crate::annotations::AnnotatedConstructor;
use crate::auxiliary::AuxiliaryData;
use crate::blueprint::Blueprint;
use crate::build_facts::{lemma_processing_twice_gives_the_same, lemma_same_scopes_same_parent};
use crate::component::UserComponent;
use crate::component_db::{is_resolved, signature_of};
use crate::db::{assembled, handlers_only, is_handler_key, scope_data_attached, scope_data_attached_at};
use crate::diagnostic::ConfigErrorView;
use crate::router::RoutingTable;
use crate::diagnostic::Failure;
use crate::model::{Lifecycle, ScopeId, TypeId, UserComponentId};
use crate::resolver::{Component, ComponentDb, GraphKind, Producer};
use crate::scope::ScopeGraph;

verus! {

/// Whether two components are the same in everything that the build reads.
pub open spec fn same_component(one: Component, other: Component) -> bool {
    &&& one.kind == other.kind
    &&& one.scope_id == other.scope_id
    &&& one.lifecycle == other.lifecycle
    &&& one.cloning_strategy == other.cloning_strategy
    &&& one.inputs@ == other.inputs@
    &&& one.output == other.output
    &&& one.error == other.error
    &&& one.error_handler == other.error_handler
    &&& one.middleware@ == other.middleware@
    &&& one.error_observers@ == other.error_observers@
}

/// Whether two databases hold the same components, in the same scopes, with
/// the same types provided by the framework.
pub open spec fn same_database(one: ComponentDb, other: ComponentDb) -> bool {
    &&& one.components@.len() == other.components@.len()
    &&& forall|c: int|
        0 <= c < one.components@.len() ==> same_component(#[trigger] one.components@[c], other.components@[c])
    &&& one.scope_graph.records() == other.scope_graph.records()
    &&& one.framework_types@ == other.framework_types@
}

/// Scope graphs with the same scopes enclose alike.
pub proof fn lemma_same_scopes_enclose_alike(one: ScopeGraph, other: ScopeGraph, ancestor: ScopeId, scope: ScopeId)
    requires
        one.records() == other.records(),
    ensures
        one.encloses(ancestor, scope) == other.encloses(ancestor, scope),
    decreases scope,
{
    lemma_same_scopes_same_parent(one, other, scope);
    match one.parent_of(scope) {
        Some(p) => {
            lemma_same_scopes_enclose_alike(one, other, ancestor, p);
        },
        None => {},
    }
}

/// The same databases have the same candidates for every type.
pub proof fn lemma_same_candidates(
    one: ComponentDb,
    other: ComponentDb,
    kind: GraphKind,
    ty: TypeId,
    scope: ScopeId,
    n: int,
)
    requires
        same_database(one, other),
    ensures
        one.candidates_upto(kind, ty, scope, n) == other.candidates_upto(kind, ty, scope, n),
    decreases n,
{
    if n > 0 {
        lemma_same_candidates(one, other, kind, ty, scope, n - 1);
        if 0 <= n - 1 < one.components@.len() {
            assert(same_component(one.components@[n - 1], other.components@[n - 1]));
            lemma_same_scopes_enclose_alike(
                one.scope_graph,
                other.scope_graph,
                one.components@[n - 1].scope_id,
                scope,
            );
        }
    }
}

/// The same databases match every requested type to the same producer.
pub proof fn lemma_same_resolution(
    one: ComponentDb,
    other: ComponentDb,
    kind: GraphKind,
    ty: TypeId,
    scope: ScopeId,
    consumer: UserComponentId,
)
    requires
        same_database(one, other),
    ensures
        one.resolution(kind, ty, scope, consumer) == other.resolution(kind, ty, scope, consumer),
{
    lemma_same_candidates(one, other, kind, ty, scope, one.components@.len() as int);
}

/// The same databases say the same of every component.
pub proof fn lemma_same_facts(one: ComponentDb, other: ComponentDb, c: UserComponentId)
    requires
        same_database(one, other),
    ensures
        one.has(c) == other.has(c),
        one.has(c) ==> same_component(one.components@[c as int], other.components@[c as int]),
        one.fallible(c) == other.fallible(c),
        one.first_injected(c) == other.first_injected(c),
        one.is_sink(c) == other.is_sink(c),
        one.may_clone(c) == other.may_clone(c),
        one.is_singleton(c as int) == other.is_singleton(c as int),
        forall|at: int| one.value_node(c, at) == other.value_node(c, at),
{
    if one.has(c) {
        assert(same_component(one.components@[c as int], other.components@[c as int]));
    }
}

/// The same databases expand every component alike.
pub proof fn lemma_same_expansion(
    one: ComponentDb,
    other: ComponentDb,
    kind: GraphKind,
    observers: Seq<UserComponentId>,
    c: UserComponentId,
    path: Seq<UserComponentId>,
    st: GraphState,
)
    requires
        same_database(one, other),
    ensures
        one.expand(kind, observers, c, path, st) == other.expand(kind, observers, c, path, st),
    decreases unvisited(one.components@.len() as int, path).len(), 0int, 0int,
{
    lemma_same_facts(one, other, c);
    if one.has(c) && !path.contains(c) {
        lemma_unvisited_shrinks(one.components@.len() as int, path, c);
        let at = st.nodes.len() as int;
        let computed = st.with_node(CallGraphNode::Compute { component_id: c });
        let branched = if one.fallible(c) {
            computed.with_node(CallGraphNode::MatchBranching).with_edge(at, at + 1, EdgeKind::Outcome)
        } else {
            computed
        };
        let wired = one.wire_inputs(kind, observers, c, at, one.first_injected(c), path.push(c), branched);
        lemma_same_wiring(one, other, kind, observers, c, at, one.first_injected(c), path.push(c), branched);
        if one.fallible(c) && kind == GraphKind::RequestHandling {
            lemma_same_on_error(one, other, kind, observers, c, at + 1, path.push(c), wired);
        }
    }
}

/// The same databases wire the inputs of every component alike.
pub proof fn lemma_same_wiring(
    one: ComponentDb,
    other: ComponentDb,
    kind: GraphKind,
    observers: Seq<UserComponentId>,
    c: UserComponentId,
    target: int,
    i: int,
    path: Seq<UserComponentId>,
    st: GraphState,
)
    requires
        same_database(one, other),
    ensures
        one.wire_inputs(kind, observers, c, target, i, path, st) == other.wire_inputs(
            kind,
            observers,
            c,
            target,
            i,
            path,
            st,
        ),
    decreases unvisited(one.components@.len() as int, path).len(), 2int, one.components@[c as int].inputs@.len() - i,
{
    lemma_same_facts(one, other, c);
    if one.has(c) && 0 <= i < one.components@[c as int].inputs@.len() {
        lemma_same_input(one, other, kind, observers, c, target, i, path, st);
        lemma_same_wiring(
            one,
            other,
            kind,
            observers,
            c,
            target,
            i + 1,
            path,
            one.wire_input(kind, observers, c, target, i, path, st),
        );
    }
}

/// The same databases wire every input alike.
pub proof fn lemma_same_input(
    one: ComponentDb,
    other: ComponentDb,
    kind: GraphKind,
    observers: Seq<UserComponentId>,
    c: UserComponentId,
    target: int,
    i: int,
    path: Seq<UserComponentId>,
    st: GraphState,
)
    requires
        same_database(one, other),
        one.has(c),
        0 <= i < one.components@[c as int].inputs@.len(),
    ensures
        one.wire_input(kind, observers, c, target, i, path, st) == other.wire_input(
            kind,
            observers,
            c,
            target,
            i,
            path,
            st,
        ),
    decreases unvisited(one.components@.len() as int, path).len(), 1int, 0int,
{
    lemma_same_facts(one, other, c);
    let input = one.components@[c as int].inputs@[i];
    lemma_same_resolution(one, other, kind, input.ty, one.components@[c as int].scope_id, c);
    match one.resolution(kind, input.ty, one.components@[c as int].scope_id, c) {
        Err(e) => {},
        Ok(Producer::Framework) => {},
        Ok(Producer::Component(p)) => {
            lemma_same_facts(one, other, p);
            let shared = one.shared_node_of(kind, p, input.ty);
            if !one.has(p) {
            } else if shared is InputParameter {
            } else if path.contains(p) {
            } else if one.components@[p as int].lifecycle != Lifecycle::Transient && st.nodes.contains(shared) {
            } else {
                lemma_same_expansion(one, other, kind, observers, p, path, st);
            }
        },
    }
}

/// The same databases add the same after a failure.
pub proof fn lemma_same_on_error(
    one: ComponentDb,
    other: ComponentDb,
    kind: GraphKind,
    observers: Seq<UserComponentId>,
    c: UserComponentId,
    branch: int,
    path: Seq<UserComponentId>,
    st: GraphState,
)
    requires
        same_database(one, other),
        one.has(c),
    ensures
        one.on_error(kind, observers, c, branch, path, st) == other.on_error(kind, observers, c, branch, path, st),
    decreases unvisited(one.components@.len() as int, path).len(), 4int, 0int,
{
    lemma_same_facts(one, other, c);
    let handled = match one.components@[c as int].error_handler {
        Some(handler) => one.attach_sink(kind, observers, handler, branch, path, st),
        None => st.with_error(Failure::MissingErrorHandler { fallible: c }),
    };
    match one.components@[c as int].error_handler {
        Some(handler) => {
            lemma_same_sink(one, other, kind, observers, handler, branch, path, st);
        },
        None => {},
    }
    lemma_same_notify(one, other, kind, observers, branch, 0, path, handled);
}

/// The same databases add the same error observers.
pub proof fn lemma_same_notify(
    one: ComponentDb,
    other: ComponentDb,
    kind: GraphKind,
    observers: Seq<UserComponentId>,
    branch: int,
    k: int,
    path: Seq<UserComponentId>,
    st: GraphState,
)
    requires
        same_database(one, other),
    ensures
        one.notify(kind, observers, branch, k, path, st) == other.notify(kind, observers, branch, k, path, st),
    decreases unvisited(one.components@.len() as int, path).len(), 3int, observers.len() - k,
{
    if 0 <= k < observers.len() {
        lemma_same_sink(one, other, kind, observers, observers[k], branch, path, st);
        lemma_same_notify(
            one,
            other,
            kind,
            observers,
            branch,
            k + 1,
            path,
            one.attach_sink(kind, observers, observers[k], branch, path, st),
        );
    }
}

/// The same databases add an error handler or an error observer alike.
pub proof fn lemma_same_sink(
    one: ComponentDb,
    other: ComponentDb,
    kind: GraphKind,
    observers: Seq<UserComponentId>,
    sink: UserComponentId,
    branch: int,
    path: Seq<UserComponentId>,
    st: GraphState,
)
    requires
        same_database(one, other),
    ensures
        one.attach_sink(kind, observers, sink, branch, path, st) == other.attach_sink(
            kind,
            observers,
            sink,
            branch,
            path,
            st,
        ),
    decreases unvisited(one.components@.len() as int, path).len(), 1int, 0int,
{
    lemma_same_facts(one, other, sink);
    if one.is_sink(sink) && !path.contains(sink) {
        lemma_same_expansion(one, other, kind, observers, sink, path, st);
    }
}

impl ComponentDb {
    /// The same databases give consumers the same clones.
    pub proof fn lemma_same_duplicates(
        self,
        other: ComponentDb,
        c: UserComponentId,
        v: int,
        listed: Seq<usize>,
        k: int,
        st: GraphState,
    )
        ensures
            self.duplicate_for(c, v, listed, k, st) == other.duplicate_for(c, v, listed, k, st),
        decreases listed.len() - k,
    {
        if 0 <= k < listed.len() {
            let at = st.nodes.len() as int;
            let next = st.with_node(CallGraphNode::Duplicate { component_id: c }).with_edge(v, at, EdgeKind::Clone).redirected(
                listed[k] as int,
                at,
            );
            self.lemma_same_duplicates(other, c, v, listed, k + 1, next);
        }
    }

    /// The same databases reconcile the consumers of every value alike.
    pub proof fn lemma_same_settling(self, other: ComponentDb, given: GraphState, v: int, st: GraphState)
        requires
            same_database(self, other),
        ensures
            self.settle_from(given, v, st) == other.settle_from(given, v, st),
        decreases given.nodes.len() - v,
    {
        if 0 <= v < given.nodes.len() {
            let listed = consumer_edges(given.edges, v, given.edges.len() as int);
            match owner_of(given.nodes, v) {
                Some(c) => {
                    lemma_same_facts(self, other, c);
                    self.lemma_same_duplicates(other, c, v, listed, 1, st);
                },
                None => {},
            }
            assert(self.value_type(given.nodes, v) == other.value_type(given.nodes, v));
            assert(self.settle_node(given, v, st) == other.settle_node(given, v, st));
            self.lemma_same_settling(other, given, v + 1, self.settle_node(given, v, st));
        }
    }

    /// The same databases give the same finished call graph for every
    /// component, with the same failures.
    pub proof fn lemma_same_finished_graph(
        self,
        other: ComponentDb,
        kind: GraphKind,
        observers: Seq<UserComponentId>,
        terminal: UserComponentId,
    )
        requires
            same_database(self, other),
        ensures
            self.call_graph_of(kind, observers, terminal) == other.call_graph_of(kind, observers, terminal),
            self.finished_graph(kind, observers, terminal) == other.finished_graph(kind, observers, terminal),
    {
        lemma_same_expansion(self, other, kind, observers, terminal, Seq::empty(), GraphState::empty());
        let built = self.call_graph_of(kind, observers, terminal);
        let start = GraphState { errors: Seq::empty(), ..built };
        self.lemma_same_settling(other, start, 0, start);
    }

    /// The same databases report the same failures for the first `upto`
    /// stages of the pipeline of a handler.
    pub proof fn lemma_same_stage_failures(self, other: ComponentDb, handler: UserComponentId, upto: int)
        requires
            same_database(self, other),
            self.has(handler),
            upto <= self.components@[handler as int].middleware@.len(),
        ensures
            self.stage_failures(handler, upto) == other.stage_failures(handler, upto),
        decreases upto,
    {
        lemma_same_facts(self, other, handler);
        if upto > 0 {
            self.lemma_same_stage_failures(other, handler, upto - 1);
            self.lemma_same_finished_graph(
                other,
                GraphKind::RequestHandling,
                self.observers_of(handler),
                self.components@[handler as int].middleware@[upto - 1],
            );
        }
    }

    /// The same databases report the same failures for the handlers among
    /// the first `n` components.
    pub proof fn lemma_same_handler_failures(self, other: ComponentDb, n: int)
        requires
            same_database(self, other),
            n <= self.components@.len(),
        ensures
            self.handler_failures_upto(n) == other.handler_failures_upto(n),
            self.handlers_upto(n) == other.handlers_upto(n),
        decreases n,
    {
        if n > 0 {
            self.lemma_same_handler_failures(other, n - 1);
            let handler = (n - 1) as usize;
            assert(self.components@.len() == self.components.len());
            lemma_same_facts(self, other, handler);
            if self.is_handler(n - 1) {
                self.lemma_same_stage_failures(other, handler, self.components@[n - 1].middleware@.len() as int);
                self.lemma_same_finished_graph(other, GraphKind::RequestHandling, self.observers_of(handler), handler);
            }
        }
    }

    /// The same databases store the same singletons.
    pub proof fn lemma_same_state_graph(self, other: ComponentDb, c: int, st: GraphState)
        requires
            same_database(self, other),
        ensures
            self.store_singletons_from(c, st) == other.store_singletons_from(c, st),
        decreases self.components@.len() - c,
    {
        if 0 <= c < self.components@.len() {
            assert(self.components@.len() == self.components.len());
            lemma_same_facts(self, other, c as usize);
            if self.is_singleton(c) {
                lemma_same_expansion(self, other, GraphKind::ApplicationState, Seq::empty(), c as usize, Seq::empty(), st);
            }
            let next = if self.is_singleton(c) {
                self.store_singleton(c as usize, st)
            } else {
                st
            };
            self.lemma_same_state_graph(other, c + 1, next);
        }
    }

    /// The same databases name the same singletons and the same startup
    /// errors.
    pub proof fn lemma_same_singletons(self, other: ComponentDb, n: int)
        requires
            same_database(self, other),
            n <= self.components@.len(),
        ensures
            self.singletons_upto(n) == other.singletons_upto(n),
            self.error_variants_upto(n) == other.error_variants_upto(n),
        decreases n,
    {
        if n > 0 {
            self.lemma_same_singletons(other, n - 1);
            assert(self.components@.len() == self.components.len());
            lemma_same_facts(self, other, (n - 1) as usize);
        }
    }

    /// Compiling is deterministic: two databases that hold the same
    /// components in the same scopes are compiled to the same plan or fail
    /// with the same failures. Every call graph is the same, node for node
    /// and edge for edge, the handlers get their pipelines in the same order,
    /// the application state has the same slots, and the failures are the same
    /// and in the same order.
    pub proof fn lemma_compiling_twice_gives_the_same(self, other: ComponentDb)
        requires
            same_database(self, other),
        ensures
            self.build_failures() == other.build_failures(),
            self.finished_state_graph() == other.finished_state_graph(),
            self.handlers_upto(self.components@.len() as int) == other.handlers_upto(other.components@.len() as int),
            self.singletons_upto(self.components@.len() as int) == other.singletons_upto(
                other.components@.len() as int,
            ),
            self.error_variants_upto(self.components@.len() as int) == other.error_variants_upto(
                other.components@.len() as int,
            ),
            forall|kind: GraphKind, observers: Seq<UserComponentId>, terminal: UserComponentId|
                #[trigger] self.finished_graph(kind, observers, terminal) == other.finished_graph(
                    kind,
                    observers,
                    terminal,
                ),
    {
        let n = self.components@.len() as int;
        self.lemma_same_handler_failures(other, n);
        self.lemma_same_singletons(other, n);
        let first = GraphState::empty().with_node(CallGraphNode::StateAggregate);
        self.lemma_same_state_graph(other, 0, first);
        let built = self.state_graph();
        let start = GraphState { errors: Seq::empty(), ..built };
        self.lemma_same_settling(other, start, 0, start);
        assert forall|kind: GraphKind, observers: Seq<UserComponentId>, terminal: UserComponentId|
            #[trigger] self.finished_graph(kind, observers, terminal) == other.finished_graph(
                kind,
                observers,
                terminal,
            ) by {
            self.lemma_same_finished_graph(other, kind, observers, terminal);
        }
    }
}

/// Scope graphs with the same scopes show the same middleware and the same
/// error observers to every scope.
pub proof fn lemma_same_scopes_same_chains(one: ScopeGraph, other: ScopeGraph, scope: ScopeId)
    requires
        one.records() == other.records(),
    ensures
        one.visible_middleware(scope) == other.visible_middleware(scope),
        one.visible_error_observers(scope) == other.visible_error_observers(scope),
    decreases scope,
{
    lemma_same_scopes_same_parent(one, other, scope);
    match one.parent_of(scope) {
        Some(p) => {
            lemma_same_scopes_same_chains(one, other, p);
        },
        None => {},
    }
}

/// Two runs of the build resolve every component alike: what the resolver
/// sees of a component is the same in both.
pub proof fn lemma_resolved_alike(
    aux: AuxiliaryData,
    scopes: ScopeGraph,
    other_aux: AuxiliaryData,
    other_scopes: ScopeGraph,
    id: int,
    resolved: Component,
    other_resolved: Component,
)
    requires
        0 <= id < aux.component_interner@.len(),
        aux.records() == other_aux.records(),
        aux.component_interner@ == other_aux.component_interner@,
        aux.identifiers_interner@ == other_aux.identifiers_interner@,
        aux.annotation_interner@ == other_aux.annotation_interner@,
        scopes.records() == other_scopes.records(),
        scope_data_attached(aux, scopes),
        scope_data_attached(other_aux, other_scopes),
        handlers_only(aux),
        handlers_only(other_aux),
        is_resolved(aux, id, resolved),
        is_resolved(other_aux, id, other_resolved),
    ensures
        same_component(resolved, other_resolved),
{
    let key = id as usize;
    assert(aux.component_interner@.len() == aux.component_interner.len());
    assert(aux.records()[id] == aux.record(id));
    assert(other_aux.records()[id] == other_aux.record(id));
    assert(signature_of(aux, id) == signature_of(other_aux, id));
    assert(scope_data_attached_at(aux, scopes, id));
    assert(scope_data_attached_at(other_aux, other_scopes, id));
    match aux.component_interner@[id] {
        UserComponent::RequestHandler { source, .. } => {
            lemma_same_scopes_same_chains(scopes, other_scopes, source.scope_id);
        },
        UserComponent::Fallback { source } => {
            lemma_same_scopes_same_chains(scopes, other_scopes, source.scope_id);
        },
        _ => {
            assert(!is_handler_key(aux.component_interner@, key));
            assert(!is_handler_key(other_aux.component_interner@, key));
        },
    }
}

/// Building is deterministic from the registrations on: two runs on the same
/// blueprint and the same annotated constructors, with the same types
/// provided by the framework, give databases that hold the same components
/// in the same scopes. With `lemma_compiling_twice_gives_the_same`, they
/// give the same call graphs, node for node and edge for edge, and the same
/// failures in the same order.
pub proof fn lemma_building_twice_gives_the_same(
    blueprint: Blueprint,
    annotated: Seq<AnnotatedConstructor>,
    reported: Seq<ConfigErrorView>,
    aux: AuxiliaryData,
    table: RoutingTable,
    failures: Seq<ConfigErrorView>,
    db: ComponentDb,
    other_aux: AuxiliaryData,
    other_table: RoutingTable,
    other_failures: Seq<ConfigErrorView>,
    other_db: ComponentDb,
)
    requires
        assembled(blueprint, annotated, reported, aux, db.scope_graph, table, failures),
        assembled(blueprint, annotated, reported, other_aux, other_db.scope_graph, other_table, other_failures),
        db.components@.len() == aux.component_interner@.len(),
        other_db.components@.len() == other_aux.component_interner@.len(),
        forall|id: int| 0 <= id < db.components@.len() ==> is_resolved(aux, id, #[trigger] db.components@[id]),
        forall|id: int|
            0 <= id < other_db.components@.len() ==> is_resolved(other_aux, id, #[trigger] other_db.components@[id]),
        db.framework_types@ == other_db.framework_types@,
    ensures
        same_database(db, other_db),
        db.build_failures() == other_db.build_failures(),
        db.finished_state_graph() == other_db.finished_state_graph(),
        forall|kind: GraphKind, observers: Seq<UserComponentId>, terminal: UserComponentId|
            #[trigger] db.finished_graph(kind, observers, terminal) == other_db.finished_graph(
                kind,
                observers,
                terminal,
            ),
{
    lemma_processing_twice_gives_the_same(
        blueprint,
        annotated,
        reported,
        aux,
        db.scope_graph,
        table,
        failures,
        other_aux,
        other_db.scope_graph,
        other_table,
        other_failures,
    );
    assert forall|c: int| 0 <= c < db.components@.len() implies same_component(
        #[trigger] db.components@[c],
        other_db.components@[c],
    ) by {
        lemma_resolved_alike(aux, db.scope_graph, other_aux, other_db.scope_graph, c, db.components@[c], other_db.components@[c]);
    }
    db.lemma_compiling_twice_gives_the_same(other_db);
}

} // verus!

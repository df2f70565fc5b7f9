use pavexc::app_state::ErrorVariant;
use pavexc::call_graph::{CallGraphEdge, CallGraphNode, EdgeKind};
use pavexc::diagnostic::Failure;
use pavexc::model::{Access, CloningStrategy, ComponentKind, Input, Lifecycle};
use pavexc::resolver::{Component, ComponentDb};
use pavexc::scope::ScopeGraph;

const A: u64 = 1;
const B: u64 = 2;
const C: u64 = 3;
const ERROR: u64 = 50;
const REQUEST: u64 = 100;

fn constructor(kind: ComponentKind, lifecycle: Lifecycle, inputs: Vec<Input>, output: u64) -> Component {
    Component {
        kind,
        scope_id: 0,
        lifecycle,
        cloning_strategy: Some(CloningStrategy::NeverClone),
        inputs,
        output: Some(output),
        error: None,
        error_handler: None,
        middleware: vec![],
        error_observers: vec![],
    }
}

fn shared(ty: u64) -> Input {
    Input { ty, access: Access::Shared }
}

fn db(components: Vec<Component>) -> ComponentDb {
    ComponentDb { components, scope_graph: ScopeGraph::new(), framework_types: vec![REQUEST] }
}

fn edge(from: usize, to: usize, kind: EdgeKind) -> CallGraphEdge {
    CallGraphEdge { from, to, kind }
}

#[test]
fn an_application_without_singletons_has_an_empty_state() {
    let state = db(vec![]).build_application_state().unwrap();
    assert_eq!(state.call_graph.nodes, vec![CallGraphNode::StateAggregate]);
    assert_eq!(state.call_graph.edges, vec![]);
    assert_eq!(state.application_state.bindings, vec![]);
    assert_eq!(state.error.variants, vec![]);
}

#[test]
fn every_singleton_is_built_once_and_stored() {
    // 0: b(&A) -> B; 1: a() -> A; 2: a request-scoped constructor that is left out.
    let db = db(vec![
        constructor(ComponentKind::Constructor, Lifecycle::Singleton, vec![shared(A)], B),
        constructor(ComponentKind::PrebuiltType, Lifecycle::Singleton, vec![], A),
        constructor(ComponentKind::Constructor, Lifecycle::RequestScoped, vec![], C),
    ]);
    let state = db.build_application_state().unwrap();
    assert_eq!(
        state.call_graph.nodes,
        vec![
            CallGraphNode::StateAggregate,
            CallGraphNode::Compute { component_id: 0 },
            CallGraphNode::Compute { component_id: 1 },
        ]
    );
    assert_eq!(
        state.call_graph.edges,
        vec![edge(2, 1, EdgeKind::Consume(Access::Shared)), edge(1, 0, EdgeKind::Store), edge(2, 0, EdgeKind::Store)]
    );
    assert_eq!(state.application_state.bindings, vec![0, 1]);
    assert_eq!(state.error.variants, vec![]);
}

#[test]
fn a_fallible_singleton_is_a_variant_of_the_startup_error() {
    let mut fallible = constructor(ComponentKind::Constructor, Lifecycle::Singleton, vec![], A);
    fallible.error = Some(ERROR);
    let state = db(vec![fallible]).build_application_state().unwrap();
    assert_eq!(
        state.call_graph.nodes,
        vec![
            CallGraphNode::StateAggregate,
            CallGraphNode::Compute { component_id: 0 },
            CallGraphNode::MatchBranching,
        ]
    );
    assert_eq!(state.call_graph.edges, vec![edge(1, 2, EdgeKind::Outcome), edge(2, 0, EdgeKind::Store)]);
    assert_eq!(state.error.variants, vec![ErrorVariant { component_id: 0, error: ERROR }]);
    assert_eq!(state.application_state.bindings, vec![0]);
}

#[test]
fn a_singleton_cannot_depend_on_a_request_scoped_component() {
    let db = db(vec![
        constructor(ComponentKind::Constructor, Lifecycle::RequestScoped, vec![], A),
        constructor(ComponentKind::Constructor, Lifecycle::Singleton, vec![shared(A)], B),
    ]);
    assert_eq!(db.build_application_state(), Err(vec![Failure::MissingConstructor { ty: A, consumer: 1 }]));
}

#[test]
fn a_singleton_cannot_depend_on_the_request() {
    let db = db(vec![constructor(ComponentKind::Constructor, Lifecycle::Singleton, vec![shared(REQUEST)], B)]);
    assert_eq!(db.build_application_state(), Err(vec![Failure::MissingConstructor { ty: REQUEST, consumer: 0 }]));
}

#[test]
fn singletons_that_need_each_other_are_a_cycle() {
    let db = db(vec![
        constructor(ComponentKind::Constructor, Lifecycle::Singleton, vec![shared(B)], A),
        constructor(ComponentKind::Constructor, Lifecycle::Singleton, vec![shared(A)], B),
    ]);
    let failures = db.build_application_state().unwrap_err();
    assert_eq!(failures[0], Failure::Cycle { participants: vec![0, 1] });
    assert!(db.holds_singleton(0));
    assert!(!db.holds_singleton(2));
}

use pavexc::call_graph::{CallGraph, CallGraphEdge, CallGraphNode, EdgeKind, InputParameterSource};
use pavexc::diagnostic::Failure;
use pavexc::model::{Access, CloningStrategy, ComponentKind, Input, Lifecycle};
use pavexc::resolver::{Component, ComponentDb, GraphKind};
use pavexc::scope::ScopeGraph;

const A: u64 = 1;
const B: u64 = 2;
const RESPONSE: u64 = 9;
const REQUEST: u64 = 100;

fn component(kind: ComponentKind, lifecycle: Lifecycle, inputs: Vec<Input>, output: Option<u64>) -> Component {
    Component {
        kind,
        scope_id: 0,
        lifecycle,
        cloning_strategy: None,
        inputs,
        output,
        error: None,
        error_handler: None,
        middleware: vec![],
        error_observers: vec![],
    }
}

fn constructor(lifecycle: Lifecycle, strategy: CloningStrategy, inputs: Vec<Input>, output: u64) -> Component {
    let mut c = component(ComponentKind::Constructor, lifecycle, inputs, Some(output));
    c.cloning_strategy = Some(strategy);
    c
}

fn handler(inputs: Vec<Input>) -> Component {
    component(ComponentKind::RequestHandler, Lifecycle::RequestScoped, inputs, Some(RESPONSE))
}

fn input(ty: u64, access: Access) -> Input {
    Input { ty, access }
}

fn db(components: Vec<Component>) -> ComponentDb {
    ComponentDb { components, scope_graph: ScopeGraph::new(), framework_types: vec![REQUEST] }
}

fn edge(from: usize, to: usize, kind: EdgeKind) -> CallGraphEdge {
    CallGraphEdge { from, to, kind }
}

#[test]
fn exclusive_and_shared_access_to_an_unclonable_singleton_is_a_conflict() {
    // a() -> A (singleton, never clone); b(&A) -> B (request-scoped); h(&mut A, B).
    let db = db(vec![
        constructor(Lifecycle::Singleton, CloningStrategy::NeverClone, vec![], A),
        constructor(Lifecycle::RequestScoped, CloningStrategy::NeverClone, vec![input(A, Access::Shared)], B),
        handler(vec![input(A, Access::Exclusive), input(B, Access::Owned)]),
    ]);
    let (_, failures) = db.finish_call_graph(GraphKind::RequestHandling, 2, &vec![]);
    assert_eq!(failures, vec![Failure::AliasingConflict { ty: A, consumers: vec![2, 1] }]);
    assert!(db.build_pipeline(2).is_err());
}

#[test]
fn exclusive_and_shared_access_to_an_unclonable_request_scoped_value_is_a_conflict() {
    let db = db(vec![
        constructor(Lifecycle::RequestScoped, CloningStrategy::NeverClone, vec![], A),
        constructor(Lifecycle::RequestScoped, CloningStrategy::NeverClone, vec![input(A, Access::Shared)], B),
        handler(vec![input(A, Access::Exclusive), input(B, Access::Owned)]),
    ]);
    let (_, failures) = db.finish_call_graph(GraphKind::RequestHandling, 2, &vec![]);
    assert_eq!(failures, vec![Failure::AliasingConflict { ty: A, consumers: vec![2, 1] }]);
}

#[test]
fn a_clonable_value_is_cloned_for_the_second_consumer() {
    let db = db(vec![
        constructor(Lifecycle::Singleton, CloningStrategy::CloneIfNecessary, vec![], A),
        constructor(Lifecycle::RequestScoped, CloningStrategy::NeverClone, vec![input(A, Access::Shared)], B),
        handler(vec![input(A, Access::Exclusive), input(B, Access::Owned)]),
    ]);
    let (graph, failures) = db.finish_call_graph(GraphKind::RequestHandling, 2, &vec![]);
    assert_eq!(failures, vec![]);
    assert_eq!(
        graph.nodes,
        vec![
            CallGraphNode::Compute { component_id: 2 },
            CallGraphNode::InputParameter { ty: A, source: InputParameterSource::ApplicationState { component_id: 0 } },
            CallGraphNode::Compute { component_id: 1 },
            CallGraphNode::Duplicate { component_id: 0 },
        ]
    );
    assert_eq!(
        graph.edges,
        vec![
            edge(1, 0, EdgeKind::Consume(Access::Exclusive)),
            edge(3, 2, EdgeKind::Consume(Access::Shared)),
            edge(2, 0, EdgeKind::Consume(Access::Owned)),
            edge(1, 3, EdgeKind::Clone),
        ]
    );
}

#[test]
fn shared_access_by_several_consumers_is_no_conflict() {
    let db = db(vec![
        constructor(Lifecycle::RequestScoped, CloningStrategy::NeverClone, vec![], A),
        constructor(Lifecycle::RequestScoped, CloningStrategy::NeverClone, vec![input(A, Access::Shared)], B),
        handler(vec![input(A, Access::Shared), input(B, Access::Shared)]),
    ]);
    let (graph, failures) = db.finish_call_graph(GraphKind::RequestHandling, 2, &vec![]);
    assert_eq!(failures, vec![]);
    assert_eq!(graph.nodes.len(), 3);
}

#[test]
fn one_exclusive_consumer_alone_is_no_conflict() {
    let db = db(vec![
        constructor(Lifecycle::RequestScoped, CloningStrategy::NeverClone, vec![], A),
        handler(vec![input(A, Access::Exclusive)]),
    ]);
    let (_, failures) = db.finish_call_graph(GraphKind::RequestHandling, 1, &vec![]);
    assert_eq!(failures, vec![]);
}

#[test]
fn two_exclusive_consumers_of_the_request_are_a_conflict() {
    let db = db(vec![
        constructor(Lifecycle::RequestScoped, CloningStrategy::NeverClone, vec![input(REQUEST, Access::Exclusive)], A),
        handler(vec![input(REQUEST, Access::Shared), input(A, Access::Owned)]),
    ]);
    let (_, failures) = db.finish_call_graph(GraphKind::RequestHandling, 1, &vec![]);
    assert_eq!(failures, vec![Failure::AliasingConflict { ty: REQUEST, consumers: vec![1, 0] }]);
}

#[test]
fn settling_a_graph_by_hand_clones_for_every_consumer_but_the_first() {
    let db = db(vec![constructor(Lifecycle::RequestScoped, CloningStrategy::CloneIfNecessary, vec![], A)]);
    let graph = CallGraph {
        nodes: vec![
            CallGraphNode::Compute { component_id: 0 },
            CallGraphNode::Compute { component_id: 7 },
            CallGraphNode::Compute { component_id: 8 },
            CallGraphNode::Compute { component_id: 9 },
        ],
        edges: vec![
            edge(0, 1, EdgeKind::Consume(Access::Owned)),
            edge(0, 2, EdgeKind::Consume(Access::Owned)),
            edge(0, 3, EdgeKind::Consume(Access::Shared)),
        ],
    };
    let settled = db.settle_aliasing(&graph);
    assert_eq!(settled.errors, vec![]);
    assert_eq!(settled.nodes.len(), 6);
    assert_eq!(settled.nodes[4], CallGraphNode::Duplicate { component_id: 0 });
    assert_eq!(settled.nodes[5], CallGraphNode::Duplicate { component_id: 0 });
    assert_eq!(
        settled.edges,
        vec![
            edge(0, 1, EdgeKind::Consume(Access::Owned)),
            edge(4, 2, EdgeKind::Consume(Access::Owned)),
            edge(5, 3, EdgeKind::Consume(Access::Shared)),
            edge(0, 4, EdgeKind::Clone),
            edge(0, 5, EdgeKind::Clone),
        ]
    );
}

#[test]
fn access_by_value_excludes_others_and_shared_access_does_not() {
    assert!(Access::Owned.is_exclusive());
    assert!(Access::Exclusive.is_exclusive());
    assert!(!Access::Shared.is_exclusive());
}

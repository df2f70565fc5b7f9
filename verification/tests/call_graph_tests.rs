use pavexc::call_graph::{
    build_call_graph, CallGraph, CallGraphEdge, CallGraphNode, EdgeKind, InputParameterSource,
};
use pavexc::diagnostic::Failure;
use pavexc::model::{Access, CloningStrategy, ComponentKind, Input, Lifecycle};
use pavexc::resolver::{Component, ComponentDb, GraphKind};
use pavexc::schedule::execution_order;
use pavexc::scope::ScopeGraph;

const A: u64 = 1;
const B: u64 = 2;
const RESPONSE: u64 = 9;
const ERROR: u64 = 50;
const REQUEST: u64 = 100;

fn component(kind: ComponentKind, lifecycle: Lifecycle, inputs: Vec<Input>, output: Option<u64>) -> Component {
    Component {
        kind,
        scope_id: 0,
        lifecycle,
        cloning_strategy: None,
        inputs,
        output,
        error: None,
        error_handler: None,
        middleware: vec![],
        error_observers: vec![],
    }
}

fn constructor(lifecycle: Lifecycle, inputs: Vec<Input>, output: u64) -> Component {
    let mut c = component(ComponentKind::Constructor, lifecycle, inputs, Some(output));
    c.cloning_strategy = Some(CloningStrategy::NeverClone);
    c
}

fn handler(inputs: Vec<Input>) -> Component {
    component(ComponentKind::RequestHandler, Lifecycle::RequestScoped, inputs, Some(RESPONSE))
}

fn shared(ty: u64) -> Input {
    Input { ty, access: Access::Shared }
}

fn owned(ty: u64) -> Input {
    Input { ty, access: Access::Owned }
}

fn db(components: Vec<Component>) -> ComponentDb {
    ComponentDb { components, scope_graph: ScopeGraph::new(), framework_types: vec![REQUEST] }
}

fn edge(from: usize, to: usize, kind: EdgeKind) -> CallGraphEdge {
    CallGraphEdge { from, to, kind }
}

#[test]
fn a_handler_without_inputs_is_a_single_node() {
    let db = db(vec![handler(vec![])]);
    let graph = build_call_graph(&db, GraphKind::RequestHandling, 0, &vec![]).unwrap();
    assert_eq!(graph, CallGraph { nodes: vec![CallGraphNode::Compute { component_id: 0 }], edges: vec![] });
}

#[test]
fn mutual_need_is_a_cycle_naming_both() {
    // a(B) -> A, b(A) -> B, h(A).
    let db = db(vec![
        constructor(Lifecycle::RequestScoped, vec![owned(B)], A),
        constructor(Lifecycle::RequestScoped, vec![owned(A)], B),
        handler(vec![owned(A)]),
    ]);
    assert_eq!(
        build_call_graph(&db, GraphKind::RequestHandling, 2, &vec![]),
        Err(vec![Failure::Cycle { participants: vec![0, 1] }])
    );
}

#[test]
fn a_component_that_needs_itself_is_a_cycle() {
    let db = db(vec![constructor(Lifecycle::Transient, vec![shared(A)], A), handler(vec![shared(A)])]);
    assert_eq!(
        build_call_graph(&db, GraphKind::RequestHandling, 1, &vec![]),
        Err(vec![Failure::Cycle { participants: vec![0] }])
    );
}

#[test]
fn a_singleton_is_a_shared_input_of_each_handler_graph() {
    let db = db(vec![
        constructor(Lifecycle::Singleton, vec![], A),
        handler(vec![shared(A)]),
        handler(vec![shared(A), shared(A)]),
    ]);
    let state_input =
        CallGraphNode::InputParameter { ty: A, source: InputParameterSource::ApplicationState { component_id: 0 } };
    let first = build_call_graph(&db, GraphKind::RequestHandling, 1, &vec![]).unwrap();
    assert_eq!(first.nodes, vec![CallGraphNode::Compute { component_id: 1 }, state_input]);
    assert_eq!(first.edges, vec![edge(1, 0, EdgeKind::Consume(Access::Shared))]);
    let second = build_call_graph(&db, GraphKind::RequestHandling, 2, &vec![]).unwrap();
    assert_eq!(second.nodes, vec![CallGraphNode::Compute { component_id: 2 }, state_input]);
    assert_eq!(
        second.edges,
        vec![edge(1, 0, EdgeKind::Consume(Access::Shared)), edge(1, 0, EdgeKind::Consume(Access::Shared))]
    );
    assert!(!first.nodes.contains(&CallGraphNode::Compute { component_id: 0 }));
    assert!(!second.nodes.contains(&CallGraphNode::Compute { component_id: 0 }));
}

#[test]
fn a_transient_consumed_twice_is_computed_twice() {
    let db = db(vec![constructor(Lifecycle::Transient, vec![], A), handler(vec![owned(A), owned(A)])]);
    let graph = build_call_graph(&db, GraphKind::RequestHandling, 1, &vec![]).unwrap();
    assert_eq!(
        graph.nodes,
        vec![
            CallGraphNode::Compute { component_id: 1 },
            CallGraphNode::Compute { component_id: 0 },
            CallGraphNode::Compute { component_id: 0 },
        ]
    );
    assert_eq!(
        graph.edges,
        vec![edge(1, 0, EdgeKind::Consume(Access::Owned)), edge(2, 0, EdgeKind::Consume(Access::Owned))]
    );
}

#[test]
fn a_request_scoped_component_consumed_twice_is_computed_once() {
    // b(A) -> B; h(A, B): both take the one node of `a`.
    let db = db(vec![
        constructor(Lifecycle::RequestScoped, vec![], A),
        constructor(Lifecycle::RequestScoped, vec![shared(A)], B),
        handler(vec![shared(A), owned(B)]),
    ]);
    let graph = build_call_graph(&db, GraphKind::RequestHandling, 2, &vec![]).unwrap();
    assert_eq!(
        graph.nodes,
        vec![
            CallGraphNode::Compute { component_id: 2 },
            CallGraphNode::Compute { component_id: 0 },
            CallGraphNode::Compute { component_id: 1 },
        ]
    );
    assert_eq!(
        graph.edges,
        vec![
            edge(1, 0, EdgeKind::Consume(Access::Shared)),
            edge(1, 2, EdgeKind::Consume(Access::Shared)),
            edge(2, 0, EdgeKind::Consume(Access::Owned)),
        ]
    );
}

#[test]
fn what_the_framework_provides_is_an_input_parameter() {
    let db = db(vec![handler(vec![shared(REQUEST)])]);
    let graph = build_call_graph(&db, GraphKind::RequestHandling, 0, &vec![]).unwrap();
    assert_eq!(
        graph.nodes,
        vec![
            CallGraphNode::Compute { component_id: 0 },
            CallGraphNode::InputParameter { ty: REQUEST, source: InputParameterSource::Framework },
        ]
    );
    assert_eq!(graph.edges, vec![edge(1, 0, EdgeKind::Consume(Access::Shared))]);
}

#[test]
fn every_missing_input_is_reported() {
    let db = db(vec![handler(vec![shared(A), shared(B)])]);
    assert_eq!(
        build_call_graph(&db, GraphKind::RequestHandling, 0, &vec![]),
        Err(vec![
            Failure::MissingConstructor { ty: A, consumer: 0 },
            Failure::MissingConstructor { ty: B, consumer: 0 },
        ])
    );
}

#[test]
fn a_fallible_constructor_branches_to_its_error_handler_and_the_observers() {
    // 0: b() -> Result<B, E>; 1: its error handler (&E); 2: observer (&E); 3: h(B).
    let mut fallible = constructor(Lifecycle::RequestScoped, vec![], B);
    fallible.error = Some(ERROR);
    fallible.error_handler = Some(1);
    let error_handler =
        component(ComponentKind::ErrorHandler, Lifecycle::RequestScoped, vec![shared(ERROR)], Some(RESPONSE));
    let observer = component(ComponentKind::ErrorObserver, Lifecycle::RequestScoped, vec![shared(ERROR)], None);
    let db = db(vec![fallible, error_handler, observer, handler(vec![owned(B)])]);
    let graph = build_call_graph(&db, GraphKind::RequestHandling, 3, &vec![2]).unwrap();
    assert_eq!(
        graph.nodes,
        vec![
            CallGraphNode::Compute { component_id: 3 },
            CallGraphNode::Compute { component_id: 0 },
            CallGraphNode::MatchBranching,
            CallGraphNode::Compute { component_id: 1 },
            CallGraphNode::Compute { component_id: 2 },
        ]
    );
    assert_eq!(
        graph.edges,
        vec![
            edge(1, 2, EdgeKind::Outcome),
            edge(2, 3, EdgeKind::Error),
            edge(2, 4, EdgeKind::Error),
            edge(2, 0, EdgeKind::Consume(Access::Owned)),
        ]
    );
}

#[test]
fn an_error_handler_gets_its_other_inputs_injected() {
    // 0: a() -> A singleton; 1: b() -> Result<B, E>; 2: error handler (&E, &A); 3: h(B).
    let mut fallible = constructor(Lifecycle::RequestScoped, vec![], B);
    fallible.error = Some(ERROR);
    fallible.error_handler = Some(2);
    let error_handler = component(
        ComponentKind::ErrorHandler,
        Lifecycle::RequestScoped,
        vec![shared(ERROR), shared(A)],
        Some(RESPONSE),
    );
    let db = db(vec![constructor(Lifecycle::Singleton, vec![], A), fallible, error_handler, handler(vec![owned(B)])]);
    let graph = build_call_graph(&db, GraphKind::RequestHandling, 3, &vec![]).unwrap();
    assert_eq!(
        graph.nodes,
        vec![
            CallGraphNode::Compute { component_id: 3 },
            CallGraphNode::Compute { component_id: 1 },
            CallGraphNode::MatchBranching,
            CallGraphNode::Compute { component_id: 2 },
            CallGraphNode::InputParameter { ty: A, source: InputParameterSource::ApplicationState { component_id: 0 } },
        ]
    );
    assert_eq!(
        graph.edges,
        vec![
            edge(1, 2, EdgeKind::Outcome),
            edge(4, 3, EdgeKind::Consume(Access::Shared)),
            edge(2, 3, EdgeKind::Error),
            edge(2, 0, EdgeKind::Consume(Access::Owned)),
        ]
    );
}

#[test]
fn a_fallible_constructor_without_error_handler_is_reported() {
    let mut fallible = constructor(Lifecycle::RequestScoped, vec![], B);
    fallible.error = Some(ERROR);
    let db = db(vec![fallible, handler(vec![owned(B)])]);
    assert_eq!(
        build_call_graph(&db, GraphKind::RequestHandling, 1, &vec![]),
        Err(vec![Failure::MissingErrorHandler { fallible: 0 }])
    );
}

#[test]
fn building_twice_gives_the_same_graph() {
    let mut fallible = constructor(Lifecycle::Transient, vec![shared(A)], B);
    fallible.error = Some(ERROR);
    fallible.error_handler = Some(2);
    let error_handler =
        component(ComponentKind::ErrorHandler, Lifecycle::RequestScoped, vec![shared(ERROR)], Some(RESPONSE));
    let db = db(vec![
        constructor(Lifecycle::RequestScoped, vec![shared(REQUEST)], A),
        fallible,
        error_handler,
        handler(vec![owned(B), shared(A), owned(B)]),
    ]);
    let first = build_call_graph(&db, GraphKind::RequestHandling, 3, &vec![]).unwrap();
    let second = build_call_graph(&db, GraphKind::RequestHandling, 3, &vec![]).unwrap();
    assert_eq!(first, second);
    assert_eq!(first.nodes.len(), 9);
    assert_eq!(first.nodes[0], CallGraphNode::Compute { component_id: 3 });
}

#[test]
fn a_terminal_that_is_no_component_gives_an_empty_graph() {
    let db = db(vec![]);
    assert_eq!(
        build_call_graph(&db, GraphKind::RequestHandling, 5, &vec![]),
        Ok(CallGraph { nodes: vec![], edges: vec![] })
    );
}

/// Whether the nodes can be put in an order in which every edge leads forward.
fn has_no_cycle(graph: &CallGraph) -> bool {
    let n = graph.nodes.len();
    let mut incoming = vec![0usize; n];
    for e in &graph.edges {
        incoming[e.to] += 1;
    }
    let mut ready: Vec<usize> = (0..n).filter(|i| incoming[*i] == 0).collect();
    let mut placed = 0;
    while let Some(v) = ready.pop() {
        placed += 1;
        for e in &graph.edges {
            if e.from == v {
                incoming[e.to] -= 1;
                if incoming[e.to] == 0 {
                    ready.push(e.to);
                }
            }
        }
    }
    placed == n
}

#[test]
fn built_graphs_have_no_cycle() {
    let mut fallible = constructor(Lifecycle::RequestScoped, vec![shared(A)], B);
    fallible.error = Some(ERROR);
    fallible.error_handler = Some(2);
    let error_handler = component(
        ComponentKind::ErrorHandler,
        Lifecycle::RequestScoped,
        vec![shared(ERROR), shared(A), shared(REQUEST)],
        Some(RESPONSE),
    );
    let observer =
        component(ComponentKind::ErrorObserver, Lifecycle::RequestScoped, vec![shared(ERROR), shared(A)], None);
    let mut cloned = constructor(Lifecycle::RequestScoped, vec![shared(REQUEST)], A);
    cloned.cloning_strategy = Some(CloningStrategy::CloneIfNecessary);
    let db = db(vec![
        cloned,
        fallible,
        error_handler,
        handler(vec![owned(B), owned(A), shared(A), shared(REQUEST)]),
        observer,
    ]);
    let built = build_call_graph(&db, GraphKind::RequestHandling, 3, &vec![4]).unwrap();
    assert!(has_no_cycle(&built));
    let (finished, failures) = db.finish_call_graph(GraphKind::RequestHandling, 3, &vec![4]);
    assert_eq!(failures, vec![]);
    assert!(finished.nodes.len() > built.nodes.len());
    assert!(has_no_cycle(&finished));
    assert_eq!(finished.nodes[0], CallGraphNode::Compute { component_id: 3 });
    // The nodes can be computed in order, each after the nodes it takes from, the handler last.
    let order = execution_order(&finished).unwrap();
    assert_eq!(order.len(), finished.nodes.len());
    for e in &finished.edges {
        let from = order.iter().position(|v| *v == e.from).unwrap();
        let to = order.iter().position(|v| *v == e.to).unwrap();
        assert!(from < to);
    }
    assert_eq!(order[order.len() - 1], 0);
    // A graph with a cycle is told apart.
    let looped = CallGraph {
        nodes: vec![CallGraphNode::MatchBranching, CallGraphNode::MatchBranching],
        edges: vec![edge(0, 1, EdgeKind::Outcome), edge(1, 0, EdgeKind::Outcome)],
    };
    assert!(!has_no_cycle(&looped));
    assert_eq!(execution_order(&looped), None);
}

#[test]
fn a_component_that_is_no_error_handler_is_not_given_the_error() {
    // The error handler named for the fallible constructor is a constructor: nothing is added for it.
    let mut fallible = constructor(Lifecycle::RequestScoped, vec![], B);
    fallible.error = Some(ERROR);
    fallible.error_handler = Some(1);
    let db = db(vec![fallible, constructor(Lifecycle::Singleton, vec![], A), handler(vec![owned(B)])]);
    let graph = build_call_graph(&db, GraphKind::RequestHandling, 2, &vec![1]).unwrap();
    assert_eq!(
        graph.nodes,
        vec![
            CallGraphNode::Compute { component_id: 2 },
            CallGraphNode::Compute { component_id: 0 },
            CallGraphNode::MatchBranching,
        ]
    );
    assert_eq!(graph.edges, vec![edge(1, 2, EdgeKind::Outcome), edge(2, 0, EdgeKind::Consume(Access::Owned))]);
}

#[test]
fn a_cycle_is_reported_whatever_else_the_two_components_need() {
    // 0: a(C, B) -> A; 1: b(A) -> B; 2: c(B) -> C; 3: h(REQUEST, A).
    const C: u64 = 3;
    let db = db(vec![
        constructor(Lifecycle::RequestScoped, vec![shared(C), owned(B)], A),
        constructor(Lifecycle::RequestScoped, vec![owned(A)], B),
        constructor(Lifecycle::RequestScoped, vec![shared(B)], C),
        handler(vec![shared(REQUEST), owned(A)]),
    ]);
    let failures = build_call_graph(&db, GraphKind::RequestHandling, 3, &vec![]).unwrap_err();
    assert_eq!(failures, vec![Failure::Cycle { participants: vec![0, 2, 1] }]);
    assert!(failures.iter().any(|f| match f {
        Failure::Cycle { participants } => participants.contains(&0) && participants.contains(&1),
        _ => false,
    }));
}

#[test]
fn no_two_consumers_take_the_value_of_one_node_of_a_transient_component() {
    let mut fallible = constructor(Lifecycle::Transient, vec![shared(A)], B);
    fallible.error = Some(ERROR);
    fallible.error_handler = Some(2);
    let error_handler =
        component(ComponentKind::ErrorHandler, Lifecycle::RequestScoped, vec![shared(ERROR), owned(A)], Some(RESPONSE));
    let db = db(vec![
        constructor(Lifecycle::Transient, vec![], A),
        fallible,
        error_handler,
        handler(vec![owned(B), owned(A), owned(B), shared(A)]),
    ]);
    let (graph, failures) = db.finish_call_graph(GraphKind::RequestHandling, 3, &vec![]);
    assert_eq!(failures, vec![]);
    for (v, node) in graph.nodes.iter().enumerate() {
        let value = match node {
            CallGraphNode::Compute { component_id: 0 } => v,
            CallGraphNode::Compute { component_id: 1 } => v + 1,
            _ => continue,
        };
        let consumers =
            graph.edges.iter().filter(|e| e.from == value && matches!(e.kind, EdgeKind::Consume(_))).count();
        assert_eq!(consumers, 1);
    }
    let computed = |c: usize| graph.nodes.iter().filter(|n| **n == CallGraphNode::Compute { component_id: c }).count();
    assert_eq!(computed(1), 2);
    assert_eq!(computed(0), 6);
}

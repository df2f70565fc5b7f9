use pavexc::call_graph::CallGraphNode;
use pavexc::diagnostic::Failure;
use pavexc::model::{Access, CloningStrategy, ComponentKind, Input, Lifecycle};
use pavexc::resolver::{Component, ComponentDb};
use pavexc::scope::ScopeGraph;

const A: u64 = 1;
const B: u64 = 2;
const RESPONSE: u64 = 9;

fn component(kind: ComponentKind, inputs: Vec<Input>, output: Option<u64>) -> Component {
    Component {
        kind,
        scope_id: 0,
        lifecycle: Lifecycle::RequestScoped,
        cloning_strategy: None,
        inputs,
        output,
        error: None,
        error_handler: None,
        middleware: vec![],
        error_observers: vec![],
    }
}

fn shared(ty: u64) -> Input {
    Input { ty, access: Access::Shared }
}

fn db(components: Vec<Component>) -> ComponentDb {
    ComponentDb { components, scope_graph: ScopeGraph::new(), framework_types: vec![] }
}

#[test]
fn a_pipeline_has_a_stage_for_each_middleware_in_order_and_one_for_the_handler() {
    let mut constructor = component(ComponentKind::Constructor, vec![], Some(A));
    constructor.cloning_strategy = Some(CloningStrategy::NeverClone);
    let mut handler = component(ComponentKind::RequestHandler, vec![shared(A)], Some(RESPONSE));
    handler.middleware = vec![2, 3, 4];
    let db = db(vec![
        constructor,
        handler,
        component(ComponentKind::PostProcessingMiddleware, vec![], Some(RESPONSE)),
        component(ComponentKind::WrappingMiddleware, vec![shared(A)], Some(RESPONSE)),
        component(ComponentKind::PreProcessingMiddleware, vec![], None),
    ]);
    let pipeline = db.build_pipeline(1).unwrap();
    assert_eq!(pipeline.handler_id, 1);
    let stages: Vec<usize> = pipeline.middleware_stages.iter().map(|s| s.component_id).collect();
    assert_eq!(stages, vec![2, 3, 4]);
    assert_eq!(pipeline.middleware_stages[0].call_graph.nodes, vec![CallGraphNode::Compute { component_id: 2 }]);
    assert_eq!(
        pipeline.middleware_stages[1].call_graph.nodes,
        vec![CallGraphNode::Compute { component_id: 3 }, CallGraphNode::Compute { component_id: 0 }]
    );
    assert_eq!(pipeline.handler_stage.component_id, 1);
    assert_eq!(
        pipeline.handler_stage.call_graph.nodes,
        vec![CallGraphNode::Compute { component_id: 1 }, CallGraphNode::Compute { component_id: 0 }]
    );
}

#[test]
fn the_failures_of_every_stage_are_reported_in_the_order_of_the_stages() {
    let mut handler = component(ComponentKind::RequestHandler, vec![shared(A)], Some(RESPONSE));
    handler.middleware = vec![1];
    let db = db(vec![handler, component(ComponentKind::WrappingMiddleware, vec![shared(B)], Some(RESPONSE))]);
    assert_eq!(
        db.build_pipeline(0),
        Err(vec![
            Failure::MissingConstructor { ty: B, consumer: 1 },
            Failure::MissingConstructor { ty: A, consumer: 0 },
        ])
    );
}

#[test]
fn a_failing_handler_does_not_hide_the_failures_of_the_others() {
    let db = db(vec![
        component(ComponentKind::RequestHandler, vec![shared(A)], Some(RESPONSE)),
        component(ComponentKind::RequestHandler, vec![], Some(RESPONSE)),
        component(ComponentKind::RequestHandler, vec![shared(B)], Some(RESPONSE)),
    ]);
    assert_eq!(
        db.compile(),
        Err(vec![
            Failure::MissingConstructor { ty: A, consumer: 0 },
            Failure::MissingConstructor { ty: B, consumer: 2 },
        ])
    );
}

#[test]
fn a_build_without_failures_gives_a_pipeline_for_each_handler() {
    let mut constructor = component(ComponentKind::Constructor, vec![], Some(A));
    constructor.cloning_strategy = Some(CloningStrategy::NeverClone);
    constructor.lifecycle = Lifecycle::Singleton;
    let db = db(vec![
        component(ComponentKind::RequestHandler, vec![shared(A)], Some(RESPONSE)),
        constructor,
        component(ComponentKind::RequestHandler, vec![], Some(RESPONSE)),
    ]);
    let plan = db.compile().unwrap();
    let handlers: Vec<usize> = plan.pipelines.iter().map(|p| p.handler_id).collect();
    assert_eq!(handlers, vec![0, 2]);
    assert_eq!(plan.application_state.application_state.bindings, vec![1]);
}

#[test]
fn stages_run_pre_processing_first_then_wrapping_then_the_handler_then_post_processing() {
    let mut handler = component(ComponentKind::RequestHandler, vec![], Some(RESPONSE));
    handler.middleware = vec![1, 2, 3, 4, 5, 6, 99];
    let db = db(vec![
        handler,
        component(ComponentKind::PostProcessingMiddleware, vec![], Some(RESPONSE)),
        component(ComponentKind::WrappingMiddleware, vec![], Some(RESPONSE)),
        component(ComponentKind::PreProcessingMiddleware, vec![], None),
        component(ComponentKind::PostProcessingMiddleware, vec![], Some(RESPONSE)),
        component(ComponentKind::PreProcessingMiddleware, vec![], None),
        component(ComponentKind::WrappingMiddleware, vec![], Some(RESPONSE)),
    ]);
    assert_eq!(db.order_of_execution(0), vec![3, 5, 2, 6, 0, 1, 4]);
    // The continuation of a wrapping middleware invokes the next one, and that of the last the handler.
    let pipeline = db.build_pipeline(0).unwrap();
    let continuations: Vec<Option<usize>> = pipeline.middleware_stages.iter().map(|s| s.continuation).collect();
    assert_eq!(continuations, vec![None, Some(6), None, None, None, Some(0), None]);
    assert_eq!(pipeline.handler_stage.continuation, None);
    assert_eq!(db.find_downstream(&vec![1, 2, 3], 0, 0), 2);
    assert_eq!(db.find_downstream(&vec![1, 2, 3], 2, 0), 0);
}

use pavexc::diagnostic::Failure;
use pavexc::model::{Access, CloningStrategy, ComponentKind, Input, Lifecycle};
use pavexc::resolver::{Component, ComponentDb, GraphKind, Producer};
use pavexc::scope::ScopeGraph;

fn constructor(scope_id: usize, lifecycle: Lifecycle, inputs: Vec<Input>, output: u64) -> Component {
    Component {
        kind: ComponentKind::Constructor,
        scope_id,
        lifecycle,
        cloning_strategy: Some(CloningStrategy::NeverClone),
        inputs,
        output: Some(output),
        error: None,
        error_handler: None,
        middleware: vec![],
        error_observers: vec![],
    }
}

const A: u64 = 1;
const REQUEST: u64 = 100;

#[test]
fn two_producers_of_one_type_in_sight_are_ambiguous() {
    let db = ComponentDb {
        components: vec![
            constructor(0, Lifecycle::RequestScoped, vec![], A),
            constructor(0, Lifecycle::RequestScoped, vec![], A),
        ],
        scope_graph: ScopeGraph::new(),
        framework_types: vec![],
    };
    assert_eq!(
        db.resolve(GraphKind::RequestHandling, A, 0, 7),
        Err(Failure::AmbiguousConstructor { ty: A, consumer: 7, candidates: vec![0, 1] })
    );
}

#[test]
fn no_producer_in_sight_is_a_missing_constructor() {
    let db = ComponentDb { components: vec![], scope_graph: ScopeGraph::new(), framework_types: vec![] };
    assert_eq!(
        db.resolve(GraphKind::RequestHandling, A, 0, 3),
        Err(Failure::MissingConstructor { ty: A, consumer: 3 })
    );
}

#[test]
fn one_producer_in_sight_is_found() {
    let db = ComponentDb {
        components: vec![constructor(0, Lifecycle::Transient, vec![], A)],
        scope_graph: ScopeGraph::new(),
        framework_types: vec![],
    };
    assert_eq!(db.resolve(GraphKind::RequestHandling, A, 0, 3), Ok(Producer::Component(0)));
}

#[test]
fn a_producer_of_a_nested_scope_is_not_seen_from_outside() {
    let mut scopes = ScopeGraph::new();
    let nested = scopes.add_scope(0, None, None);
    let sibling = scopes.add_scope(0, None, None);
    let db = ComponentDb {
        components: vec![constructor(nested, Lifecycle::RequestScoped, vec![], A)],
        scope_graph: scopes,
        framework_types: vec![],
    };
    assert_eq!(db.resolve(GraphKind::RequestHandling, A, nested, 9), Ok(Producer::Component(0)));
    assert_eq!(
        db.resolve(GraphKind::RequestHandling, A, 0, 9),
        Err(Failure::MissingConstructor { ty: A, consumer: 9 })
    );
    assert_eq!(
        db.resolve(GraphKind::RequestHandling, A, sibling, 9),
        Err(Failure::MissingConstructor { ty: A, consumer: 9 })
    );
}

#[test]
fn producers_in_two_sibling_scopes_do_not_clash() {
    let mut scopes = ScopeGraph::new();
    let left = scopes.add_scope(0, None, None);
    let right = scopes.add_scope(0, None, None);
    let db = ComponentDb {
        components: vec![
            constructor(left, Lifecycle::RequestScoped, vec![], A),
            constructor(right, Lifecycle::RequestScoped, vec![], A),
        ],
        scope_graph: scopes,
        framework_types: vec![],
    };
    assert_eq!(db.resolve(GraphKind::RequestHandling, A, left, 9), Ok(Producer::Component(0)));
    assert_eq!(db.resolve(GraphKind::RequestHandling, A, right, 9), Ok(Producer::Component(1)));
}

#[test]
fn the_framework_provides_the_request() {
    let db = ComponentDb { components: vec![], scope_graph: ScopeGraph::new(), framework_types: vec![REQUEST] };
    assert_eq!(db.resolve(GraphKind::RequestHandling, REQUEST, 0, 0), Ok(Producer::Framework));
    assert_eq!(
        db.resolve(GraphKind::ApplicationState, REQUEST, 0, 0),
        Err(Failure::MissingConstructor { ty: REQUEST, consumer: 0 })
    );
}

#[test]
fn a_constructor_for_what_the_framework_provides_is_ambiguous() {
    let db = ComponentDb {
        components: vec![constructor(0, Lifecycle::RequestScoped, vec![], REQUEST)],
        scope_graph: ScopeGraph::new(),
        framework_types: vec![REQUEST],
    };
    assert_eq!(
        db.resolve(GraphKind::RequestHandling, REQUEST, 0, 4),
        Err(Failure::AmbiguousConstructor { ty: REQUEST, consumer: 4, candidates: vec![0] })
    );
}

#[test]
fn the_application_state_takes_singletons_only() {
    let db = ComponentDb {
        components: vec![
            constructor(0, Lifecycle::RequestScoped, vec![], A),
            constructor(0, Lifecycle::Singleton, vec![], A),
        ],
        scope_graph: ScopeGraph::new(),
        framework_types: vec![],
    };
    assert_eq!(db.resolve(GraphKind::ApplicationState, A, 0, 1), Ok(Producer::Component(1)));
    assert_eq!(db.find_candidates(GraphKind::RequestHandling, A, 0), vec![0, 1]);
    assert!(db.provides(GraphKind::RequestHandling, 0, A, 0));
    assert!(!db.provides(GraphKind::ApplicationState, 0, A, 0));
}

#[test]
fn a_handler_produces_nothing_for_others() {
    let mut handler = constructor(0, Lifecycle::RequestScoped, vec![Input { ty: A, access: Access::Shared }], A);
    handler.kind = ComponentKind::RequestHandler;
    let db = ComponentDb { components: vec![handler], scope_graph: ScopeGraph::new(), framework_types: vec![] };
    assert_eq!(
        db.resolve(GraphKind::RequestHandling, A, 0, 0),
        Err(Failure::MissingConstructor { ty: A, consumer: 0 })
    );
}

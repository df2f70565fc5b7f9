use pavexc::call_graph::{CallGraph, CallGraphNode, InputParameterSource};
use pavexc::component::{Method, MethodGuard};
use pavexc::dependencies::{append_decimal, compute_dependencies, with_underscores, DependencyName, PackageMetadata};
use pavexc::diagnostic::Failure;
use pavexc::matcher::PatternFault;
use pavexc::model::{Access, CloningStrategy, ComponentKind, Input, Lifecycle};
use pavexc::packages::{GenericArgument, ResolvedType, TypeTable};
use pavexc::pipeline::{RequestHandlerPipeline, Stage};
use pavexc::resolver::{Component, ComponentDb};
use pavexc::router::RoutingTable;
use pavexc::scope::ScopeGraph;

fn path(package_id: u64, generic_arguments: Vec<GenericArgument>) -> ResolvedType {
    ResolvedType::ResolvedPath { package_id, generic_arguments }
}

fn table() -> TypeTable {
    TypeTable {
        types: vec![
            ResolvedType::ScalarPrimitive,
            path(10, vec![]),
            path(20, vec![GenericArgument::Lifetime, GenericArgument::TypeParameter(1), GenericArgument::TypeParameter(0)]),
            ResolvedType::Reference { inner: 2 },
            path(30, vec![]),
            ResolvedType::Tuple { elements: vec![1, 3, 4] },
            ResolvedType::Slice { element_type: 4 },
            ResolvedType::Generic,
            path(80, vec![]),
        ],
    }
}

fn component(inputs: Vec<Input>, output: Option<u64>) -> Component {
    Component {
        kind: ComponentKind::Constructor,
        scope_id: 0,
        lifecycle: Lifecycle::RequestScoped,
        cloning_strategy: Some(CloningStrategy::NeverClone),
        inputs,
        output,
        error: None,
        error_handler: None,
        middleware: vec![],
        error_observers: vec![],
    }
}

fn graph(nodes: Vec<CallGraphNode>) -> CallGraph {
    CallGraph { nodes, edges: vec![] }
}

fn package(id: u64, name: &str, version: (u64, u64, u64), exempt: bool) -> PackageMetadata {
    PackageMetadata { id, name: name.to_string(), major: version.0, minor: version.1, patch: version.2, exempt }
}

fn name(package_id: u64, dependency_name: &str, import_name: &str, renamed: bool) -> DependencyName {
    DependencyName {
        package_id,
        dependency_name: dependency_name.to_string(),
        import_name: import_name.to_string(),
        renamed,
    }
}

#[test]
fn the_packages_of_a_type_are_those_of_its_parts_each_once() {
    let table = table();
    let db = ComponentDb { components: vec![], scope_graph: ScopeGraph::new(), framework_types: vec![] };
    let collect = |ty: u64| {
        table.collect_package_ids(
            &db,
            &vec![],
            &vec![],
            &graph(vec![CallGraphNode::InputParameter { ty, source: InputParameterSource::Framework }]),
            &vec![],
        )
    };
    assert_eq!(collect(0), vec![]);
    assert_eq!(collect(1), vec![10]);
    assert_eq!(collect(2), vec![20, 10]);
    assert_eq!(collect(3), vec![20, 10]);
    assert_eq!(collect(4), vec![30]);
    assert_eq!(collect(5), vec![10, 20, 30]);
    assert_eq!(collect(6), vec![30]);
    assert_eq!(collect(7), vec![]);
    assert_eq!(collect(99), vec![]);
}

#[test]
fn packages_are_collected_in_the_order_in_which_they_are_met() {
    let table = table();
    let db = ComponentDb {
        components: vec![
            component(vec![Input { ty: 3, access: Access::Shared }], Some(4)),
            component(vec![], Some(1)),
        ],
        scope_graph: ScopeGraph::new(),
        framework_types: vec![4],
    };
    let state = graph(vec![CallGraphNode::StateAggregate, CallGraphNode::Compute { component_id: 1 }]);
    let pipeline = RequestHandlerPipeline {
        handler_id: 0,
        middleware_stages: vec![Stage {
            component_id: 1,
            call_graph: graph(vec![CallGraphNode::Compute { component_id: 1 }, CallGraphNode::MatchBranching]),
            continuation: None,
        }],
        handler_stage: Stage {
            component_id: 0,
            call_graph: graph(vec![
                CallGraphNode::Compute { component_id: 0 },
                CallGraphNode::Duplicate { component_id: 0 },
                CallGraphNode::Compute { component_id: 7 },
            ]),
            continuation: None,
        },
    };
    // Component 0 is defined in package 40, component 1 in package 50.
    assert_eq!(
        table.collect_package_ids(&db, &vec![40, 50], &vec![60, 30, 61], &state, &vec![pipeline]),
        vec![30, 60, 61, 50, 10, 40, 20]
    );
}

#[test]
fn a_package_goes_by_the_name_of_its_crate() {
    assert_eq!(
        compute_dependencies(&vec![package(1, "serde", (1, 0, 197), false), package(2, "http-body", (1, 0, 0), false)]),
        vec![name(1, "serde", "serde", false), name(2, "http-body", "http_body", false)]
    );
}

#[test]
fn packages_that_share_a_name_go_by_name_and_version() {
    assert_eq!(
        compute_dependencies(&vec![
            package(1, "http", (0, 2, 12), false),
            package(2, "tokio", (1, 37, 0), false),
            package(3, "http", (1, 1, 0), false),
            package(4, "my-app", (0, 1, 0), true),
            package(5, "alloc", (0, 0, 0), true),
        ]),
        vec![
            name(1, "http_0_2_12", "http_0_2_12", true),
            name(2, "tokio", "tokio", false),
            name(3, "http_1_1_0", "http_1_1_0", true),
        ]
    );
}

#[test]
fn a_package_that_shares_its_name_with_an_exempt_one_keeps_it() {
    assert_eq!(
        compute_dependencies(&vec![package(1, "core", (1, 0, 0), false), package(2, "core", (0, 0, 0), true)]),
        vec![name(1, "core", "core", false)]
    );
}

#[test]
fn a_renamed_package_with_hyphens_is_imported_with_underscores() {
    assert_eq!(
        compute_dependencies(&vec![package(1, "a-b", (10, 0, 4075), false), package(2, "a-b", (2, 0, 0), false)]),
        vec![name(1, "a-b_10_0_4075", "a_b_10_0_4075", true), name(2, "a-b_2_0_0", "a_b_2_0_0", true)]
    );
}

#[test]
fn numbers_are_written_in_decimal() {
    let mut text = "v".to_string();
    append_decimal(&mut text, 0);
    append_decimal(&mut text, 7);
    append_decimal(&mut text, 10);
    append_decimal(&mut text, 18446744073709551615);
    assert_eq!(text, "v071018446744073709551615");
    assert_eq!(with_underscores("a-b--c_d"), "a_b__c_d");
    assert_eq!(with_underscores(""), "");
}

#[test]
fn a_path_with_twenty_five_parameters_is_taken_and_one_with_more_is_not() {
    let mut fine = String::new();
    for i in 0..25 {
        fine.push_str(&format!("/{{p{}}}", i));
    }
    let many = format!("{}/{{last}}", fine);
    let mut table = RoutingTable::new();
    assert_eq!(table.register_route(None, fine, MethodGuard::single(Method::Get), 0), Ok(()));
    assert_eq!(
        table.register_route(None, many.clone(), MethodGuard::single(Method::Get), 1),
        Err(Failure::InvalidPath { component: 1, fault: PatternFault::TooManyParameters })
    );
    assert_eq!(
        table.register_route(Some("a.com".to_string()), many, MethodGuard::single(Method::Get), 2),
        Err(Failure::InvalidPath { component: 2, fault: PatternFault::TooManyParameters })
    );
}

#[test]
fn the_documentation_of_every_signature_is_asked_for_in_one_batch() {
    let table = table();
    let db = ComponentDb {
        components: vec![
            component(vec![Input { ty: 3, access: Access::Shared }], Some(4)),
            component(vec![], Some(1)),
            component(vec![], Some(6)),
        ],
        scope_graph: ScopeGraph::new(),
        framework_types: vec![],
    };
    // The package of the third component is not known: it adds nothing.
    assert_eq!(table.precompute_crate_docs(&db, &vec![40, 10], &vec![70, 20, 71]), vec![40, 20, 10, 30, 70, 71]);
    assert_eq!(table.precompute_crate_docs(&db, &vec![], &vec![]), vec![]);
}

#[test]
fn the_package_of_an_error_type_is_collected() {
    let table = table();
    assert!(table.is_well_formed());
    let mut fallible = component(vec![], Some(1));
    fallible.error = Some(8);
    fallible.lifecycle = Lifecycle::Singleton;
    let db = ComponentDb { components: vec![fallible], scope_graph: ScopeGraph::new(), framework_types: vec![] };
    let state = graph(vec![
        CallGraphNode::StateAggregate,
        CallGraphNode::Compute { component_id: 0 },
        CallGraphNode::MatchBranching,
    ]);
    // The callable is defined in package 40, its value in 10, its error in 80.
    assert_eq!(table.collect_package_ids(&db, &vec![40], &vec![], &state, &vec![]), vec![40, 10, 80]);
    assert_eq!(table.precompute_crate_docs(&db, &vec![40], &vec![]), vec![40, 10, 80]);
}

#[test]
fn a_type_made_of_a_later_type_makes_the_table_ill_formed() {
    assert!(TypeTable { types: vec![] }.is_well_formed());
    assert!(!TypeTable { types: vec![ResolvedType::Reference { inner: 0 }] }.is_well_formed());
    assert!(!TypeTable { types: vec![ResolvedType::Tuple { elements: vec![1] }, ResolvedType::Generic] }
        .is_well_formed());
    assert!(!TypeTable { types: vec![ResolvedType::Generic, ResolvedType::Slice { element_type: 1 }] }
        .is_well_formed());
    assert!(!TypeTable {
        types: vec![ResolvedType::Generic, path(1, vec![GenericArgument::Lifetime, GenericArgument::TypeParameter(7)])]
    }
    .is_well_formed());
    assert!(ResolvedType::Reference { inner: 3 }.has_parts_before(4));
    assert!(!ResolvedType::Reference { inner: 4 }.has_parts_before(4));
}

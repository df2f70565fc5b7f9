use pavexc::annotations::{
    annotation_sources, process_annotations, AnnotatedConstructor, AnnotationIdentifiers, PackageFacts,
};
use pavexc::auxiliary::{AuxiliaryData, Location};
use pavexc::blueprint::Blueprint;
use pavexc::component::{RawIdentifiers, UserComponent};
use pavexc::component_db::{find_signature, resolve_component};
use pavexc::db::UserComponentDb;
use pavexc::diagnostic::{DiagnosticSink, Failure};
use pavexc::model::{
    CloningStrategy, ComponentKind, ConstructorProperties, Lifecycle, UserComponentSource,
};

fn package(depends_on_framework: bool, in_workspace: bool, sdk: bool, depends_on_sdk: Option<bool>) -> PackageFacts {
    PackageFacts { depends_on_framework, in_workspace, is_server_sdk: sdk, depends_on_server_sdk: depends_on_sdk }
}

fn annotated(path: &str, lifecycle: Lifecycle, cloning_strategy: Option<CloningStrategy>) -> AnnotatedConstructor {
    AnnotatedConstructor {
        properties: ConstructorProperties { lifecycle, cloning_strategy, error_handler: None },
        identifiers: AnnotationIdentifiers {
            package_id: 3,
            item_id: 17,
            signature: RawIdentifiers { import_path: path.to_string(), inputs: vec![], output: Some(1), error: None },
        },
        location: Location { file: "src/lib.rs".to_string(), line: 1, column: 1 },
    }
}

#[test]
fn packages_in_scope_depend_on_the_framework_and_not_on_the_sdk() {
    let packages = vec![
        package(true, false, false, None),
        package(false, false, false, Some(false)),
        package(true, true, false, Some(false)),
        package(true, true, true, Some(false)),
        package(true, true, false, Some(true)),
        package(true, true, false, None),
        package(true, false, false, Some(true)),
    ];
    assert_eq!(annotation_sources(&packages), vec![0, 2, 6]);
    assert_eq!(annotation_sources(&vec![]), vec![]);
    assert!(packages[0].is_in_scope());
    assert!(!packages[5].is_in_scope());
}

#[test]
fn annotated_constructors_are_interned_at_the_root_scope() {
    let mut aux = AuxiliaryData::new();
    process_annotations(
        &mut aux,
        vec![
            annotated("crate::a", Lifecycle::Singleton, None),
            annotated("crate::b", Lifecycle::Transient, Some(CloningStrategy::CloneIfNecessary)),
        ],
    );
    assert_eq!(
        aux.components(),
        &vec![
            UserComponent::Constructor { source: UserComponentSource::Annotation(0) },
            UserComponent::Constructor { source: UserComponentSource::Annotation(1) },
        ]
    );
    assert_eq!(aux.components()[0].scope_id(), 0);
    assert_eq!(aux.components()[0].bp_source(), None);
    assert_eq!(aux.components()[0].raw_identifiers_id(), None);
    assert_eq!(aux.id2lifecycle.get(&0), Some(&Lifecycle::Singleton));
    assert_eq!(aux.id2cloning_strategy.get(&0), Some(&CloningStrategy::NeverClone));
    assert_eq!(aux.id2cloning_strategy.get(&1), Some(&CloningStrategy::CloneIfNecessary));
    assert_eq!(find_signature(&aux, 1).map(|s| s.import_path.as_str()), Some("crate::b"));
    let resolved = resolve_component(&aux, 1);
    assert_eq!(resolved.kind, ComponentKind::Constructor);
    assert_eq!(resolved.lifecycle, Lifecycle::Transient);
    assert_eq!(resolved.output, Some(1));
    assert_eq!(aux.first_violation(), None);
    aux.check_invariants();
    assert_eq!(aux.annotation_interner[1].package_id, 3);
    assert_eq!(aux.annotation_interner[1].item_id, 17);
}

#[test]
fn annotated_constructors_come_after_the_components_of_the_blueprint() {
    let mut sink = DiagnosticSink::new();
    let (_, db) =
        UserComponentDb::build(Blueprint::new(), vec![annotated("crate::a", Lifecycle::Singleton, None)], &mut sink)
            .unwrap();
    assert_eq!(db.constructors(), vec![0]);
    assert_eq!(db.get(0), &UserComponent::Constructor { source: UserComponentSource::Annotation(0) });
    assert_eq!(UserComponentSource::from_annotation(3), UserComponentSource::Annotation(3));
}

#[test]
fn the_sink_collects_failures_in_order() {
    let mut sink = DiagnosticSink::new();
    assert!(sink.is_empty());
    assert_eq!(sink.len(), 0);
    sink.push(Failure::MissingErrorHandler { fallible: 2 });
    sink.push(Failure::Cycle { participants: vec![1, 2] });
    assert!(!sink.is_empty());
    assert_eq!(sink.len(), 2);
    assert_eq!(
        sink.diagnostics(),
        &vec![Failure::MissingErrorHandler { fallible: 2 }, Failure::Cycle { participants: vec![1, 2] }]
    );
}

#[test]
fn a_build_that_starts_with_a_failure_in_the_sink_fails() {
    let mut sink = DiagnosticSink::new();
    sink.push(Failure::MalformedDomain { scope: 0 });
    assert!(UserComponentDb::build(Blueprint::new(), vec![], &mut sink).is_err());
    assert_eq!(sink.len(), 1);
}

#[test]
fn prebuilt_and_configuration_types_are_named_by_type_paths() {
    use_path_kinds();
}

fn use_path_kinds() {
    assert_eq!(pavexc::component::path_kind(ComponentKind::PrebuiltType), pavexc::component::PathKind::Type);
    assert_eq!(pavexc::component::path_kind(ComponentKind::ConfigType), pavexc::component::PathKind::Type);
    assert_eq!(pavexc::component::path_kind(ComponentKind::Constructor), pavexc::component::PathKind::Callable);
    assert_eq!(pavexc::component::path_kind(ComponentKind::ErrorObserver), pavexc::component::PathKind::Callable);
    assert_eq!(pavexc::component::path_kind(ComponentKind::RequestHandler), pavexc::component::PathKind::Callable);
}

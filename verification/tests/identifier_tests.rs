use pavexc::auxiliary::Location;
use pavexc::blueprint::{Blueprint, Registered, Registration};
use pavexc::component::{MethodGuard, ParseError, PathKind, RawIdentifiers};
use pavexc::component::Method;
use pavexc::db::UserComponentDb;
use pavexc::dependencies::{is_exempt, source_fields, GitRequest, PackageOrigin, SourceFields};
use pavexc::diagnostic::{DiagnosticSink, Failure};
use pavexc::identifiers::{path_queries, resolve_raw_identifiers, PathQuery};
use pavexc::annotations::{AnnotatedConstructor, AnnotationIdentifiers};
use pavexc::model::{ConstructorProperties, Lifecycle};

fn signature(path: &str) -> RawIdentifiers {
    RawIdentifiers { import_path: path.to_string(), inputs: vec![], output: Some(1), error: None }
}

fn registration(registered: Registered, path: &str) -> Registration {
    Registration {
        registered,
        identifiers: signature(path),
        error_handler: None,
        location: Location { file: "src/lib.rs".to_string(), line: 1, column: 1 },
        lints: vec![],
    }
}

fn database() -> UserComponentDb {
    let mut bp = Blueprint::new();
    bp.register(registration(Registered::PrebuiltType { cloning_strategy: None }, "crate::A"));
    bp.register(registration(
        Registered::Route { method_guard: MethodGuard::single(Method::Get), path: "/a".to_string() },
        "crate::a()",
    ));
    bp.register(registration(Registered::ErrorObserver, "observe"));
    let annotated = AnnotatedConstructor {
        properties: ConstructorProperties { lifecycle: Lifecycle::Singleton, cloning_strategy: None, error_handler: None },
        identifiers: AnnotationIdentifiers { package_id: 1, item_id: 2, signature: signature("crate::b") },
        location: Location { file: "src/lib.rs".to_string(), line: 9, column: 1 },
    };
    let mut sink = DiagnosticSink::new();
    UserComponentDb::build(bp, vec![annotated], &mut sink).unwrap().1
}

fn no_fields() -> SourceFields {
    SourceFields { path: None, registry: None, git: None, branch: None, tag: None, rev: None }
}

#[test]
fn the_parser_is_asked_once_for_each_registration_and_not_for_annotated_components() {
    let db = database();
    assert_eq!(
        path_queries(&db.aux),
        vec![
            Some(PathQuery { identifiers_id: 0, kind: PathKind::Type }),
            Some(PathQuery { identifiers_id: 1, kind: PathKind::Callable }),
            Some(PathQuery { identifiers_id: 2, kind: PathKind::Callable }),
            None,
        ]
    );
}

#[test]
fn every_refused_import_path_is_a_failure_of_its_component() {
    let db = database();
    let mut sink = DiagnosticSink::new();
    let parsed =
        vec![Ok(70), Err(ParseError::InvalidPath), Err(ParseError::PathMustBeAbsolute), Err(ParseError::InvalidPath)];
    let paths = resolve_raw_identifiers(&db.aux, &parsed, &mut sink);
    assert_eq!(paths.len(), 1);
    assert_eq!(paths.get(&0), Some(&70));
    assert_eq!(
        sink.diagnostics(),
        &vec![
            Failure::InvalidImportPath { component: 1, error: ParseError::InvalidPath },
            Failure::InvalidImportPath { component: 2, error: ParseError::PathMustBeAbsolute },
        ]
    );
}

#[test]
fn a_component_that_the_parser_did_not_answer_for_is_passed_over() {
    let db = database();
    let mut sink = DiagnosticSink::new();
    let paths = resolve_raw_identifiers(&db.aux, &vec![Ok(5)], &mut sink);
    assert_eq!(paths.len(), 1);
    assert!(sink.is_empty());
}

#[test]
fn a_local_package_has_its_path_and_nothing_else() {
    assert_eq!(
        source_fields(&PackageOrigin::Local { path: "/work/app".to_string() }),
        SourceFields { path: Some("/work/app".to_string()), ..no_fields() }
    );
}

#[test]
fn a_registry_is_named_unless_it_is_the_default_one() {
    let url = "https://github.com/rust-lang/crates.io-index".to_string();
    assert_eq!(source_fields(&PackageOrigin::Registry { url, is_crates_io: true }), no_fields());
    assert_eq!(
        source_fields(&PackageOrigin::Registry { url: "https://example.com/index".to_string(), is_crates_io: false }),
        SourceFields { registry: Some("https://example.com/index".to_string()), ..no_fields() }
    );
}

#[test]
fn a_git_package_has_its_repository_and_what_its_request_names() {
    let origin = |request| PackageOrigin::Git { repository: "https://example.com/r.git".to_string(), request };
    let git = SourceFields { git: Some("https://example.com/r.git".to_string()), ..no_fields() };
    assert_eq!(source_fields(&origin(GitRequest::Default)), git);
    assert_eq!(
        source_fields(&origin(GitRequest::Branch("main".to_string()))),
        SourceFields { branch: Some("main".to_string()), ..git.clone() }
    );
    assert_eq!(
        source_fields(&origin(GitRequest::Tag("v1".to_string()))),
        SourceFields { tag: Some("v1".to_string()), ..git.clone() }
    );
    assert_eq!(
        source_fields(&origin(GitRequest::Rev("abc".to_string()))),
        SourceFields { rev: Some("abc".to_string()), ..git.clone() }
    );
}

#[test]
fn the_application_and_the_toolchain_crates_are_no_dependencies() {
    assert!(is_exempt("crate"));
    assert!(is_exempt("std"));
    assert!(is_exempt("core"));
    assert!(is_exempt("alloc"));
    assert!(!is_exempt("serde"));
    assert!(!is_exempt(""));
    assert!(!is_exempt("crates"));
}

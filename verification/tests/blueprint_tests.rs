use pavexc::auxiliary::{AuxiliaryData, InvariantViolation, Lint, LintOverride, LintSetting, Location, MissingEntry};
use pavexc::blueprint::{check_domain, process_blueprint, Blueprint, Registered, Registration};
use pavexc::component::{Method, MethodGuard, RawIdentifiers, RouterKey, UserComponent};
use pavexc::component_db::{find_error_handler, resolve_component};
use pavexc::db::{Selection, UserComponentDb};
use pavexc::diagnostic::{DiagnosticSink, Failure};
use pavexc::matcher::PatternFault;
use pavexc::model::{
    Access, BlueprintSource, CloningStrategy, ComponentKind, DefaultStrategy, Input, Lifecycle,
    UserComponentSource,
};
use pavexc::resolver::ComponentDb;
use pavexc::router::RouteOutcome;

fn location(line: u32) -> Location {
    Location { file: "src/blueprint.rs".to_string(), line, column: 5 }
}

fn callable(path: &str, inputs: Vec<Input>, output: Option<u64>) -> RawIdentifiers {
    RawIdentifiers { import_path: path.to_string(), inputs, output, error: None }
}

fn registration(registered: Registered, identifiers: RawIdentifiers, line: u32) -> Registration {
    Registration { registered, identifiers, error_handler: None, location: location(line), lints: vec![] }
}

fn route(method: Method, path: &str, import_path: &str, line: u32) -> Registration {
    registration(
        Registered::Route { method_guard: MethodGuard::single(method), path: path.to_string() },
        callable(import_path, vec![], Some(9)),
        line,
    )
}

fn host(name: &str) -> Option<String> {
    Some(name.to_string())
}

#[test]
fn a_static_route_is_registered_and_matched() {
    let mut bp = Blueprint::new();
    bp.register(route(Method::Get, "/greet", "crate::routes::greet", 6));
    let mut sink = DiagnosticSink::new();
    let (table, db) = UserComponentDb::build(bp, vec![], &mut sink).unwrap();
    assert!(sink.is_empty());
    assert_eq!(db.request_handlers(), vec![0]);
    assert_eq!(table.route(&None, Method::Get, "/greet"), RouteOutcome::Matched { handler_id: 0 });
    assert_eq!(table.route(&None, Method::Get, "/greet/x"), RouteOutcome::NoMatch { fallback_id: None });
    assert_eq!(
        table.route(&None, Method::Post, "/greet"),
        RouteOutcome::MethodNotAllowed { allowed: MethodGuard::single(Method::Get), fallback_id: None }
    );
}

#[test]
fn a_route_with_two_named_parameters_matches_any_two_segments() {
    let mut bp = Blueprint::new();
    bp.register(route(Method::Get, "/greet/{first_name}/{last_name}", "crate::routes::greet", 6));
    let mut sink = DiagnosticSink::new();
    let (table, _) = UserComponentDb::build(bp, vec![], &mut sink).unwrap();
    assert_eq!(table.route(&None, Method::Get, "/greet/Ursula/LeGuin"), RouteOutcome::Matched { handler_id: 0 });
    assert_eq!(table.route(&None, Method::Get, "/greet/Ursula"), RouteOutcome::NoMatch { fallback_id: None });
}

#[test]
fn nested_blueprints_under_domain_guards_route_by_domain_and_prefix() {
    let mut website = Blueprint::new();
    website.register(route(Method::Get, "/", "super::index", 16));
    let mut api = Blueprint::new();
    api.register(route(Method::Get, "/users", "super::users", 23));
    let mut bp = Blueprint::new();
    bp.nest(website, None, host("pavex.dev"));
    bp.nest(api, Some("/v1".to_string()), host("api.pavex.dev"));
    let mut sink = DiagnosticSink::new();
    let (table, db) = UserComponentDb::build(bp, vec![], &mut sink).unwrap();
    assert_eq!(db.scope_graph().len(), 3);
    assert_eq!(db.scope_graph().domain_guard(1), host("pavex.dev"));
    assert_eq!(db.scope_graph().path_prefix(2), "/v1");
    assert_eq!(table.route(&host("pavex.dev"), Method::Get, "/"), RouteOutcome::Matched { handler_id: 0 });
    assert_eq!(
        table.route(&host("api.pavex.dev"), Method::Get, "/v1/users"),
        RouteOutcome::Matched { handler_id: 1 }
    );
    assert_eq!(
        table.route(&host("pavex.dev"), Method::Get, "/v1/users"),
        RouteOutcome::NoMatch { fallback_id: None }
    );
    assert_eq!(
        table.route(&host("other.dev"), Method::Get, "/"),
        RouteOutcome::NoMatch { fallback_id: None }
    );
}

#[test]
fn a_handler_nested_twice_keeps_the_domain_guard_of_the_outer_level() {
    let mut inner = Blueprint::new();
    inner.register(route(Method::Get, "/home", "crate::home", 3));
    let mut outer = Blueprint::new();
    outer.nest(inner, None, None);
    let mut bp = Blueprint::new();
    bp.nest(outer, None, host("a.com"));
    let mut sink = DiagnosticSink::new();
    let (table, db) = UserComponentDb::build(bp, vec![], &mut sink).unwrap();
    assert_eq!(db.get(0).scope_id(), 2);
    assert_eq!(db.scope_graph().domain_guard(2), host("a.com"));
    assert_eq!(table.route(&host("a.com"), Method::Get, "/home"), RouteOutcome::Matched { handler_id: 0 });
    assert_eq!(table.route(&None, Method::Get, "/home"), RouteOutcome::NoMatch { fallback_id: None });
}

#[test]
fn registering_one_route_twice_fails_the_build_with_a_route_conflict() {
    let mut bp = Blueprint::new();
    bp.register(route(Method::Get, "/items", "crate::list", 1));
    bp.register(route(Method::Post, "/items", "crate::create", 2));
    bp.register(route(Method::Get, "/items", "crate::list_again", 3));
    let mut sink = DiagnosticSink::new();
    assert!(UserComponentDb::build(bp, vec![], &mut sink).is_err());
    assert_eq!(sink.diagnostics(), &vec![Failure::RouteConflict { existing: 0, new: 2 }]);
    assert_eq!(sink.len(), 1);
}

#[test]
fn every_route_failure_is_reported() {
    let mut bp = Blueprint::new();
    bp.register(route(Method::Get, "/a/{x}{y}", "crate::a", 1));
    bp.register(route(Method::Get, "/b/{*rest}/more", "crate::b", 2));
    bp.register(route(Method::Get, "/c/{id}", "crate::c", 3));
    bp.register(route(Method::Get, "/c/{name}", "crate::d", 4));
    bp.register(route(Method::Get, "/e/{", "crate::e", 5));
    let mut sink = DiagnosticSink::new();
    assert!(UserComponentDb::build(bp, vec![], &mut sink).is_err());
    assert_eq!(
        sink.diagnostics(),
        &vec![
            Failure::InvalidPath { component: 0, fault: PatternFault::InvalidParamSegment },
            Failure::InvalidPath { component: 1, fault: PatternFault::InvalidCatchAll },
            Failure::InvalidPath { component: 3, fault: PatternFault::Conflict },
            Failure::InvalidPath { component: 4, fault: PatternFault::InvalidParam },
        ]
    );
}

#[test]
fn a_domain_guard_that_is_no_host_name_is_reported() {
    let mut bp = Blueprint::new();
    bp.nest(Blueprint::new(), None, host("not a host"));
    bp.nest(Blueprint::new(), None, host("fine.example.com"));
    bp.nest(Blueprint::new(), None, host(""));
    let mut sink = DiagnosticSink::new();
    assert!(UserComponentDb::build(bp, vec![], &mut sink).is_err());
    assert_eq!(sink.diagnostics(), &vec![Failure::MalformedDomain { scope: 1 }]);
}

#[test]
fn host_names_are_letters_digits_and_hyphens_between_dots() {
    assert!(check_domain("pavex.dev"));
    assert!(check_domain("api-2.pavex.dev"));
    assert!(check_domain("localhost"));
    assert!(!check_domain(""));
    assert!(!check_domain(".dev"));
    assert!(!check_domain("dev."));
    assert!(!check_domain("a..b"));
    assert!(!check_domain("-a.b"));
    assert!(!check_domain("a-.b"));
    assert!(!check_domain("a.-b"));
    assert!(!check_domain("a b"));
    assert!(!check_domain("a/b"));
    assert!(check_domain(&"a".repeat(253)));
    assert!(!check_domain(&"a".repeat(254)));
}

#[test]
fn registrations_are_interned_in_order_with_their_metadata() {
    let mut bp = Blueprint::new();
    bp.register(registration(
        Registered::Constructor { lifecycle: Lifecycle::Transient, cloning_strategy: None },
        callable("crate::a", vec![], Some(1)),
        1,
    ));
    bp.register(registration(
        Registered::PrebuiltType { cloning_strategy: Some(CloningStrategy::CloneIfNecessary) },
        callable("crate::B", vec![], Some(2)),
        2,
    ));
    let mut config = registration(
        Registered::ConfigType {
            key: "server".to_string(),
            cloning_strategy: None,
            default_strategy: DefaultStrategy::DefaultIfMissing,
        },
        callable("crate::Config", vec![], Some(3)),
        3,
    );
    config.lints = vec![LintOverride { lint: Lint::Unused, setting: LintSetting::Allow }];
    bp.register(config);
    bp.register(registration(Registered::ErrorObserver, callable("crate::observe", vec![], None), 4));
    let mut sink = DiagnosticSink::new();
    let (_, db) = UserComponentDb::build(bp, vec![], &mut sink).unwrap();
    assert_eq!(db.iter().len(), 4);
    assert_eq!(
        db.get(0),
        &UserComponent::Constructor {
            source: UserComponentSource::Blueprint(BlueprintSource { identifiers_id: 0, scope_id: 0 })
        }
    );
    assert_eq!(
        db.get(2),
        &UserComponent::ConfigType {
            source: BlueprintSource { identifiers_id: 2, scope_id: 0 },
            key: "server".to_string()
        }
    );
    assert_eq!(db.get_lifecycle(0), Lifecycle::Transient);
    assert_eq!(db.get_lifecycle(1), Lifecycle::Singleton);
    assert_eq!(db.get_lifecycle(2), Lifecycle::Singleton);
    assert_eq!(db.get_lifecycle(3), Lifecycle::RequestScoped);
    assert_eq!(db.get_cloning_strategy(0), Some(&CloningStrategy::NeverClone));
    assert_eq!(db.get_cloning_strategy(1), Some(&CloningStrategy::CloneIfNecessary));
    assert_eq!(db.get_cloning_strategy(2), Some(&CloningStrategy::CloneIfNecessary));
    assert_eq!(db.get_cloning_strategy(3), None);
    assert_eq!(db.get_default_strategy(2), Some(&DefaultStrategy::DefaultIfMissing));
    assert_eq!(db.get_default_strategy(0), None);
    assert_eq!(db.get_location(1), &location(2));
    assert!(db.is_complete_for(1));
    assert!(!db.is_complete_for(9));
    assert_eq!(db.get_lints(2), Some(&vec![LintOverride { lint: Lint::Unused, setting: LintSetting::Allow }]));
    assert_eq!(db.get_lints(0), None);
    assert_eq!(db.constructors(), vec![0]);
    assert_eq!(db.prebuilt_types(), vec![1]);
    assert_eq!(db.config_types(), vec![2]);
    assert_eq!(db.error_observers(), vec![3]);
    assert_eq!(db.select(Selection::RequestHandlers), vec![]);
    assert_eq!(db.get(0).kind(), ComponentKind::Constructor);
    assert_eq!(db.get(0).raw_identifiers_id(), Some(0));
    assert_eq!(db.get(3).bp_source(), Some(BlueprintSource { identifiers_id: 3, scope_id: 0 }));
}

#[test]
fn two_equal_registrations_are_two_components() {
    let mut bp = Blueprint::new();
    bp.register(route(Method::Get, "/a", "crate::same", 1));
    bp.register(route(Method::Get, "/b", "crate::same", 1));
    let mut sink = DiagnosticSink::new();
    let (_, db) = UserComponentDb::build(bp, vec![], &mut sink).unwrap();
    assert_eq!(db.request_handlers(), vec![0, 1]);
}

#[test]
fn an_error_handler_is_interned_after_its_component_and_tied_to_it() {
    let mut fallible = registration(
        Registered::Constructor { lifecycle: Lifecycle::Singleton, cloning_strategy: None },
        RawIdentifiers { import_path: "crate::a".to_string(), inputs: vec![], output: Some(1), error: Some(50) },
        1,
    );
    fallible.error_handler =
        Some(callable("crate::on_error", vec![Input { ty: 50, access: Access::Shared }], Some(9)));
    let mut bp = Blueprint::new();
    bp.register(fallible);
    let mut sink = DiagnosticSink::new();
    let (_, db) = UserComponentDb::build(bp, vec![], &mut sink).unwrap();
    assert_eq!(
        db.get(1),
        &UserComponent::ErrorHandler { source: BlueprintSource { identifiers_id: 1, scope_id: 0 }, fallible_id: 0 }
    );
    assert_eq!(db.get_lifecycle(1), Lifecycle::Singleton);
    assert_eq!(db.get(1).kind(), ComponentKind::ErrorHandler);
    assert_eq!(find_error_handler(db.iter(), 0), Some(1));
    assert_eq!(find_error_handler(db.iter(), 1), None);
    let resolved = resolve_component(&db.aux, 0);
    assert_eq!(resolved.error_handler, Some(1));
    assert_eq!(resolved.error, Some(50));
    assert_eq!(resolved.output, Some(1));
}

#[test]
fn handlers_see_the_middleware_and_the_observers_of_their_scopes() {
    let mut nested = Blueprint::new();
    nested.register(registration(Registered::WrappingMiddleware, callable("crate::inner_mw", vec![], Some(9)), 1));
    nested.register(route(Method::Get, "/in", "crate::inner", 2));
    nested.register(registration(Registered::Fallback, callable("crate::inner_fallback", vec![], Some(9)), 3));
    let mut bp = Blueprint::new();
    bp.register(registration(Registered::PreProcessingMiddleware, callable("crate::pre", vec![], None), 4));
    bp.register(route(Method::Get, "/out", "crate::outer", 5));
    bp.nest(nested, Some("/api".to_string()), host("api.dev"));
    bp.register(registration(Registered::PostProcessingMiddleware, callable("crate::post", vec![], Some(9)), 6));
    bp.register(registration(Registered::ErrorObserver, callable("crate::observe", vec![], None), 7));
    let mut sink = DiagnosticSink::new();
    let (table, db) = UserComponentDb::build(bp, vec![], &mut sink).unwrap();
    // 0: pre, 1: /out, 2: inner middleware, 3: /in, 4: inner fallback, 5: post, 6: observer.
    assert_eq!(db.get_middleware_ids(1), &[0, 5]);
    assert_eq!(db.get_middleware_ids(3), &[0, 5, 2]);
    assert_eq!(db.get_middleware_ids(4), &[0, 5, 2]);
    assert!(!db.aux.handler_id2middleware_ids.contains_key(&0));
    assert_eq!(db.get_error_observer_ids(3), &[6]);
    assert!(!db.aux.handler_id2error_observer_ids.contains_key(&6));
    assert_eq!(db.wrapping_middlewares(), vec![2]);
    assert_eq!(db.pre_processing_middlewares(), vec![0]);
    assert_eq!(db.post_processing_middlewares(), vec![5]);
    assert_eq!(db.request_handlers(), vec![1, 3, 4]);
    assert_eq!(db.aux.fallback_id2path_prefix.get(&4), Some(&Some("/api".to_string())));
    assert_eq!(db.aux.fallback_id2domain_guard.get(&4), Some(&host("api.dev")));
    assert_eq!(
        table.route(&host("api.dev"), Method::Get, "/api/in"),
        RouteOutcome::Matched { handler_id: 3 }
    );
    assert_eq!(
        table.route(&host("api.dev"), Method::Get, "/api/other"),
        RouteOutcome::NoMatch { fallback_id: Some(4) }
    );
    assert_eq!(
        table.route(&host("api.dev"), Method::Post, "/api/in"),
        RouteOutcome::MethodNotAllowed { allowed: MethodGuard::single(Method::Get), fallback_id: Some(4) }
    );
    assert_eq!(table.route(&host("api.dev"), Method::Get, "/other"), RouteOutcome::NoMatch { fallback_id: None });
    let (components, _) = ComponentDb::build(db, vec![]);
    assert_eq!(components.components[3].middleware, vec![0, 5, 2]);
    assert_eq!(components.components[3].error_observers, vec![6]);
    assert_eq!(components.components[3].scope_id, 1);
    assert_eq!(components.components[3].kind, ComponentKind::RequestHandler);
    assert_eq!(components.components[4].kind, ComponentKind::Fallback);
}

#[test]
fn processing_a_blueprint_by_hand_fills_the_tables() {
    let mut bp = Blueprint::new();
    bp.register(route(Method::Get, "/a", "crate::a", 1));
    let mut aux = AuxiliaryData::new();
    let mut sink = DiagnosticSink::new();
    let scopes = process_blueprint(bp, &mut aux, &mut sink);
    assert_eq!(scopes.len(), 1);
    assert_eq!(
        aux.components(),
        &vec![UserComponent::RequestHandler {
            source: BlueprintSource { identifiers_id: 0, scope_id: 0 },
            router_key: RouterKey { path: "/a".to_string(), method_guard: MethodGuard::single(Method::Get) },
        }]
    );
    assert_eq!(aux.identifiers_interner[0].import_path, "crate::a");
    // The chain of middleware is attached later: until then the handler is incomplete.
    assert_eq!(aux.first_violation(), Some(InvariantViolation { id: 0, missing: MissingEntry::MiddlewareChain }));
    assert_eq!(aux.missing_entry(0), Some(MissingEntry::MiddlewareChain));
}

#[test]
fn the_consistency_pass_names_the_first_table_without_an_entry() {
    let mut aux = AuxiliaryData::new();
    assert_eq!(aux.first_violation(), None);
    let source = BlueprintSource { identifiers_id: 0, scope_id: 0 };
    aux.component_interner.push(UserComponent::ConfigType { source, key: "k".to_string() });
    assert_eq!(aux.first_violation(), Some(InvariantViolation { id: 0, missing: MissingEntry::Lifecycle }));
    aux.id2lifecycle.insert(0, Lifecycle::Singleton);
    assert_eq!(aux.first_violation(), Some(InvariantViolation { id: 0, missing: MissingEntry::Location }));
    aux.id2locations.insert(0, location(1));
    assert_eq!(aux.first_violation(), Some(InvariantViolation { id: 0, missing: MissingEntry::CloningStrategy }));
    aux.id2cloning_strategy.insert(0, CloningStrategy::NeverClone);
    assert_eq!(aux.first_violation(), Some(InvariantViolation { id: 0, missing: MissingEntry::DefaultStrategy }));
    aux.config_id2default_strategy.insert(0, DefaultStrategy::Required);
    assert_eq!(aux.first_violation(), None);
    aux.check_invariants();
    aux.component_interner.push(UserComponent::Fallback { source });
    aux.id2lifecycle.insert(1, Lifecycle::RequestScoped);
    aux.id2locations.insert(1, location(2));
    aux.handler_id2middleware_ids.insert(1, vec![]);
    assert_eq!(aux.first_violation(), Some(InvariantViolation { id: 1, missing: MissingEntry::ErrorObservers }));
    aux.handler_id2error_observer_ids.insert(1, vec![]);
    assert_eq!(aux.first_violation(), Some(InvariantViolation { id: 1, missing: MissingEntry::PathPrefix }));
    aux.fallback_id2path_prefix.insert(1, None);
    assert_eq!(aux.first_violation(), Some(InvariantViolation { id: 1, missing: MissingEntry::DomainGuard }));
    aux.fallback_id2domain_guard.insert(1, None);
    assert_eq!(aux.first_violation(), None);
    aux.check_invariants();
}

#[test]
fn a_fallback_has_a_tag_of_its_own() {
    let mut bp = Blueprint::new();
    bp.register(route(Method::Get, "/a", "crate::a", 1));
    bp.register(registration(Registered::Fallback, callable("crate::fallback", vec![], Some(9)), 2));
    let mut sink = DiagnosticSink::new();
    let (_, db) = UserComponentDb::build(bp, vec![], &mut sink).unwrap();
    assert_eq!(db.get(0).kind(), ComponentKind::RequestHandler);
    assert_eq!(db.get(1).kind(), ComponentKind::Fallback);
    assert_eq!(db.request_handlers(), vec![0, 1]);
    // Both get a pipeline.
    let (components, _) = ComponentDb::build(db, vec![]);
    let plan = components.compile().unwrap();
    let handlers: Vec<usize> = plan.pipelines.iter().map(|p| p.handler_id).collect();
    assert_eq!(handlers, vec![0, 1]);
}

#[test]
fn only_constructors_and_prebuilt_and_configuration_types_have_a_cloning_strategy() {
    let mut nested = Blueprint::new();
    nested.register(registration(Registered::Fallback, callable("crate::fallback", vec![], Some(9)), 1));
    let mut bp = Blueprint::new();
    bp.register(registration(
        Registered::Constructor { lifecycle: Lifecycle::Singleton, cloning_strategy: None },
        callable("crate::a", vec![], Some(1)),
        2,
    ));
    bp.register(registration(Registered::ErrorObserver, callable("crate::observe", vec![], None), 3));
    bp.register(registration(Registered::WrappingMiddleware, callable("crate::wrap", vec![], Some(9)), 4));
    bp.register(route(Method::Get, "/a", "crate::a", 5));
    bp.nest(nested, None, None);
    let mut sink = DiagnosticSink::new();
    let (_, db) = UserComponentDb::build(bp, vec![], &mut sink).unwrap();
    for id in 0..db.iter().len() {
        let takes = matches!(
            db.get(id),
            UserComponent::Constructor { .. } | UserComponent::PrebuiltType { .. } | UserComponent::ConfigType { .. }
        );
        assert_eq!(db.get_cloning_strategy(id).is_some(), takes);
        assert_eq!(db.get_default_strategy(id).is_some(), matches!(db.get(id), UserComponent::ConfigType { .. }));
    }
}

#[test]
fn a_handler_is_given_no_middleware_twice() {
    let mut innermost = Blueprint::new();
    innermost.register(registration(Registered::WrappingMiddleware, callable("crate::mw", vec![], Some(9)), 1));
    innermost.register(route(Method::Get, "/deep", "crate::deep", 2));
    let mut inner = Blueprint::new();
    inner.register(registration(Registered::WrappingMiddleware, callable("crate::mw", vec![], Some(9)), 3));
    inner.register(registration(Registered::ErrorObserver, callable("crate::observe", vec![], None), 4));
    inner.nest(innermost, Some("/b".to_string()), None);
    let mut bp = Blueprint::new();
    bp.register(registration(Registered::WrappingMiddleware, callable("crate::mw", vec![], Some(9)), 5));
    bp.register(registration(Registered::ErrorObserver, callable("crate::observe", vec![], None), 6));
    bp.nest(inner, Some("/a".to_string()), None);
    let mut sink = DiagnosticSink::new();
    let (_, db) = UserComponentDb::build(bp, vec![], &mut sink).unwrap();
    // 0: outer middleware, 1: outer observer, 2: inner middleware, 3: inner observer,
    // 4: innermost middleware, 5: the handler.
    assert_eq!(db.get_middleware_ids(5), &[0, 2, 4]);
    assert_eq!(db.get_error_observer_ids(5), &[1, 3]);
    let ids = db.get_middleware_ids(5);
    for i in 0..ids.len() {
        for j in 0..i {
            assert_ne!(ids[i], ids[j]);
        }
    }
}

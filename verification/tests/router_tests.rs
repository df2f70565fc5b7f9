use pavexc::component::{Method, MethodGuard};
use pavexc::diagnostic::Failure;
use pavexc::matcher::PatternFault;
use pavexc::router::{
    dispatch, has_too_many_parameters, same_domain, starts_with, MethodRoute, RouteOutcome, RoutingTable,
};

fn get() -> MethodGuard {
    MethodGuard::single(Method::Get)
}

fn post() -> MethodGuard {
    MethodGuard::single(Method::Post)
}

#[test]
fn get_and_post_on_one_path_coexist() {
    let mut table = RoutingTable::new();
    assert_eq!(table.register_route(None, "/items".to_string(), get(), 0), Ok(()));
    assert_eq!(table.register_route(None, "/items".to_string(), post(), 1), Ok(()));
    assert_eq!(
        table.route(&None, Method::Get, "/items"),
        RouteOutcome::Matched { handler_id: 0 }
    );
    assert_eq!(
        table.route(&None, Method::Post, "/items"),
        RouteOutcome::Matched { handler_id: 1 }
    );
}

#[test]
fn registering_get_twice_is_a_route_conflict() {
    let mut table = RoutingTable::new();
    assert_eq!(table.register_route(None, "/items".to_string(), get(), 0), Ok(()));
    assert_eq!(
        table.register_route(None, "/items".to_string(), get(), 1),
        Err(Failure::RouteConflict { existing: 0, new: 1 })
    );
}

#[test]
fn delete_on_get_post_path_is_method_not_allowed() {
    let mut table = RoutingTable::new();
    assert_eq!(table.register_route(None, "/items".to_string(), get(), 0), Ok(()));
    assert_eq!(table.register_route(None, "/items".to_string(), post(), 1), Ok(()));
    assert_eq!(
        table.route(&None, Method::Delete, "/items"),
        RouteOutcome::MethodNotAllowed {
            allowed: MethodGuard::none().with(Method::Get).with(Method::Post),
            fallback_id: None
        }
    );
}

fn host(name: &str) -> Option<String> {
    Some(name.to_string())
}

#[test]
fn overlapping_method_sets_conflict_with_the_first_overlapping_handler() {
    let mut table = RoutingTable::new();
    assert_eq!(table.register_route(None, "/items".to_string(), get(), 3), Ok(()));
    assert_eq!(table.register_route(None, "/items".to_string(), post(), 4), Ok(()));
    let both = MethodGuard::none().with(Method::Post).with(Method::Put);
    assert_eq!(
        table.register_route(None, "/items".to_string(), both, 5),
        Err(Failure::RouteConflict { existing: 4, new: 5 })
    );
    // The table is left as it was.
    assert_eq!(
        table.route(&None, Method::Put, "/items"),
        RouteOutcome::MethodNotAllowed {
            allowed: MethodGuard::none().with(Method::Get).with(Method::Post),
            fallback_id: None
        }
    );
}

#[test]
fn one_path_under_two_domains_is_no_conflict() {
    let mut table = RoutingTable::new();
    assert_eq!(table.register_route(host("a.com"), "/items".to_string(), get(), 0), Ok(()));
    assert_eq!(table.register_route(host("b.com"), "/items".to_string(), get(), 1), Ok(()));
    assert_eq!(table.route(&host("a.com"), Method::Get, "/items"), RouteOutcome::Matched { handler_id: 0 });
    assert_eq!(table.route(&host("b.com"), Method::Get, "/items"), RouteOutcome::Matched { handler_id: 1 });
    assert_eq!(table.route(&host("c.com"), Method::Get, "/items"), RouteOutcome::NoMatch { fallback_id: None });
}

#[test]
fn a_host_without_routes_of_its_own_is_looked_up_in_the_routes_without_domain() {
    let mut table = RoutingTable::new();
    assert_eq!(table.register_route(None, "/items".to_string(), get(), 0), Ok(()));
    assert_eq!(table.register_route(host("a.com"), "/only".to_string(), get(), 1), Ok(()));
    assert_eq!(table.route(&host("b.com"), Method::Get, "/items"), RouteOutcome::Matched { handler_id: 0 });
    assert_eq!(table.route(&host("a.com"), Method::Get, "/items"), RouteOutcome::NoMatch { fallback_id: None });
    assert_eq!(table.find_domain(&host("a.com")), Some(1));
    assert_eq!(table.find_domain(&host("b.com")), None);
}

#[test]
fn a_pattern_that_overlaps_with_an_earlier_one_is_turned_down() {
    let mut table = RoutingTable::new();
    assert_eq!(table.register_route(None, "/users/{id}".to_string(), get(), 0), Ok(()));
    assert_eq!(
        table.register_route(None, "/users/{name}".to_string(), get(), 1),
        Err(Failure::InvalidPath { component: 1, fault: PatternFault::Conflict })
    );
    assert_eq!(table.register_route(None, "/users/me".to_string(), get(), 2), Ok(()));
    // A literal segment is preferred over a parameter.
    assert_eq!(table.route(&None, Method::Get, "/users/me"), RouteOutcome::Matched { handler_id: 2 });
    assert_eq!(table.route(&None, Method::Get, "/users/42"), RouteOutcome::Matched { handler_id: 0 });
}

#[test]
fn a_catch_all_takes_the_rest_of_the_path() {
    let mut table = RoutingTable::new();
    assert_eq!(table.register_route(None, "/static/{*file}".to_string(), get(), 0), Ok(()));
    assert_eq!(table.route(&None, Method::Get, "/static/css/site.css"), RouteOutcome::Matched { handler_id: 0 });
    assert_eq!(table.route(&None, Method::Get, "/static"), RouteOutcome::NoMatch { fallback_id: None });
}

#[test]
fn the_nearest_fallback_is_the_one_with_the_longest_prefix_under_the_domain() {
    let mut table = RoutingTable::new();
    table.register_fallback(None, "".to_string(), 10);
    table.register_fallback(None, "/api".to_string(), 11);
    table.register_fallback(None, "/api/v1".to_string(), 12);
    table.register_fallback(host("a.com"), "/api".to_string(), 13);
    table.register_fallback(None, "/api".to_string(), 14);
    assert_eq!(table.fallback_for(&None, "/api/v1/users"), Some(12));
    assert_eq!(table.fallback_for(&None, "/api/v2"), Some(11));
    assert_eq!(table.fallback_for(&None, "/other"), Some(10));
    // The domain comes first, then the prefix.
    assert_eq!(table.fallback_for(&host("a.com"), "/api/v1/users"), Some(13));
    assert_eq!(table.fallback_for(&host("a.com"), "/other"), Some(10));
    assert_eq!(table.fallback_for(&host("b.com"), "/api/v1"), Some(12));
    assert_eq!(table.find_fallback(&host("b.com"), "/api"), None);
    assert_eq!(table.route(&None, Method::Get, "/api/v1/x"), RouteOutcome::NoMatch { fallback_id: Some(12) });
}

#[test]
fn without_fallbacks_the_default_fallback_takes_over() {
    let table = RoutingTable::new();
    assert_eq!(table.fallback_for(&None, "/anything"), None);
    assert_eq!(table.route(&None, Method::Get, "/anything"), RouteOutcome::NoMatch { fallback_id: None });
}

#[test]
fn dispatch_goes_by_the_handlers_of_the_path() {
    let handlers = vec![
        MethodRoute { guard: MethodGuard::single(Method::Get), handler_id: 1 },
        MethodRoute { guard: MethodGuard::none().with(Method::Post).with(Method::Put), handler_id: 2 },
    ];
    assert_eq!(dispatch(Some(&handlers), Method::Put, Some(7)), RouteOutcome::Matched { handler_id: 2 });
    assert_eq!(
        dispatch(Some(&handlers), Method::Delete, Some(7)),
        RouteOutcome::MethodNotAllowed {
            allowed: MethodGuard::none().with(Method::Get).with(Method::Post).with(Method::Put),
            fallback_id: Some(7)
        }
    );
    assert_eq!(dispatch(None, Method::Get, Some(7)), RouteOutcome::NoMatch { fallback_id: Some(7) });
    assert_eq!(dispatch(Some(&vec![]), Method::Get, None), RouteOutcome::MethodNotAllowed {
        allowed: MethodGuard::none(),
        fallback_id: None
    });
}

#[test]
fn method_sets_behave_as_sets() {
    let get_post = MethodGuard::none().with(Method::Get).with(Method::Post);
    assert!(get_post.contains(Method::Get));
    assert!(!get_post.contains(Method::Delete));
    assert!(get_post.overlaps(&MethodGuard::single(Method::Post)));
    assert!(!get_post.overlaps(&MethodGuard::single(Method::Trace)));
    assert!(MethodGuard::none().is_empty());
    assert!(!get_post.is_empty());
    assert!(MethodGuard::any().contains(Method::Connect));
    assert_eq!(MethodGuard::single(Method::Get).union(&MethodGuard::single(Method::Post)), get_post);
    assert_eq!(get_post.with(Method::Get), get_post);
}

#[test]
fn prefixes_are_compared_character_by_character() {
    assert!(starts_with("/api/v1", "/api"));
    assert!(starts_with("/api", "/api"));
    assert!(starts_with("/api", ""));
    assert!(!starts_with("/ap", "/api"));
    assert!(!starts_with("/abi/v1", "/api"));
    assert!(starts_with("/caf\u{e9}/x", "/caf\u{e9}"));
    assert!(same_domain(&None, &None));
    assert!(same_domain(&host("a"), &host("a")));
    assert!(!same_domain(&host("a"), &host("b")));
    assert!(!same_domain(&host("a"), &None));
}

#[test]
fn a_doubled_brace_is_no_parameter() {
    // Thirteen segments that read `{a}` literally: 26 opening braces, no parameter.
    let mut literal = String::new();
    let mut asked = String::new();
    for _ in 0..13 {
        literal.push_str("/{{a}}");
        asked.push_str("/{a}");
    }
    assert!(!has_too_many_parameters(&literal));
    let mut table = RoutingTable::new();
    assert_eq!(table.register_route(None, literal.clone(), get(), 0), Ok(()));
    assert_eq!(table.route(&None, Method::Get, &asked), RouteOutcome::Matched { handler_id: 0 });
    assert_eq!(table.route(&None, Method::Get, "/x/x/x/x/x/x/x/x/x/x/x/x/x"), RouteOutcome::NoMatch { fallback_id: None });

    // Twenty-five parameters and a doubled brace are taken; a twenty-sixth parameter is not.
    let mut fine = String::from("/{{");
    for i in 0..25 {
        fine.push_str(&format!("/{{p{}}}", i));
    }
    assert!(!has_too_many_parameters(&fine[3..]));
    assert!(has_too_many_parameters(&fine));
    let mut most = String::new();
    for i in 0..25 {
        most.push_str(&format!("/{{{{{{p{}}}", i));
    }
    // Each segment is a doubled brace and then a parameter: two braces counted for each.
    assert!(has_too_many_parameters(&most));
    assert!(!has_too_many_parameters(&"{".repeat(50)));
    assert!(has_too_many_parameters(&"{".repeat(51)));
}

use pavexc::scope::ScopeGraph;

fn text(s: &str) -> Option<String> {
    Some(s.to_string())
}

#[test]
fn root_scope_has_no_prefix_and_no_guard() {
    let graph = ScopeGraph::new();
    assert_eq!(graph.len(), 1);
    assert_eq!(graph.path_prefix(0), "");
    assert_eq!(graph.domain_guard(0), None);
    assert_eq!(graph.parent(0), None);
}

#[test]
fn path_prefixes_are_joined_from_the_root_down() {
    let mut graph = ScopeGraph::new();
    let api = graph.add_scope(0, text("/api"), None);
    let v1 = graph.add_scope(api, text("/v1"), None);
    let plain = graph.add_scope(v1, None, None);
    assert_eq!(graph.path_prefix(api), "/api");
    assert_eq!(graph.path_prefix(v1), "/api/v1");
    assert_eq!(graph.path_prefix(plain), "/api/v1");
    assert_eq!(graph.parent(v1), Some(api));
    assert_eq!(graph.nodes[api].children, vec![v1]);
}

#[test]
fn domain_guard_passes_through_a_level_without_one() {
    let mut graph = ScopeGraph::new();
    let outer = graph.add_scope(0, None, text("a.com"));
    let inner = graph.add_scope(outer, None, None);
    assert_eq!(graph.domain_guard(outer), text("a.com"));
    assert_eq!(graph.domain_guard(inner), text("a.com"));
}

#[test]
fn empty_domain_guard_does_not_override_an_inherited_one() {
    let mut graph = ScopeGraph::new();
    let outer = graph.add_scope(0, None, text("a.com"));
    let inner = graph.add_scope(outer, None, text(""));
    let innermost = graph.add_scope(inner, None, None);
    assert_eq!(graph.domain_guard(inner), text("a.com"));
    assert_eq!(graph.domain_guard(innermost), text("a.com"));
}

#[test]
fn innermost_domain_guard_wins() {
    let mut graph = ScopeGraph::new();
    let outer = graph.add_scope(0, None, text("a.com"));
    let inner = graph.add_scope(outer, None, text("b.com"));
    assert_eq!(graph.domain_guard(inner), text("b.com"));
    assert_eq!(graph.domain_guard(outer), text("a.com"));
}

#[test]
fn middleware_is_listed_from_the_root_down_in_registration_order() {
    let mut graph = ScopeGraph::new();
    graph.register_middleware(0, 10);
    let child = graph.add_scope(0, None, None);
    graph.register_middleware(child, 20);
    graph.register_middleware(0, 11);
    graph.register_middleware(child, 21);
    let sibling = graph.add_scope(0, None, None);
    graph.register_middleware(sibling, 30);
    assert_eq!(graph.middleware_chain(child), vec![10, 11, 20, 21]);
    assert_eq!(graph.middleware_chain(sibling), vec![10, 11, 30]);
    assert_eq!(graph.middleware_chain(0), vec![10, 11]);
}

#[test]
fn error_observers_are_listed_from_the_root_down() {
    let mut graph = ScopeGraph::new();
    let child = graph.add_scope(0, None, None);
    graph.register_error_observer(child, 5);
    graph.register_error_observer(0, 3);
    assert_eq!(graph.error_observer_chain(child), vec![3, 5]);
    assert_eq!(graph.error_observer_chain(0), vec![3]);
}

#[test]
fn a_scope_is_visible_from_itself_and_from_its_descendants_only() {
    let mut graph = ScopeGraph::new();
    let a = graph.add_scope(0, None, None);
    let b = graph.add_scope(a, None, None);
    let c = graph.add_scope(0, None, None);
    assert!(graph.is_visible_from(0, b));
    assert!(graph.is_visible_from(a, b));
    assert!(graph.is_visible_from(b, b));
    assert!(!graph.is_visible_from(b, a));
    assert!(!graph.is_visible_from(c, b));
    assert!(!graph.is_visible_from(a, c));
}

//! Processing the registrations is deterministic: two runs on the same
//! blueprint and the same annotated constructors give the same components
//! with the same identifiers, the same scopes, the same routes and the same
//! failures in the same order.

use vstd::prelude::*;
use crate::annotations::AnnotatedConstructor;
use crate::auxiliary::AuxiliaryData;
use crate::blueprint::Blueprint;
use crate::component::{MethodGuard, UserComponent};
use crate::db::{assembled, replay_start, route_step, route_step_at, routed};
use crate::diagnostic::ConfigErrorView;
use crate::matcher::matcher_routes;
use crate::model::{ScopeId, UserComponentId, ROOT_SCOPE};
use crate::router::{first_overlap, DomainRouter, RoutingTable};
use crate::scope::{opt_string_view, ScopeGraph};

verus! {

/// Whether two domain routers hold the same routes: the same domain, the
/// same patterns in the same order, each with the same handlers.
pub open spec fn same_domain_routes(one: DomainRouter, other: DomainRouter) -> bool {
    &&& opt_string_view(one.domain) == opt_string_view(other.domain)
    &&& matcher_routes(one.matcher) == matcher_routes(other.matcher)
    &&& one.paths@.len() == other.paths@.len()
    &&& forall|p: int|
        0 <= p < one.paths@.len() ==> (#[trigger] one.paths@[p]).pattern@ == other.paths@[p].pattern@
            && one.paths@[p].handlers@ == other.paths@[p].handlers@
}

/// Whether two tables hold the same routes and the same fallbacks, in the
/// same order.
pub open spec fn same_routes(one: RoutingTable, other: RoutingTable) -> bool {
    &&& one.domains@.len() == other.domains@.len()
    &&& forall|d: int| 0 <= d < one.domains@.len() ==> same_domain_routes(#[trigger] one.domains@[d], other.domains@[d])
    &&& one.fallbacks@.len() == other.fallbacks@.len()
    &&& forall|k: int|
        0 <= k < one.fallbacks@.len() ==> (#[trigger] one.fallbacks@[k]).fallback_id == other.fallbacks@[k].fallback_id
            && opt_string_view(one.fallbacks@[k].domain) == opt_string_view(other.fallbacks@[k].domain)
            && one.fallbacks@[k].path_prefix@ == other.fallbacks@[k].path_prefix@
}

/// Scope graphs with the same scopes have the same parents.
pub proof fn lemma_same_scopes_same_parent(one: ScopeGraph, other: ScopeGraph, scope: ScopeId)
    requires
        one.records() == other.records(),
    ensures
        one.parent_of(scope) == other.parent_of(scope),
        one.has(scope) == other.has(scope),
        one.declares_domain(scope) == other.declares_domain(scope),
        one.has(scope) ==> one.nodes@[scope as int].record() == other.nodes@[scope as int].record(),
{
    assert(one.nodes@.len() == one.records().len());
    assert(other.nodes@.len() == other.records().len());
    if one.has(scope) {
        assert(one.records()[scope as int] == one.nodes@[scope as int].record());
        assert(other.records()[scope as int] == other.nodes@[scope as int].record());
    }
}

/// Scope graphs with the same scopes put every scope under the same domain
/// guard and behind the same path prefix.
pub proof fn lemma_same_scopes_same_guard(one: ScopeGraph, other: ScopeGraph, scope: ScopeId)
    requires
        one.records() == other.records(),
    ensures
        one.effective_domain_guard(scope) == other.effective_domain_guard(scope),
        one.effective_path_prefix(scope) == other.effective_path_prefix(scope),
    decreases scope,
{
    lemma_same_scopes_same_parent(one, other, scope);
    match one.parent_of(scope) {
        Some(p) => {
            lemma_same_scopes_same_guard(one, other, p);
        },
        None => {},
    }
}

impl RoutingTable {
    /// Tables with the same routes find a domain at the same place.
    pub proof fn lemma_same_domain_index(self, other: RoutingTable, domain: Option<Seq<char>>, n: int)
        requires
            same_routes(self, other),
            n <= self.domains@.len(),
        ensures
            self.domain_index(domain, n) == other.domain_index(domain, n),
        decreases n,
    {
        if n > 0 {
            self.lemma_same_domain_index(other, domain, n - 1);
            assert(same_domain_routes(self.domains@[n - 1], other.domains@[n - 1]));
        }
    }

    /// A domain that is found is one of the domains.
    pub proof fn lemma_domain_index_in_range(self, domain: Option<Seq<char>>, n: int)
        ensures
            self.domain_index(domain, n) matches Some(d) ==> 0 <= d < n && d < self.domains@.len(),
        decreases n,
    {
        if n > 0 {
            self.lemma_domain_index_in_range(domain, n - 1);
        }
    }

    /// Tables with the same routes turn down the same registrations, for the
    /// same reason.
    pub proof fn lemma_same_registration_failure(
        self,
        other: RoutingTable,
        domain: Option<Seq<char>>,
        path: Seq<char>,
        guard: MethodGuard,
        handler_id: UserComponentId,
    )
        requires
            same_routes(self, other),
        ensures
            self.registration_failure(domain, path, guard, handler_id) == other.registration_failure(
                domain,
                path,
                guard,
                handler_id,
            ),
    {
        self.lemma_same_domain_index(other, domain, self.domains@.len() as int);
        self.lemma_domain_index_in_range(domain, self.domains@.len() as int);
        match self.domain_index(domain, self.domains@.len() as int) {
            Some(d) => {
                assert(same_domain_routes(self.domains@[d], other.domains@[d]));
                self.domains@[d].lemma_same_path_index(other.domains@[d], path, self.domains@[d].paths@.len() as int);
                self.domains@[d].lemma_path_index_in_range(path, self.domains@[d].paths@.len() as int);
                match self.domains@[d].path_index(path, self.domains@[d].paths@.len() as int) {
                    Some(p) => {
                        assert(self.domains@[d].paths@[p].handlers@ == other.domains@[d].paths@[p].handlers@);
                    },
                    None => {},
                }
            },
            None => {},
        }
    }

    /// Two tables that are each another table with the same route more hold
    /// the same routes, if the tables they started from did.
    pub proof fn lemma_same_route_added(
        self,
        before: RoutingTable,
        other: RoutingTable,
        other_before: RoutingTable,
        domain: Option<Seq<char>>,
        path: Seq<char>,
        guard: MethodGuard,
        handler_id: UserComponentId,
    )
        requires
            same_routes(before, other_before),
            self.is_with_route(before, domain, path, guard, handler_id),
            other.is_with_route(other_before, domain, path, guard, handler_id),
        ensures
            same_routes(self, other),
    {
        before.lemma_same_domain_index(other_before, domain, before.domains@.len() as int);
        before.lemma_domain_index_in_range(domain, before.domains@.len() as int);
        assert forall|k: int| 0 <= k < self.fallbacks@.len() implies (#[trigger] self.fallbacks@[k]).fallback_id
            == other.fallbacks@[k].fallback_id && opt_string_view(self.fallbacks@[k].domain) == opt_string_view(
            other.fallbacks@[k].domain,
        ) && self.fallbacks@[k].path_prefix@ == other.fallbacks@[k].path_prefix@ by {
            assert(self.fallbacks@[k] == before.fallbacks@[k]);
            assert(other.fallbacks@[k] == other_before.fallbacks@[k]);
        }
        match before.domain_index(domain, before.domains@.len() as int) {
            Some(d) => {
                assert(same_domain_routes(before.domains@[d], other_before.domains@[d]));
                before.domains@[d].lemma_same_path_index(
                    other_before.domains@[d],
                    path,
                    before.domains@[d].paths@.len() as int,
                );
                before.domains@[d].lemma_path_index_in_range(path, before.domains@[d].paths@.len() as int);
                assert forall|i: int| 0 <= i < self.domains@.len() implies same_domain_routes(
                    #[trigger] self.domains@[i],
                    other.domains@[i],
                ) by {
                    assert(same_domain_routes(before.domains@[i], other_before.domains@[i]));
                    if i != d {
                        assert(self.domains@[i] == before.domains@[i]);
                        assert(other.domains@[i] == other_before.domains@[i]);
                    } else {
                        let mine = self.domains@[d];
                        let theirs = other.domains@[d];
                        match before.domains@[d].path_index(path, before.domains@[d].paths@.len() as int) {
                            Some(p) => {
                                assert forall|q: int| 0 <= q < mine.paths@.len() implies (#[trigger] mine.paths@[q]).pattern@
                                    == theirs.paths@[q].pattern@ && mine.paths@[q].handlers@
                                    == theirs.paths@[q].handlers@ by {
                                    assert(before.domains@[d].paths@[q].pattern@ == other_before.domains@[d].paths@[q].pattern@);
                                    if q != p {
                                        assert(mine.paths@[q] == before.domains@[d].paths@[q]);
                                        assert(theirs.paths@[q] == other_before.domains@[d].paths@[q]);
                                    }
                                }
                            },
                            None => {
                                assert forall|q: int| 0 <= q < mine.paths@.len() implies (#[trigger] mine.paths@[q]).pattern@
                                    == theirs.paths@[q].pattern@ && mine.paths@[q].handlers@
                                    == theirs.paths@[q].handlers@ by {
                                    if q < before.domains@[d].paths@.len() {
                                        assert(before.domains@[d].paths@[q].pattern@ == other_before.domains@[d].paths@[q].pattern@);
                                        assert(mine.paths@[q] == before.domains@[d].paths@[q]);
                                        assert(theirs.paths@[q] == other_before.domains@[d].paths@[q]);
                                    } else {
                                        assert(mine.paths@[q] == mine.paths@.last());
                                        assert(theirs.paths@[q] == theirs.paths@.last());
                                    }
                                }
                            },
                        }
                    }
                }
            },
            None => {
                assert forall|i: int| 0 <= i < self.domains@.len() implies same_domain_routes(
                    #[trigger] self.domains@[i],
                    other.domains@[i],
                ) by {
                    if i < before.domains@.len() {
                        assert(same_domain_routes(before.domains@[i], other_before.domains@[i]));
                        assert(self.domains@[i] == before.domains@[i]);
                        assert(other.domains@[i] == other_before.domains@[i]);
                    } else {
                        assert(self.domains@[i] == self.domains@.last());
                        assert(other.domains@[i] == other.domains@.last());
                        assert(self.domains@[i].paths@[0].handlers@ == other.domains@[i].paths@[0].handlers@);
                    }
                }
            },
        }
    }
}

impl DomainRouter {
    /// Domain routers with the same routes find a path at the same place.
    pub proof fn lemma_same_path_index(self, other: DomainRouter, pattern: Seq<char>, n: int)
        requires
            same_domain_routes(self, other),
            n <= self.paths@.len(),
        ensures
            self.path_index(pattern, n) == other.path_index(pattern, n),
        decreases n,
    {
        if n > 0 {
            self.lemma_same_path_index(other, pattern, n - 1);
            assert(self.paths@[n - 1].pattern@ == other.paths@[n - 1].pattern@);
        }
    }

    /// A path that is found is one of the paths.
    pub proof fn lemma_path_index_in_range(self, pattern: Seq<char>, n: int)
        ensures
            self.path_index(pattern, n) matches Some(p) ==> 0 <= p < n && p < self.paths@.len(),
        decreases n,
    {
        if n > 0 {
            self.lemma_path_index_in_range(pattern, n - 1);
        }
    }
}

/// What one component adds to the routes is the same in two runs.
pub proof fn lemma_route_step_is_deterministic(
    component: UserComponent,
    id: int,
    scopes: ScopeGraph,
    other_scopes: ScopeGraph,
    before: RoutingTable,
    other_before: RoutingTable,
    earlier: Seq<ConfigErrorView>,
    table: RoutingTable,
    other_table: RoutingTable,
    errors: Seq<ConfigErrorView>,
    other_errors: Seq<ConfigErrorView>,
)
    requires
        scopes.records() == other_scopes.records(),
        same_routes(before, other_before),
        route_step(component, id, scopes, before, earlier, table, errors),
        route_step(component, id, other_scopes, other_before, earlier, other_table, other_errors),
    ensures
        same_routes(table, other_table),
        errors == other_errors,
{
    match component {
        UserComponent::RequestHandler { source, router_key } => {
            lemma_same_scopes_same_guard(scopes, other_scopes, source.scope_id);
            let domain = scopes.effective_domain_guard(source.scope_id);
            let path = scopes.effective_path_prefix(source.scope_id) + router_key.path@;
            before.lemma_same_registration_failure(other_before, domain, path, router_key.method_guard, id as usize);
            match before.registration_failure(domain, path, router_key.method_guard, id as usize) {
                Some(e) => {},
                None => {
                    table.lemma_same_route_added(
                        before,
                        other_table,
                        other_before,
                        domain,
                        path,
                        router_key.method_guard,
                        id as usize,
                    );
                },
            }
        },
        UserComponent::Fallback { source } => {
            lemma_same_scopes_same_guard(scopes, other_scopes, source.scope_id);
            assert forall|d: int| 0 <= d < table.domains@.len() implies same_domain_routes(
                #[trigger] table.domains@[d],
                other_table.domains@[d],
            ) by {
                assert(same_domain_routes(before.domains@[d], other_before.domains@[d]));
            }
            assert forall|k: int| 0 <= k < table.fallbacks@.len() implies (#[trigger] table.fallbacks@[k]).fallback_id
                == other_table.fallbacks@[k].fallback_id && opt_string_view(table.fallbacks@[k].domain)
                == opt_string_view(other_table.fallbacks@[k].domain) && table.fallbacks@[k].path_prefix@
                == other_table.fallbacks@[k].path_prefix@ by {
                if k < before.fallbacks@.len() {
                    assert(table.fallbacks@[k] == before.fallbacks@[k]);
                    assert(other_table.fallbacks@[k] == other_before.fallbacks@[k]);
                    assert(before.fallbacks@[k].fallback_id == other_before.fallbacks@[k].fallback_id);
                } else {
                    assert(table.fallbacks@[k] == table.fallbacks@.last());
                    assert(other_table.fallbacks@[k] == other_table.fallbacks@.last());
                }
            }
        },
        _ => {},
    }
}

/// Registering the routes is deterministic: the same components in scopes
/// that are the same give the same routes and the same failures.
pub proof fn lemma_routing_is_deterministic(
    components: Seq<UserComponent>,
    scopes: ScopeGraph,
    other_scopes: ScopeGraph,
    n: int,
    table: RoutingTable,
    other_table: RoutingTable,
    errors: Seq<ConfigErrorView>,
    other_errors: Seq<ConfigErrorView>,
)
    requires
        scopes.records() == other_scopes.records(),
        routed(components, scopes, n, table, errors),
        routed(components, other_scopes, n, other_table, other_errors),
    ensures
        same_routes(table, other_table),
        errors == other_errors,
    decreases n,
{
    if n <= 0 {
        assert(errors =~= other_errors);
    } else {
        let (before, earlier) = choose|before: RoutingTable, earlier: Seq<ConfigErrorView>|
            routed(components, scopes, n - 1, before, earlier) && #[trigger] route_step_at(
                components,
                scopes,
                n,
                before,
                earlier,
                table,
                errors,
            );
        let (other_before, other_earlier) = choose|before: RoutingTable, earlier: Seq<ConfigErrorView>|
            routed(components, other_scopes, n - 1, before, earlier) && #[trigger] route_step_at(
                components,
                other_scopes,
                n,
                before,
                earlier,
                other_table,
                other_errors,
            );
        lemma_routing_is_deterministic(
            components,
            scopes,
            other_scopes,
            n - 1,
            before,
            other_before,
            earlier,
            other_earlier,
        );
        lemma_route_step_is_deterministic(
            components[n - 1],
            n - 1,
            scopes,
            other_scopes,
            before,
            other_before,
            earlier,
            table,
            other_table,
            errors,
            other_errors,
        );
    }
}

/// Processing the registrations is deterministic: whatever two runs on the
/// same blueprint and the same annotated constructors, starting with the same
/// failures in the sink, end with, they end with the same components under
/// the same identifiers, the same signatures, the same scopes, the same
/// routes and the same failures in the same order.
pub proof fn lemma_processing_twice_gives_the_same(
    blueprint: Blueprint,
    annotated: Seq<AnnotatedConstructor>,
    reported: Seq<ConfigErrorView>,
    aux: AuxiliaryData,
    scopes: ScopeGraph,
    table: RoutingTable,
    failures: Seq<ConfigErrorView>,
    other_aux: AuxiliaryData,
    other_scopes: ScopeGraph,
    other_table: RoutingTable,
    other_failures: Seq<ConfigErrorView>,
)
    requires
        assembled(blueprint, annotated, reported, aux, scopes, table, failures),
        assembled(blueprint, annotated, reported, other_aux, other_scopes, other_table, other_failures),
    ensures
        aux.records() == other_aux.records(),
        aux.component_interner@ == other_aux.component_interner@,
        aux.identifiers_interner@ == other_aux.identifiers_interner@,
        aux.annotation_interner@ == other_aux.annotation_interner@,
        scopes.records() == other_scopes.records(),
        same_routes(table, other_table),
        failures == other_failures,
{
    let replayed = replay_start(reported).with_blueprint(blueprint, ROOT_SCOPE);
    assert(aux.records() =~= other_aux.records()) by {
        assert forall|i: int| 0 <= i < aux.records().len() implies aux.records()[i] == other_aux.records()[i] by {
            if i < replayed.components.len() {
                assert(aux.records()[i] == replayed.components[i]);
                assert(other_aux.records()[i] == replayed.components[i]);
            }
        }
    }
    assert(aux.component_interner@ =~= other_aux.component_interner@) by {
        assert(aux.component_interner@.len() == aux.records().len());
        assert(other_aux.component_interner@.len() == other_aux.records().len());
        assert forall|i: int| 0 <= i < aux.component_interner@.len() implies aux.component_interner@[i]
            == other_aux.component_interner@[i] by {
            assert(aux.records()[i].component == aux.component_interner@[i]);
            assert(other_aux.records()[i].component == other_aux.component_interner@[i]);
        }
    }
    assert(aux.annotation_interner@ =~= other_aux.annotation_interner@);
    let n = aux.component_interner@.len() as int;
    let late = choose|late: Seq<ConfigErrorView>|
        #[trigger] routed(aux.component_interner@, scopes, n, table, late) && failures == replayed.errors + late;
    let other_late = choose|late: Seq<ConfigErrorView>|
        #[trigger] routed(other_aux.component_interner@, other_scopes, n, other_table, late) && other_failures
            == replayed.errors + late;
    lemma_routing_is_deterministic(aux.component_interner@, scopes, other_scopes, n, table, other_table, late, other_late);
}

} // verus!

//! The database of user components: every component registered against the
//! blueprint of the application or through an annotation, with its metadata,
//! the scopes, and the routes.

use vstd::prelude::*;
use crate::annotations::{annotated_record, process_annotations, AnnotatedConstructor};
use crate::auxiliary::{AuxiliaryData, LintOverride, Location};
use crate::blueprint::{process_blueprint, Blueprint, Replay};
use crate::component::UserComponent;
use crate::diagnostic::{ConfigErrorView, DiagnosticSink};
use crate::model::{CloningStrategy, DefaultStrategy, Lifecycle, UserComponentId, ROOT_SCOPE};
use crate::router::RoutingTable;
use crate::scope::{opt_string_view, ScopeGraph, ScopeRecord};
use crate::scope_facts::{lemma_handler_gets_each_once, lemma_processing_lists_once, listed_once};

verus! {

broadcast use vstd::std_specs::hash::group_hash_axioms;

/// Whether an optional string is `text`, or absent where `text` is empty.
pub open spec fn is_text_or_none(stored: Option<String>, text: Seq<char>) -> bool {
    if text.len() > 0 {
        stored is Some && stored->0@ == text
    } else {
        stored is None
    }
}

/// Whether the tables hold, for component `id`, what its scope gives it: for
/// a request handler and a fallback the middleware and the error observers
/// in sight, and for a fallback also the path prefix and the domain guard in
/// force.
pub open spec fn scope_data_attached_at(aux: AuxiliaryData, scopes: ScopeGraph, id: int) -> bool {
    let key = id as usize;
    match aux.component_interner@[id] {
        UserComponent::RequestHandler { source, .. } => {
            &&& aux.handler_id2middleware_ids@.contains_key(key)
            &&& aux.handler_id2middleware_ids@[key]@ == scopes.visible_middleware(source.scope_id)
            &&& aux.handler_id2error_observer_ids@.contains_key(key)
            &&& aux.handler_id2error_observer_ids@[key]@ == scopes.visible_error_observers(source.scope_id)
        },
        UserComponent::Fallback { source } => {
            &&& aux.handler_id2middleware_ids@.contains_key(key)
            &&& aux.handler_id2middleware_ids@[key]@ == scopes.visible_middleware(source.scope_id)
            &&& aux.handler_id2error_observer_ids@.contains_key(key)
            &&& aux.handler_id2error_observer_ids@[key]@ == scopes.visible_error_observers(source.scope_id)
            &&& aux.fallback_id2path_prefix@.contains_key(key)
            &&& is_text_or_none(aux.fallback_id2path_prefix@[key], scopes.effective_path_prefix(source.scope_id))
            &&& aux.fallback_id2domain_guard@.contains_key(key)
            &&& opt_string_view(aux.fallback_id2domain_guard@[key]) == scopes.effective_domain_guard(source.scope_id)
        },
        _ => true,
    }
}

/// Whether the tables hold what its scope gives to every component.
pub open spec fn scope_data_attached(aux: AuxiliaryData, scopes: ScopeGraph) -> bool {
    forall|id: int| 0 <= id < aux.component_interner@.len() ==> scope_data_attached_at(aux, scopes, id)
}

/// Whether `key` names a request handler or a fallback.
pub open spec fn is_handler_key(components: Seq<UserComponent>, key: UserComponentId) -> bool {
    key < components.len() && (components[key as int] is RequestHandler || components[key as int] is Fallback)
}

/// Whether the tables of middleware and of error observers hold an entry for
/// request handlers and fallbacks only.
pub open spec fn handlers_only(aux: AuxiliaryData) -> bool {
    &&& forall|key: UserComponentId|
        #[trigger] aux.handler_id2middleware_ids@.contains_key(key) ==> is_handler_key(aux.component_interner@, key)
    &&& forall|key: UserComponentId|
        #[trigger] aux.handler_id2error_observer_ids@.contains_key(key) ==> is_handler_key(
            aux.component_interner@,
            key,
        )
}

/// Fills the tables that depend on the scopes: the middleware chain and the
/// error observers of every request handler and fallback, and the path
/// prefix and the domain guard of every fallback.
pub fn attach_scope_data(aux: &mut AuxiliaryData, scopes: &ScopeGraph)
    requires
        old(aux).tidy(),
        scopes.wf(),
        old(aux).registered_well(scopes.nodes@.len() as int),
    ensures
        final(aux).tidy(),
        final(aux).registered_well(scopes.nodes@.len() as int),
        final(aux).records() == old(aux).records(),
        final(aux).component_interner == old(aux).component_interner,
        final(aux).identifiers_interner == old(aux).identifiers_interner,
        final(aux).annotation_interner == old(aux).annotation_interner,
        scope_data_attached(*final(aux), *scopes),
        final(aux).invariants_hold(),
        handlers_only(*old(aux)) ==> handlers_only(*final(aux)),
{
    let mut id: usize = 0;
    while id < aux.component_interner.len()
        invariant
            id <= aux.component_interner@.len(),
            scopes.wf(),
            aux.component_interner == old(aux).component_interner,
            aux.identifiers_interner == old(aux).identifiers_interner,
            aux.annotation_interner == old(aux).annotation_interner,
            aux.id2lifecycle == old(aux).id2lifecycle,
            aux.id2locations == old(aux).id2locations,
            aux.id2lints == old(aux).id2lints,
            aux.id2cloning_strategy == old(aux).id2cloning_strategy,
            aux.config_id2default_strategy == old(aux).config_id2default_strategy,
            old(aux).registered_well(scopes.nodes@.len() as int),
            forall|k: int| 0 <= k < id ==> scope_data_attached_at(*aux, *scopes, k),
            forall|k: int| 0 <= k < id ==> aux.first_missing(k) is None,
            handlers_only(*old(aux)) ==> handlers_only(*aux),
        decreases aux.component_interner@.len() - id,
    {
        let ghost before = *aux;
        let (handler, fallback, scope) = match &aux.component_interner[id] {
            UserComponent::RequestHandler { source, .. } => (true, false, source.scope_id),
            UserComponent::Fallback { source } => (true, true, source.scope_id),
            _ => (false, false, ROOT_SCOPE),
        };
        proof {
            let record = old(aux).record(id as int);
            assert(AuxiliaryData::is_well_recorded(record, scopes.nodes@.len() as int));
            assert(aux.record(id as int) == record);
        }
        if handler {
            aux.handler_id2middleware_ids.insert(id, scopes.middleware_chain(scope));
            aux.handler_id2error_observer_ids.insert(id, scopes.error_observer_chain(scope));
        }
        if fallback {
            let prefix = scopes.path_prefix(scope);
            let stored = if prefix.as_str().is_empty() {
                None
            } else {
                Some(prefix)
            };
            aux.fallback_id2path_prefix.insert(id, stored);
            aux.fallback_id2domain_guard.insert(id, scopes.domain_guard(scope));
        }
        proof {
            assert forall|k: int| 0 <= k < id implies scope_data_attached_at(*aux, *scopes, k) by {
                assert(scope_data_attached_at(before, *scopes, k));
            }
            assert forall|k: int| 0 <= k < id implies aux.first_missing(k) is None by {
                assert(before.first_missing(k) is None);
            }
            let record = old(aux).record(id as int);
            assert(AuxiliaryData::is_well_recorded(record, scopes.nodes@.len() as int));
            assert(aux.first_missing(id as int) is None);
            assert(scope_data_attached_at(*aux, *scopes, id as int));
        }
        id += 1;
    }
    proof {
        assert(aux.records() =~= old(aux).records());
        old(aux).lemma_registered_well_same(*aux, scopes.nodes@.len() as int);
    }
}

/// What one component adds to the routes: a request handler a route under
/// the domain guard in force at its scope and on its path behind the path
/// prefix of its scope, or a failure where the route cannot be registered; a
/// fallback itself, under the domain guard and the path prefix of its scope;
/// any other component nothing.
pub open spec fn route_step(
    component: UserComponent,
    id: int,
    scopes: ScopeGraph,
    before: RoutingTable,
    earlier: Seq<ConfigErrorView>,
    table: RoutingTable,
    errors: Seq<ConfigErrorView>,
) -> bool {
    match component {
        UserComponent::RequestHandler { source, router_key } => {
            let domain = scopes.effective_domain_guard(source.scope_id);
            let path = scopes.effective_path_prefix(source.scope_id) + router_key.path@;
            match before.registration_failure(domain, path, router_key.method_guard, id as usize) {
                Some(e) => table == before && errors == earlier.push(e),
                None => errors == earlier && table.is_with_route(
                    before,
                    domain,
                    path,
                    router_key.method_guard,
                    id as usize,
                ),
            }
        },
        UserComponent::Fallback { source } => {
            &&& errors == earlier
            &&& table.domains == before.domains
            &&& table.fallbacks@.len() == before.fallbacks@.len() + 1
            &&& forall|i: int| 0 <= i < before.fallbacks@.len() ==> table.fallbacks@[i] == before.fallbacks@[i]
            &&& table.fallbacks@.last().fallback_id == id
            &&& opt_string_view(table.fallbacks@.last().domain) == scopes.effective_domain_guard(source.scope_id)
            &&& table.fallbacks@.last().path_prefix@ == scopes.effective_path_prefix(source.scope_id)
        },
        _ => table == before && errors == earlier,
    }
}

/// What the `n`-th component, counting from one, adds to the routes that the
/// components before it left.
pub open spec fn route_step_at(
    components: Seq<UserComponent>,
    scopes: ScopeGraph,
    n: int,
    before: RoutingTable,
    earlier: Seq<ConfigErrorView>,
    table: RoutingTable,
    errors: Seq<ConfigErrorView>,
) -> bool {
    n >= 1 && route_step(components[n - 1], n - 1, scopes, before, earlier, table, errors)
}

/// Whether `table` and `errors` are what the first `n` components, taken in
/// order, make of an empty table.
pub open spec fn routed(
    components: Seq<UserComponent>,
    scopes: ScopeGraph,
    n: int,
    table: RoutingTable,
    errors: Seq<ConfigErrorView>,
) -> bool
    decreases n,
{
    if n <= 0 {
        table.domains@.len() == 0 && table.fallbacks@.len() == 0 && errors.len() == 0
    } else {
        exists|before: RoutingTable, earlier: Seq<ConfigErrorView>|
            routed(components, scopes, n - 1, before, earlier) && #[trigger] route_step_at(
                components,
                scopes,
                n,
                before,
                earlier,
                table,
                errors,
            )
    }
}

/// Registers the route of every request handler and every fallback, in the
/// order of the components. A route that cannot be registered is pushed to
/// the sink and left out.
pub fn build_routes(aux: &AuxiliaryData, scopes: &ScopeGraph, diagnostics: &mut DiagnosticSink) -> (table:
    RoutingTable)
    requires
        scopes.wf(),
    ensures
        table.wf(),
        exists|late: Seq<ConfigErrorView>|
            #[trigger] routed(aux.component_interner@, *scopes, aux.component_interner@.len() as int, table, late)
                && final(diagnostics)@ == old(diagnostics)@ + late,
{
    let mut table = RoutingTable::new();
    let ghost mut late: Seq<ConfigErrorView> = Seq::empty();
    assert(diagnostics@ =~= old(diagnostics)@ + late);
    let mut id: usize = 0;
    while id < aux.component_interner.len()
        invariant
            id <= aux.component_interner@.len(),
            scopes.wf(),
            table.wf(),
            routed(aux.component_interner@, *scopes, id as int, table, late),
            diagnostics@ == old(diagnostics)@ + late,
        decreases aux.component_interner@.len() - id,
    {
        let ghost before = table;
        let ghost earlier = late;
        match &aux.component_interner[id] {
            UserComponent::RequestHandler { source, router_key } => {
                let domain = scopes.domain_guard(source.scope_id);
                let mut path = scopes.path_prefix(source.scope_id);
                path.append(router_key.path.as_str());
                match table.register_route(domain, path, router_key.method_guard, id) {
                    Ok(()) => {},
                    Err(e) => {
                        proof {
                            late = late.push(e@);
                        }
                        diagnostics.push(e);
                        assert(diagnostics@ =~= old(diagnostics)@ + late);
                    },
                }
            },
            UserComponent::Fallback { source } => {
                let domain = scopes.domain_guard(source.scope_id);
                let prefix = scopes.path_prefix(source.scope_id);
                table.register_fallback(domain, prefix, id);
            },
            _ => {},
        }
        assert(route_step(aux.component_interner@[id as int], id as int, *scopes, before, earlier, table, late));
        assert(route_step_at(aux.component_interner@, *scopes, id as int + 1, before, earlier, table, late));
        assert(routed(aux.component_interner@, *scopes, id as int + 1, table, late));
        id += 1;
    }
    table
}

/// The state that a replay starts from: the root scope alone, and the
/// failures reported before.
pub open spec fn replay_start(reported: Seq<ConfigErrorView>) -> Replay {
    Replay {
        components: Seq::empty(),
        identifiers: Seq::empty(),
        scopes: seq![
            ScopeRecord {
                parent: None,
                path_prefix: None,
                domain_guard: None,
                children: Seq::empty(),
                middleware: Seq::empty(),
                error_observers: Seq::empty(),
            },
        ],
        errors: reported,
    }
}

/// Whether the tables, the scopes, the routes and the failures are what the
/// registrations of an application amount to: the blueprint replayed in the
/// root scope, the annotated constructors interned after its components,
/// what each scope gives to its handlers attached, and the routes
/// registered in the order of the components.
pub open spec fn assembled(
    blueprint: Blueprint,
    annotated: Seq<AnnotatedConstructor>,
    reported: Seq<ConfigErrorView>,
    aux: AuxiliaryData,
    scopes: ScopeGraph,
    table: RoutingTable,
    failures: Seq<ConfigErrorView>,
) -> bool {
    let replayed = replay_start(reported).with_blueprint(blueprint, ROOT_SCOPE);
    &&& scopes.records() == replayed.scopes
    &&& aux.identifiers_interner@ == replayed.identifiers
    &&& aux.records().len() == replayed.components.len() + annotated.len()
    &&& forall|i: int| 0 <= i < replayed.components.len() ==> aux.records()[i] == replayed.components[i]
    &&& forall|i: int|
        replayed.components.len() <= i < aux.records().len() ==> #[trigger] aux.records()[i] == annotated_record(
            annotated[i - replayed.components.len()],
            i - replayed.components.len(),
        )
    &&& aux.annotation_interner@.len() == annotated.len()
    &&& forall|k: int| 0 <= k < annotated.len() ==> #[trigger] aux.annotation_interner@[k] == annotated[k].identifiers
    &&& scope_data_attached(aux, scopes)
    &&& handlers_only(aux)
    &&& exists|late: Seq<ConfigErrorView>|
        #[trigger] routed(aux.component_interner@, scopes, aux.component_interner@.len() as int, table, late)
            && failures == replayed.errors + late
}

/// The components of the application, with their metadata and the scopes
/// they were registered in.
#[derive(Debug)]
pub struct UserComponentDb {
    pub aux: AuxiliaryData,
    pub scope_graph: ScopeGraph,
}

/// Which components a listing is asked for.
#[derive(Debug, Clone, Copy, PartialEq, Eq, Hash, Structural)]
pub enum Selection {
    Constructors,
    PrebuiltTypes,
    ConfigTypes,
    RequestHandlers,
    WrappingMiddlewares,
    PostProcessingMiddlewares,
    PreProcessingMiddlewares,
    ErrorObservers,
}

impl Selection {
    /// Whether the selection takes `component`. Request handlers include
    /// fallbacks.
    pub open spec fn takes(self, component: UserComponent) -> bool {
        match self {
            Selection::Constructors => component is Constructor,
            Selection::PrebuiltTypes => component is PrebuiltType,
            Selection::ConfigTypes => component is ConfigType,
            Selection::RequestHandlers => component is RequestHandler || component is Fallback,
            Selection::WrappingMiddlewares => component is WrappingMiddleware,
            Selection::PostProcessingMiddlewares => component is PostProcessingMiddleware,
            Selection::PreProcessingMiddlewares => component is PreProcessingMiddleware,
            Selection::ErrorObservers => component is ErrorObserver,
        }
    }

    pub fn selects(&self, component: &UserComponent) -> (r: bool)
        ensures
            r == self.takes(*component),
    {
        match self {
            Selection::Constructors => match component {
                UserComponent::Constructor { .. } => true,
                _ => false,
            },
            Selection::PrebuiltTypes => match component {
                UserComponent::PrebuiltType { .. } => true,
                _ => false,
            },
            Selection::ConfigTypes => match component {
                UserComponent::ConfigType { .. } => true,
                _ => false,
            },
            Selection::RequestHandlers => match component {
                UserComponent::RequestHandler { .. } => true,
                UserComponent::Fallback { .. } => true,
                _ => false,
            },
            Selection::WrappingMiddlewares => match component {
                UserComponent::WrappingMiddleware { .. } => true,
                _ => false,
            },
            Selection::PostProcessingMiddlewares => match component {
                UserComponent::PostProcessingMiddleware { .. } => true,
                _ => false,
            },
            Selection::PreProcessingMiddlewares => match component {
                UserComponent::PreProcessingMiddleware { .. } => true,
                _ => false,
            },
            Selection::ErrorObservers => match component {
                UserComponent::ErrorObserver { .. } => true,
                _ => false,
            },
        }
    }
}

/// The identifiers, among the first `n`, of the components that the
/// selection takes, in order.
pub open spec fn selected_upto(components: Seq<UserComponent>, selection: Selection, n: int) -> Seq<UserComponentId>
    decreases n,
{
    if n <= 0 {
        Seq::empty()
    } else if n <= components.len() && selection.takes(components[n - 1]) {
        selected_upto(components, selection, n - 1).push((n - 1) as usize)
    } else {
        selected_upto(components, selection, n - 1)
    }
}

impl UserComponentDb {
    /// The tables are complete, every scope they name exists, and every
    /// middleware and error observer is listed once, by one scope.
    pub open spec fn wf(self) -> bool {
        &&& self.aux.tidy()
        &&& self.scope_graph.wf()
        &&& self.aux.registered_well(self.scope_graph.nodes@.len() as int)
        &&& self.aux.invariants_hold()
        &&& scope_data_attached(self.aux, self.scope_graph)
        &&& listed_once(self.scope_graph.records(), self.aux.component_interner@.len() as int)
    }

    /// Whether `id` names a component.
    pub open spec fn has(self, id: UserComponentId) -> bool {
        id < self.aux.component_interner@.len()
    }

    /// Every identifier of the selection, in order.
    pub open spec fn selected(self, selection: Selection) -> Seq<UserComponentId> {
        selected_upto(self.aux.component_interner@, selection, self.aux.component_interner@.len() as int)
    }

    /// Processes the registrations of an application: replays the blueprint,
    /// interns the annotated constructors, attaches to every handler what its
    /// scope gives it and registers the routes. Every failure is pushed to the
    /// sink. The routes and the database are returned if the sink is empty at
    /// the end.
    pub fn build(blueprint: Blueprint, annotated: Vec<AnnotatedConstructor>, diagnostics: &mut DiagnosticSink) -> (r:
        Result<(RoutingTable, UserComponentDb), ()>)
        ensures
            match r {
                Ok((table, db)) => {
                    &&& final(diagnostics)@.len() == 0
                    &&& db.wf()
                    &&& table.wf()
                    &&& assembled(
                        blueprint,
                        annotated@,
                        old(diagnostics)@,
                        db.aux,
                        db.scope_graph,
                        table,
                        final(diagnostics)@,
                    )
                },
                Err(()) => {
                    &&& final(diagnostics)@.len() > 0
                    &&& exists|aux: AuxiliaryData, scopes: ScopeGraph, table: RoutingTable| #[trigger]
                        assembled(blueprint, annotated@, old(diagnostics)@, aux, scopes, table, final(diagnostics)@)
                },
            },
    {
        let mut aux = AuxiliaryData::new();
        assert(aux.records() =~= Seq::<crate::auxiliary::ComponentRecord>::empty());
        assert(aux.identifiers_interner@ =~= Seq::<crate::component::RawIdentifiers>::empty());
        assert(aux.registered_well(1));
        assert(handlers_only(aux));
        let scope_graph = process_blueprint(blueprint, &mut aux, diagnostics);
        let ghost replayed = replay_start(old(diagnostics)@).with_blueprint(blueprint, ROOT_SCOPE);
        assert(aux.records() == replayed.components);
        assert(diagnostics@ == replayed.errors);
        process_annotations(&mut aux, annotated);
        attach_scope_data(&mut aux, &scope_graph);
        let table = build_routes(&aux, &scope_graph, diagnostics);
        proof {
            assert(scope_graph.records() == replayed.scopes);
            assert(aux.identifiers_interner@ == replayed.identifiers);
            assert(aux.records().len() == replayed.components.len() + annotated@.len());
            assert(forall|i: int| 0 <= i < replayed.components.len() ==> aux.records()[i] == replayed.components[i]);
            assert(forall|i: int|
                replayed.components.len() <= i < aux.records().len() ==> #[trigger] aux.records()[i]
                    == annotated_record(
                    annotated@[i - replayed.components.len()],
                    i - replayed.components.len(),
                ));
            assert(aux.annotation_interner@.len() == annotated@.len());
            assert(forall|k: int|
                0 <= k < annotated@.len() ==> #[trigger] aux.annotation_interner@[k] == annotated@[k].identifiers);
            assert(scope_data_attached(aux, scope_graph));
            assert(handlers_only(aux));
            let late = choose|late: Seq<ConfigErrorView>|
                #[trigger] routed(
                    aux.component_interner@,
                    scope_graph,
                    aux.component_interner@.len() as int,
                    table,
                    late,
                ) && diagnostics@ == replayed.errors + late;
            assert(routed(aux.component_interner@, scope_graph, aux.component_interner@.len() as int, table, late));
        }
        assert(assembled(blueprint, annotated@, old(diagnostics)@, aux, scope_graph, table, diagnostics@));
        if !diagnostics.is_empty() {
            return Err(());
        }
        aux.check_invariants();
        proof {
            lemma_processing_lists_once(
                blueprint,
                annotated@,
                old(diagnostics)@,
                aux,
                scope_graph,
                table,
                diagnostics@,
            );
        }
        Ok((table, UserComponentDb { aux, scope_graph }))
    }

    /// Every component, in the order of the identifiers: the identifier of a
    /// component is its index.
    pub fn iter(&self) -> (all: &Vec<UserComponent>)
        ensures
            all == self.aux.component_interner,
    {
        &self.aux.component_interner
    }

    /// The component with this identifier.
    pub fn get(&self, id: UserComponentId) -> (component: &UserComponent)
        requires
            self.has(id),
        ensures
            *component == self.aux.component_interner@[id as int],
    {
        &self.aux.component_interner[id]
    }

    /// The identifiers of the components that the selection takes, in order.
    pub fn select(&self, selection: Selection) -> (ids: Vec<UserComponentId>)
        ensures
            ids@ == self.selected(selection),
    {
        let mut ids: Vec<UserComponentId> = Vec::new();
        let mut id: usize = 0;
        while id < self.aux.component_interner.len()
            invariant
                id <= self.aux.component_interner@.len(),
                ids@ == selected_upto(self.aux.component_interner@, selection, id as int),
            decreases self.aux.component_interner@.len() - id,
        {
            if selection.selects(&self.aux.component_interner[id]) {
                ids.push(id);
            }
            id += 1;
        }
        ids
    }

    /// The identifiers of the constructors, in order.
    pub fn constructors(&self) -> (ids: Vec<UserComponentId>)
        ensures
            ids@ == self.selected(Selection::Constructors),
    {
        self.select(Selection::Constructors)
    }

    /// The identifiers of the prebuilt types, in order.
    pub fn prebuilt_types(&self) -> (ids: Vec<UserComponentId>)
        ensures
            ids@ == self.selected(Selection::PrebuiltTypes),
    {
        self.select(Selection::PrebuiltTypes)
    }

    /// The identifiers of the configuration types, in order.
    pub fn config_types(&self) -> (ids: Vec<UserComponentId>)
        ensures
            ids@ == self.selected(Selection::ConfigTypes),
    {
        self.select(Selection::ConfigTypes)
    }

    /// The identifiers of the request handlers, in order: routes and
    /// fallbacks alike.
    pub fn request_handlers(&self) -> (ids: Vec<UserComponentId>)
        ensures
            ids@ == self.selected(Selection::RequestHandlers),
    {
        self.select(Selection::RequestHandlers)
    }

    /// The identifiers of the wrapping middleware, in order.
    pub fn wrapping_middlewares(&self) -> (ids: Vec<UserComponentId>)
        ensures
            ids@ == self.selected(Selection::WrappingMiddlewares),
    {
        self.select(Selection::WrappingMiddlewares)
    }

    /// The identifiers of the post-processing middleware, in order.
    pub fn post_processing_middlewares(&self) -> (ids: Vec<UserComponentId>)
        ensures
            ids@ == self.selected(Selection::PostProcessingMiddlewares),
    {
        self.select(Selection::PostProcessingMiddlewares)
    }

    /// The identifiers of the pre-processing middleware, in order.
    pub fn pre_processing_middlewares(&self) -> (ids: Vec<UserComponentId>)
        ensures
            ids@ == self.selected(Selection::PreProcessingMiddlewares),
    {
        self.select(Selection::PreProcessingMiddlewares)
    }

    /// The identifiers of the error observers, in order.
    pub fn error_observers(&self) -> (ids: Vec<UserComponentId>)
        ensures
            ids@ == self.selected(Selection::ErrorObservers),
    {
        self.select(Selection::ErrorObservers)
    }

    /// The lifecycle of a component. Every component of a database that was
    /// built has one.
    pub fn get_lifecycle(&self, id: UserComponentId) -> (lifecycle: Lifecycle)
        requires
            self.aux.id2lifecycle@.contains_key(id),
        ensures
            lifecycle == self.aux.id2lifecycle@[id],
    {
        match self.aux.id2lifecycle.get(&id) {
            Some(lifecycle) => *lifecycle,
            None => vstd::pervasive::unreached(),
        }
    }

    /// Where a component was registered. Every component of a database that
    /// was built has a location.
    pub fn get_location(&self, id: UserComponentId) -> (location: &Location)
        requires
            self.aux.id2locations@.contains_key(id),
        ensures
            *location == self.aux.id2locations@[id],
    {
        match self.aux.id2locations.get(&id) {
            Some(location) => location,
            None => vstd::pervasive::unreached(),
        }
    }

    /// The cloning strategy of a component: there is one for every
    /// constructor, prebuilt type and configuration type, and for no other
    /// component.
    pub fn get_cloning_strategy(&self, id: UserComponentId) -> (strategy: Option<&CloningStrategy>)
        ensures
            match strategy {
                Some(s) => self.aux.id2cloning_strategy@.contains_key(id) && *s == self.aux.id2cloning_strategy@[id],
                None => !self.aux.id2cloning_strategy@.contains_key(id),
            },
            self.wf() && self.has(id) ==> (strategy is Some <==> self.aux.component_interner@[id
                as int].takes_cloning_strategy()),
    {
        proof {
            if self.wf() && self.has(id) {
                assert(AuxiliaryData::is_well_recorded(
                    self.aux.record(id as int),
                    self.scope_graph.nodes@.len() as int,
                ));
            }
        }
        self.aux.id2cloning_strategy.get(&id)
    }

    /// The default strategy of a configuration type; `None` for every other
    /// component.
    pub fn get_default_strategy(&self, id: UserComponentId) -> (strategy: Option<&DefaultStrategy>)
        ensures
            match strategy {
                Some(s) => self.aux.config_id2default_strategy@.contains_key(id) && *s
                    == self.aux.config_id2default_strategy@[id],
                None => !self.aux.config_id2default_strategy@.contains_key(id),
            },
            self.wf() && self.has(id) ==> (strategy is Some <==> self.aux.component_interner@[id as int] is ConfigType),
    {
        proof {
            if self.wf() && self.has(id) {
                assert(AuxiliaryData::is_well_recorded(
                    self.aux.record(id as int),
                    self.scope_graph.nodes@.len() as int,
                ));
            }
        }
        self.aux.config_id2default_strategy.get(&id)
    }

    /// The tree of scopes.
    pub fn scope_graph(&self) -> (scopes: &ScopeGraph)
        ensures
            *scopes == self.scope_graph,
    {
        &self.scope_graph
    }

    /// The middleware around a request handler, in order. Every request
    /// handler and fallback of a database that was built has such a list,
    /// and none of them occurs in it twice.
    pub fn get_middleware_ids(&self, id: UserComponentId) -> (ids: &[UserComponentId])
        requires
            self.aux.handler_id2middleware_ids@.contains_key(id),
        ensures
            ids@ == self.aux.handler_id2middleware_ids@[id]@,
            self.wf() && self.has(id) && (self.aux.component_interner@[id as int] is RequestHandler
                || self.aux.component_interner@[id as int] is Fallback) ==> ids@.no_duplicates(),
    {
        proof {
            if self.wf() && self.has(id) && (self.aux.component_interner@[id as int] is RequestHandler
                || self.aux.component_interner@[id as int] is Fallback) {
                lemma_handler_gets_each_once(*self, id);
            }
        }
        match self.aux.handler_id2middleware_ids.get(&id) {
            Some(ids) => ids.as_slice(),
            None => vstd::pervasive::unreached(),
        }
    }

    /// The lint overrides of a component, if it has any.
    pub fn get_lints(&self, id: UserComponentId) -> (lints: Option<&Vec<LintOverride>>)
        ensures
            match lints {
                Some(found) => self.aux.id2lints@.contains_key(id) && *found == self.aux.id2lints@[id],
                None => !self.aux.id2lints@.contains_key(id),
            },
    {
        self.aux.id2lints.get(&id)
    }

    /// The error observers of a request handler, in order. Every request
    /// handler and fallback of a database that was built has such a list,
    /// and none of them occurs in it twice.
    pub fn get_error_observer_ids(&self, id: UserComponentId) -> (ids: &[UserComponentId])
        requires
            self.aux.handler_id2error_observer_ids@.contains_key(id),
        ensures
            ids@ == self.aux.handler_id2error_observer_ids@[id]@,
            self.wf() && self.has(id) && (self.aux.component_interner@[id as int] is RequestHandler
                || self.aux.component_interner@[id as int] is Fallback) ==> ids@.no_duplicates(),
    {
        proof {
            if self.wf() && self.has(id) && (self.aux.component_interner@[id as int] is RequestHandler
                || self.aux.component_interner@[id as int] is Fallback) {
                lemma_handler_gets_each_once(*self, id);
            }
        }
        match self.aux.handler_id2error_observer_ids.get(&id) {
            Some(ids) => ids.as_slice(),
            None => vstd::pervasive::unreached(),
        }
    }

    /// Whether the tables hold everything that the getters of a component
    /// ask for: the check that `get_lifecycle` and `get_location`, and for a
    /// request handler `get_middleware_ids` and `get_error_observer_ids`, rely
    /// on.
    pub fn is_complete_for(&self, id: UserComponentId) -> (r: bool)
        ensures
            r == (self.has(id) && self.aux.first_missing(id as int) is None),
            r ==> self.aux.id2lifecycle@.contains_key(id) && self.aux.id2locations@.contains_key(id),
            r && (self.aux.component_interner@[id as int] is RequestHandler || self.aux.component_interner@[id
                as int] is Fallback) ==> self.aux.handler_id2middleware_ids@.contains_key(id)
                && self.aux.handler_id2error_observer_ids@.contains_key(id),
    {
        if id >= self.aux.component_interner.len() {
            return false;
        }
        self.aux.missing_entry(id).is_none()
    }
}

/// In a database that is well formed every component has a lifecycle and a
/// location, and every request handler and fallback has its middleware and
/// its error observers.
pub proof fn lemma_built_database_is_complete(db: UserComponentDb, id: UserComponentId)
    requires
        db.wf(),
        db.has(id),
    ensures
        db.aux.id2lifecycle@.contains_key(id),
        db.aux.id2locations@.contains_key(id),
        db.aux.component_interner@[id as int] is RequestHandler || db.aux.component_interner@[id as int] is Fallback
            ==> db.aux.handler_id2middleware_ids@.contains_key(id) && db.aux.handler_id2error_observer_ids@.contains_key(
            id,
        ),
{
    assert(db.aux.first_missing(id as int) is None);
}

} // verus!

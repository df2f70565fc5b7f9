//! The registrations of an application, as a tree: a blueprint holds
//! components and nested blueprints, each nested blueprint under a path
//! prefix and a domain guard of its own. Processing a blueprint replays the
//! tree in the order of registration: every nested blueprint becomes a scope,
//! every registration a component of the scope it was made in.

use vstd::prelude::*;
use crate::auxiliary::{AuxiliaryData, ComponentRecord, LintOverride, Location};
use crate::component::{MethodGuard, RawIdentifiers, RouterKey, UserComponent};
use crate::diagnostic::{ConfigErrorView, DiagnosticSink, Failure};
use crate::model::{
    BlueprintSource, CloningStrategy, DefaultStrategy, Lifecycle, ScopeId, UserComponentId, ROOT_SCOPE,
};
use crate::scope::{ScopeGraph, ScopeRecord};

verus! {

/// What a registration registers.
#[derive(Debug, Clone, PartialEq, Eq)]
pub enum Registered {
    Constructor { lifecycle: Lifecycle, cloning_strategy: Option<CloningStrategy> },
    PrebuiltType { cloning_strategy: Option<CloningStrategy> },
    ConfigType { key: String, cloning_strategy: Option<CloningStrategy>, default_strategy: DefaultStrategy },
    Route { method_guard: MethodGuard, path: String },
    Fallback,
    WrappingMiddleware,
    PreProcessingMiddleware,
    PostProcessingMiddleware,
    ErrorObserver,
}

/// One registration against a blueprint.
#[derive(Debug, Clone, PartialEq, Eq)]
pub struct Registration {
    pub registered: Registered,
    pub identifiers: RawIdentifiers,
    /// The error handler registered with the component, if any.
    pub error_handler: Option<RawIdentifiers>,
    pub location: Location,
    pub lints: Vec<LintOverride>,
}

/// A blueprint nested into another.
#[derive(Debug)]
pub struct NestedBlueprint {
    pub blueprint: Blueprint,
    pub path_prefix: Option<String>,
    pub domain: Option<String>,
}

/// What a blueprint holds, in the order of registration.
#[derive(Debug)]
pub enum BlueprintItem {
    Component(Registration),
    Nested(NestedBlueprint),
}

/// A blueprint.
#[derive(Debug)]
pub struct Blueprint {
    pub items: Vec<BlueprintItem>,
}

impl Blueprint {
    /// A blueprint that holds nothing.
    pub fn new() -> (blueprint: Self)
        ensures
            blueprint.items@.len() == 0,
    {
        Blueprint { items: Vec::new() }
    }

    /// Registers a component, after what was registered so far.
    pub fn register(&mut self, registration: Registration)
        ensures
            final(self).items@ == old(self).items@.push(BlueprintItem::Component(registration)),
    {
        self.items.push(BlueprintItem::Component(registration));
    }

    /// Nests a blueprint under a path prefix and a domain guard, after what
    /// was registered so far.
    pub fn nest(&mut self, blueprint: Blueprint, path_prefix: Option<String>, domain: Option<String>)
        ensures
            final(self).items@ == old(self).items@.push(
                BlueprintItem::Nested(NestedBlueprint { blueprint, path_prefix, domain }),
            ),
    {
        self.items.push(BlueprintItem::Nested(NestedBlueprint { blueprint, path_prefix, domain }));
    }
}

/// What the registrations processed so far amount to.
pub struct Replay {
    pub components: Seq<ComponentRecord>,
    pub identifiers: Seq<RawIdentifiers>,
    pub scopes: Seq<ScopeRecord>,
    pub errors: Seq<ConfigErrorView>,
}

/// A letter or a digit.
pub open spec fn is_host_char(c: char) -> bool {
    ('a' <= c && c <= 'z') || ('A' <= c && c <= 'Z') || ('0' <= c && c <= '9')
}

/// Whether `b` may follow `a` in a host name: a dot stands between letters
/// or digits.
pub open spec fn may_follow(a: char, b: char) -> bool {
    (a == '.' ==> is_host_char(b)) && (b == '.' ==> is_host_char(a))
}

/// Whether `domain` is a host name: at most 253 letters, digits, hyphens and
/// dots, with a letter or a digit at both ends and around every dot.
pub open spec fn is_valid_domain(domain: Seq<char>) -> bool {
    &&& 0 < domain.len() <= 253
    &&& forall|i: int| 0 <= i < domain.len() ==> is_host_char(#[trigger] domain[i]) || domain[i] == '-' || domain[i] == '.'
    &&& is_host_char(domain[0])
    &&& is_host_char(domain[domain.len() - 1])
    &&& forall|i: int| 0 <= i < domain.len() - 1 ==> may_follow(#[trigger] domain[i], domain[i + 1])
}

/// Whether a nested blueprint declares a domain guard that is no host name.
/// An empty guard declares nothing.
pub open spec fn declares_bad_domain(domain: Option<String>) -> bool {
    domain is Some && domain->0@.len() > 0 && !is_valid_domain(domain->0@)
}

impl Registered {
    /// The component that the registration interns.
    pub open spec fn component(self, source: BlueprintSource) -> UserComponent {
        match self {
            Registered::Constructor { .. } => UserComponent::Constructor {
                source: crate::model::UserComponentSource::Blueprint(source),
            },
            Registered::PrebuiltType { .. } => UserComponent::PrebuiltType { source },
            Registered::ConfigType { key, .. } => UserComponent::ConfigType { source, key },
            Registered::Route { method_guard, path } => UserComponent::RequestHandler {
                source,
                router_key: RouterKey { path, method_guard },
            },
            Registered::Fallback => UserComponent::Fallback { source },
            Registered::WrappingMiddleware => UserComponent::WrappingMiddleware { source },
            Registered::PreProcessingMiddleware => UserComponent::PreProcessingMiddleware { source },
            Registered::PostProcessingMiddleware => UserComponent::PostProcessingMiddleware { source },
            Registered::ErrorObserver => UserComponent::ErrorObserver { source },
        }
    }

    /// The lifecycle of the component: the one chosen for a constructor;
    /// singleton for prebuilt and configuration types; request-scoped for
    /// everything else.
    pub open spec fn lifecycle(self) -> Lifecycle {
        match self {
            Registered::Constructor { lifecycle, .. } => lifecycle,
            Registered::PrebuiltType { .. } => Lifecycle::Singleton,
            Registered::ConfigType { .. } => Lifecycle::Singleton,
            _ => Lifecycle::RequestScoped,
        }
    }

    /// The cloning strategy of the component, for the kinds that have one:
    /// the one chosen, or else never to clone a constructor or a prebuilt type
    /// and to clone a configuration type if necessary.
    pub open spec fn cloning_strategy(self) -> Option<CloningStrategy> {
        match self {
            Registered::Constructor { cloning_strategy, .. } => Some(
                match cloning_strategy {
                    Some(chosen) => chosen,
                    None => CloningStrategy::NeverClone,
                },
            ),
            Registered::PrebuiltType { cloning_strategy } => Some(
                match cloning_strategy {
                    Some(chosen) => chosen,
                    None => CloningStrategy::NeverClone,
                },
            ),
            Registered::ConfigType { cloning_strategy, .. } => Some(
                match cloning_strategy {
                    Some(chosen) => chosen,
                    None => CloningStrategy::CloneIfNecessary,
                },
            ),
            _ => None,
        }
    }

    /// The default strategy of a configuration type.
    pub open spec fn default_strategy(self) -> Option<DefaultStrategy> {
        match self {
            Registered::ConfigType { default_strategy, .. } => Some(default_strategy),
            _ => None,
        }
    }

    /// Whether the component is a middleware.
    pub open spec fn is_middleware(self) -> bool {
        self is WrappingMiddleware || self is PreProcessingMiddleware || self is PostProcessingMiddleware
    }
}

impl Replay {
    /// The state after component `id` was listed among the middleware of
    /// `scope`.
    pub open spec fn with_middleware(self, scope: ScopeId, id: UserComponentId) -> Replay {
        Replay {
            scopes: self.scopes.update(
                scope as int,
                ScopeRecord { middleware: self.scopes[scope as int].middleware.push(id), ..self.scopes[scope as int] },
            ),
            ..self
        }
    }

    /// The state after component `id` was listed among the error observers of
    /// `scope`.
    pub open spec fn with_error_observer(self, scope: ScopeId, id: UserComponentId) -> Replay {
        Replay {
            scopes: self.scopes.update(
                scope as int,
                ScopeRecord {
                    error_observers: self.scopes[scope as int].error_observers.push(id),
                    ..self.scopes[scope as int]
                },
            ),
            ..self
        }
    }

    /// The state after a registration in `scope`: the component is interned
    /// with its signature and its metadata, a middleware or an error observer
    /// is listed in its scope, and the error handler that comes with the
    /// component, if any, is interned after it, for it, with its lifecycle.
    pub open spec fn with_registration(self, registration: Registration, scope: ScopeId) -> Replay {
        let id = self.components.len() as usize;
        let source = BlueprintSource { identifiers_id: self.identifiers.len() as usize, scope_id: scope };
        let record = ComponentRecord {
            component: registration.registered.component(source),
            lifecycle: Some(registration.registered.lifecycle()),
            location: Some(registration.location),
            lints: if registration.lints@.len() > 0 {
                Some(registration.lints)
            } else {
                None
            },
            cloning_strategy: registration.registered.cloning_strategy(),
            default_strategy: registration.registered.default_strategy(),
        };
        let interned = Replay {
            components: self.components.push(record),
            identifiers: self.identifiers.push(registration.identifiers),
            ..self
        };
        let listed = if registration.registered.is_middleware() {
            interned.with_middleware(scope, id)
        } else if registration.registered is ErrorObserver {
            interned.with_error_observer(scope, id)
        } else {
            interned
        };
        match registration.error_handler {
            Some(handler) => Replay {
                components: listed.components.push(
                    ComponentRecord {
                        component: UserComponent::ErrorHandler {
                            source: BlueprintSource {
                                identifiers_id: listed.identifiers.len() as usize,
                                scope_id: scope,
                            },
                            fallible_id: id,
                        },
                        lifecycle: Some(registration.registered.lifecycle()),
                        location: Some(registration.location),
                        lints: None,
                        cloning_strategy: None,
                        default_strategy: None,
                    },
                ),
                identifiers: listed.identifiers.push(handler),
                ..listed
            },
            None => listed,
        }
    }

    /// The state after a scope was opened under `parent` for a nested
    /// blueprint. A domain guard that is no host name is reported; the scope
    /// is opened all the same.
    pub open spec fn with_scope(self, parent: ScopeId, path_prefix: Option<String>, domain: Option<String>) -> Replay {
        let id = self.scopes.len() as usize;
        let opened = Replay {
            scopes: self.scopes.update(
                parent as int,
                ScopeRecord { children: self.scopes[parent as int].children.push(id), ..self.scopes[parent as int] },
            ).push(
                ScopeRecord {
                    parent: Some(parent),
                    path_prefix,
                    domain_guard: domain,
                    children: Seq::empty(),
                    middleware: Seq::empty(),
                    error_observers: Seq::empty(),
                },
            ),
            ..self
        };
        if declares_bad_domain(domain) {
            Replay { errors: opened.errors.push(Failure::MalformedDomain { scope: id }), ..opened }
        } else {
            opened
        }
    }

    /// The state after the items of a blueprint from the `i`-th on were
    /// replayed in `scope`.
    pub open spec fn with_items(self, items: Seq<BlueprintItem>, i: int, scope: ScopeId) -> Replay
        decreases items, items.len() - i,
    {
        if 0 <= i < items.len() {
            let next = match items[i] {
                BlueprintItem::Component(registration) => self.with_registration(registration, scope),
                BlueprintItem::Nested(nested) => self.with_scope(scope, nested.path_prefix, nested.domain).with_blueprint(
                    nested.blueprint,
                    self.scopes.len() as usize,
                ),
            };
            next.with_items(items, i + 1, scope)
        } else {
            self
        }
    }

    /// The state after a blueprint was replayed in `scope`.
    pub open spec fn with_blueprint(self, blueprint: Blueprint, scope: ScopeId) -> Replay
        decreases blueprint,
    {
        self.with_items(blueprint.items@, 0, scope)
    }
}

/// What the tables, the scopes and the sink hold, as a replay state.
pub open spec fn replay_state(aux: AuxiliaryData, scopes: ScopeGraph, diagnostics: DiagnosticSink) -> Replay {
    Replay {
        components: aux.records(),
        identifiers: aux.identifiers_interner@,
        scopes: scopes.records(),
        errors: diagnostics@,
    }
}

/// Whether `c` is a letter or a digit.
pub fn host_char(c: char) -> (r: bool)
    ensures
        r == is_host_char(c),
{
    ('a' <= c && c <= 'z') || ('A' <= c && c <= 'Z') || ('0' <= c && c <= '9')
}

/// Whether `domain` is a host name.
pub fn check_domain(domain: &str) -> (r: bool)
    ensures
        r == is_valid_domain(domain@),
{
    let n = domain.unicode_len();
    if n == 0 || n > 253 {
        return false;
    }
    let first = domain.get_char(0);
    if !host_char(first) {
        return false;
    }
    let mut previous = first;
    let mut i: usize = 1;
    while i < n
        invariant
            1 <= i <= n,
            n == domain@.len(),
            previous == domain@[i - 1],
            forall|k: int| 0 <= k < i ==> is_host_char(#[trigger] domain@[k]) || domain@[k] == '-' || domain@[k] == '.',
            forall|k: int| 0 <= k < i - 1 ==> may_follow(#[trigger] domain@[k], domain@[k + 1]),
        decreases n - i,
    {
        let c = domain.get_char(i);
        let allowed = host_char(c) || c == '-' || c == '.';
        if !allowed {
            return false;
        }
        let follows = (previous != '.' || host_char(c)) && (c != '.' || host_char(previous));
        if !follows {
            assert(!may_follow(domain@[i - 1], domain@[i - 1 + 1]));
            return false;
        }
        previous = c;
        i += 1;
    }
    host_char(previous)
}

/// A copy of a location.
pub fn copy_location(location: &Location) -> (copy: Location)
    ensures
        copy == *location,
{
    Location { file: location.file.clone(), line: location.line, column: location.column }
}

/// Replays one registration made in `scope`.
pub fn register(registration: Registration, scope: ScopeId, aux: &mut AuxiliaryData, scopes: &mut ScopeGraph) -> (id:
    UserComponentId)
    requires
        old(aux).tidy(),
        old(scopes).wf(),
        old(scopes).has(scope),
    ensures
        final(aux).tidy(),
        final(scopes).wf(),
        final(scopes).nodes@.len() == old(scopes).nodes@.len(),
        id == old(aux).component_interner@.len(),
        old(aux).registered_well(old(scopes).nodes@.len() as int) ==> final(aux).registered_well(
            final(scopes).nodes@.len() as int,
        ),
        final(aux).records() == (Replay {
            components: old(aux).records(),
            identifiers: old(aux).identifiers_interner@,
            scopes: old(scopes).records(),
            errors: Seq::empty(),
        }).with_registration(registration, scope).components,
        final(aux).identifiers_interner@ == (Replay {
            components: old(aux).records(),
            identifiers: old(aux).identifiers_interner@,
            scopes: old(scopes).records(),
            errors: Seq::empty(),
        }).with_registration(registration, scope).identifiers,
        final(scopes).records() == (Replay {
            components: old(aux).records(),
            identifiers: old(aux).identifiers_interner@,
            scopes: old(scopes).records(),
            errors: Seq::empty(),
        }).with_registration(registration, scope).scopes,
        final(aux).annotation_interner == old(aux).annotation_interner,
        final(aux).handler_id2middleware_ids == old(aux).handler_id2middleware_ids,
        final(aux).handler_id2error_observer_ids == old(aux).handler_id2error_observer_ids,
        final(aux).fallback_id2path_prefix == old(aux).fallback_id2path_prefix,
        final(aux).fallback_id2domain_guard == old(aux).fallback_id2domain_guard,
{
    let Registration { registered, identifiers, error_handler, location, lints } = registration;
    let ghost start = Replay {
        components: old(aux).records(),
        identifiers: old(aux).identifiers_interner@,
        scopes: old(scopes).records(),
        errors: Seq::empty(),
    };
    assert(old(aux).component_interner@.len() == old(aux).component_interner.len());
    assert(old(aux).identifiers_interner@.len() == old(aux).identifiers_interner.len());
    let identifiers_id = aux.intern_identifiers(identifiers);
    assert(aux.records() =~= old(aux).records());
    proof {
        if old(aux).registered_well(old(scopes).nodes@.len() as int) {
            old(aux).lemma_registered_well_same(*aux, old(scopes).nodes@.len() as int);
        }
    }
    let source = BlueprintSource { identifiers_id, scope_id: scope };
    let lifecycle = match &registered {
        Registered::Constructor { lifecycle, .. } => *lifecycle,
        Registered::PrebuiltType { .. } => Lifecycle::Singleton,
        Registered::ConfigType { .. } => Lifecycle::Singleton,
        _ => Lifecycle::RequestScoped,
    };
    let cloning_strategy = match &registered {
        Registered::Constructor { cloning_strategy, .. } => Some(
            match cloning_strategy {
                Some(chosen) => *chosen,
                None => CloningStrategy::NeverClone,
            },
        ),
        Registered::PrebuiltType { cloning_strategy } => Some(
            match cloning_strategy {
                Some(chosen) => *chosen,
                None => CloningStrategy::NeverClone,
            },
        ),
        Registered::ConfigType { cloning_strategy, .. } => Some(
            match cloning_strategy {
                Some(chosen) => *chosen,
                None => CloningStrategy::CloneIfNecessary,
            },
        ),
        _ => None,
    };
    let default_strategy = match &registered {
        Registered::ConfigType { default_strategy, .. } => Some(*default_strategy),
        _ => None,
    };
    let middleware = match &registered {
        Registered::WrappingMiddleware => true,
        Registered::PreProcessingMiddleware => true,
        Registered::PostProcessingMiddleware => true,
        _ => false,
    };
    let observer = match &registered {
        Registered::ErrorObserver => true,
        _ => false,
    };
    let component = match registered {
        Registered::Constructor { .. } => UserComponent::Constructor {
            source: crate::model::UserComponentSource::Blueprint(source),
        },
        Registered::PrebuiltType { .. } => UserComponent::PrebuiltType { source },
        Registered::ConfigType { key, .. } => UserComponent::ConfigType { source, key },
        Registered::Route { method_guard, path } => UserComponent::RequestHandler {
            source,
            router_key: RouterKey { path, method_guard },
        },
        Registered::Fallback => UserComponent::Fallback { source },
        Registered::WrappingMiddleware => UserComponent::WrappingMiddleware { source },
        Registered::PreProcessingMiddleware => UserComponent::PreProcessingMiddleware { source },
        Registered::PostProcessingMiddleware => UserComponent::PostProcessingMiddleware { source },
        Registered::ErrorObserver => UserComponent::ErrorObserver { source },
    };
    let handler_location = copy_location(&location);
    let id = aux.intern(component, lifecycle, location, lints, cloning_strategy, default_strategy);
    let ghost interned = aux.records();
    assert(component == registration.registered.component(source));
    assert(interned == start.components.push(
        ComponentRecord {
            component: registration.registered.component(source),
            lifecycle: Some(registration.registered.lifecycle()),
            location: Some(registration.location),
            lints: if registration.lints@.len() > 0 {
                Some(registration.lints)
            } else {
                None
            },
            cloning_strategy: registration.registered.cloning_strategy(),
            default_strategy: registration.registered.default_strategy(),
        },
    ));
    if middleware {
        scopes.register_middleware(scope, id);
        assert(scopes.records() =~= old(scopes).records().update(
            scope as int,
            ScopeRecord {
                middleware: old(scopes).records()[scope as int].middleware.push(id),
                ..old(scopes).records()[scope as int]
            },
        ));
    } else if observer {
        scopes.register_error_observer(scope, id);
        assert(scopes.records() =~= old(scopes).records().update(
            scope as int,
            ScopeRecord {
                error_observers: old(scopes).records()[scope as int].error_observers.push(id),
                ..old(scopes).records()[scope as int]
            },
        ));
    }
    match error_handler {
        Some(handler) => {
            assert(aux.identifiers_interner@.len() == aux.identifiers_interner.len());
            let ghost before_handler = aux.records();
            let ghost with_component = *aux;
            let handler_identifiers_id = aux.intern_identifiers(handler);
            assert(aux.records() =~= before_handler);
            proof {
                if with_component.registered_well(old(scopes).nodes@.len() as int) {
                    with_component.lemma_registered_well_same(*aux, old(scopes).nodes@.len() as int);
                }
            }
            aux.intern(
                UserComponent::ErrorHandler {
                    source: BlueprintSource { identifiers_id: handler_identifiers_id, scope_id: scope },
                    fallible_id: id,
                },
                lifecycle,
                handler_location,
                Vec::new(),
                None,
                None,
            );
        },
        None => {},
    }
    id
}

/// Replays a blueprint in `scope`: its registrations in order, each nested
/// blueprint in a scope of its own under `scope`.
pub fn process_items(
    blueprint: Blueprint,
    scope: ScopeId,
    aux: &mut AuxiliaryData,
    scopes: &mut ScopeGraph,
    diagnostics: &mut DiagnosticSink,
)
    requires
        old(aux).tidy(),
        old(scopes).wf(),
        old(scopes).has(scope),
    ensures
        final(aux).tidy(),
        final(scopes).wf(),
        old(scopes).nodes@.len() <= final(scopes).nodes@.len(),
        old(aux).registered_well(old(scopes).nodes@.len() as int) ==> final(aux).registered_well(
            final(scopes).nodes@.len() as int,
        ),
        replay_state(*final(aux), *final(scopes), *final(diagnostics)) == replay_state(
            *old(aux),
            *old(scopes),
            *old(diagnostics),
        ).with_blueprint(blueprint, scope),
        final(aux).annotation_interner == old(aux).annotation_interner,
        final(aux).handler_id2middleware_ids == old(aux).handler_id2middleware_ids,
        final(aux).handler_id2error_observer_ids == old(aux).handler_id2error_observer_ids,
        final(aux).fallback_id2path_prefix == old(aux).fallback_id2path_prefix,
        final(aux).fallback_id2domain_guard == old(aux).fallback_id2domain_guard,
    decreases blueprint,
{
    let ghost whole = blueprint;
    let ghost all = blueprint.items@;
    let ghost start = replay_state(*aux, *scopes, *diagnostics);
    let mut items = blueprint.items;
    let ghost mut i: int = 0;
    assert(all.skip(0) =~= all);
    while items.len() > 0
        invariant
            0 <= i <= all.len(),
            all == whole.items@,
            whole == blueprint,
            items@ == all.skip(i),
            aux.tidy(),
            scopes.wf(),
            scopes.has(scope),
            old(scopes).nodes@.len() <= scopes.nodes@.len(),
            old(aux).registered_well(old(scopes).nodes@.len() as int) ==> aux.registered_well(
                scopes.nodes@.len() as int,
            ),
            replay_state(*aux, *scopes, *diagnostics).with_items(all, i, scope) == start.with_items(all, 0, scope),
            aux.annotation_interner == old(aux).annotation_interner,
            aux.handler_id2middleware_ids == old(aux).handler_id2middleware_ids,
            aux.handler_id2error_observer_ids == old(aux).handler_id2error_observer_ids,
            aux.fallback_id2path_prefix == old(aux).fallback_id2path_prefix,
            aux.fallback_id2domain_guard == old(aux).fallback_id2domain_guard,
        decreases items@.len(),
    {
        let ghost before = replay_state(*aux, *scopes, *diagnostics);
        let ghost before_scopes = *scopes;
        let item = items.remove(0);
        assert(item == all[i]);
        assert(items@ =~= all.skip(i + 1));
        match item {
            BlueprintItem::Component(registration) => {
                register(registration, scope, aux, scopes);
                assert(replay_state(*aux, *scopes, *diagnostics) == before.with_registration(registration, scope));
            },
            BlueprintItem::Nested(nested) => {
                let NestedBlueprint { blueprint: inner, path_prefix, domain } = nested;
                let bad = match &domain {
                    Some(declared) => !declared.as_str().is_empty() && !check_domain(declared.as_str()),
                    None => false,
                };
                assert(scopes.nodes@.len() == scopes.nodes.len());
                let id = scopes.add_scope(scope, path_prefix, domain);
                assert(scopes.records() =~~= before.scopes.update(
                    scope as int,
                    ScopeRecord { children: before.scopes[scope as int].children.push(id), ..before.scopes[scope as int] },
                ).push(
                    ScopeRecord {
                        parent: Some(scope),
                        path_prefix,
                        domain_guard: domain,
                        children: Seq::empty(),
                        middleware: Seq::empty(),
                        error_observers: Seq::empty(),
                    },
                ));
                if bad {
                    diagnostics.push(Failure::MalformedDomain { scope: id });
                }
                assert(replay_state(*aux, *scopes, *diagnostics) == before.with_scope(scope, path_prefix, domain));
                process_items(inner, id, aux, scopes, diagnostics);
            },
        }
        proof {
            i = i + 1;
        }
    }
}

/// Replays the registrations of an application: the blueprint in the root
/// scope, every nested blueprint in a scope of its own. Returns the scopes.
/// A domain guard that is no host name is pushed to the sink.
pub fn process_blueprint(blueprint: Blueprint, aux: &mut AuxiliaryData, diagnostics: &mut DiagnosticSink) -> (scopes:
    ScopeGraph)
    requires
        old(aux).tidy(),
    ensures
        final(aux).tidy(),
        scopes.wf(),
        old(aux).registered_well(1) ==> final(aux).registered_well(scopes.nodes@.len() as int),
        replay_state(*final(aux), scopes, *final(diagnostics)) == (Replay {
            components: old(aux).records(),
            identifiers: old(aux).identifiers_interner@,
            scopes: seq![
                ScopeRecord {
                    parent: None,
                    path_prefix: None,
                    domain_guard: None,
                    children: Seq::empty(),
                    middleware: Seq::empty(),
                    error_observers: Seq::empty(),
                },
            ],
            errors: old(diagnostics)@,
        }).with_blueprint(blueprint, ROOT_SCOPE),
        final(aux).annotation_interner == old(aux).annotation_interner,
        final(aux).handler_id2middleware_ids == old(aux).handler_id2middleware_ids,
        final(aux).handler_id2error_observer_ids == old(aux).handler_id2error_observer_ids,
        final(aux).fallback_id2path_prefix == old(aux).fallback_id2path_prefix,
        final(aux).fallback_id2domain_guard == old(aux).fallback_id2domain_guard,
{
    let mut scopes = ScopeGraph::new();
    assert(scopes.records() =~~= seq![
        ScopeRecord {
            parent: None,
            path_prefix: None,
            domain_guard: None,
            children: Seq::empty(),
            middleware: Seq::empty(),
            error_observers: Seq::empty(),
        },
    ]);
    process_items(blueprint, ROOT_SCOPE, aux, &mut scopes, diagnostics);
    scopes
}

} // verus!

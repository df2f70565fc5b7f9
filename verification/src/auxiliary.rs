//! What is kept of every user component while the registrations are
//! processed: the component itself and the tables that hold its metadata.

use std::collections::HashMap;
use vstd::prelude::*;
use crate::component::{RawIdentifiers, UserComponent};
use crate::model::{CloningStrategy, DefaultStrategy, Lifecycle, RawIdentifierId, UserComponentId};

verus! {

broadcast use vstd::std_specs::hash::group_hash_axioms;

/// Where in the user's source a registration was made.
#[derive(Debug, Clone, PartialEq, Eq, Hash)]
pub struct Location {
    pub file: String,
    pub line: u32,
    pub column: u32,
}

/// A check that can be switched off for a component.
#[derive(Debug, Clone, Copy, PartialEq, Eq, Hash, Structural)]
pub enum Lint {
    Unused,
    ErrorFallback,
}

/// Whether a check is applied.
#[derive(Debug, Clone, Copy, PartialEq, Eq, Hash, Structural)]
pub enum LintSetting {
    Allow,
    Enforce,
}

/// The setting that a registration chose for one check.
#[derive(Debug, Clone, Copy, PartialEq, Eq, Hash, Structural)]
pub struct LintOverride {
    pub lint: Lint,
    pub setting: LintSetting,
}

/// A table that a component has no entry in.
#[derive(Debug, Clone, Copy, PartialEq, Eq, Hash, Structural)]
pub enum MissingEntry {
    Lifecycle,
    Location,
    CloningStrategy,
    DefaultStrategy,
    MiddlewareChain,
    ErrorObservers,
    PathPrefix,
    DomainGuard,
}

/// A component whose metadata is incomplete: the first table, in the order of
/// the checks, that has no entry for it.
#[derive(Debug, Clone, Copy, PartialEq, Eq, Hash, Structural)]
pub struct InvariantViolation {
    pub id: UserComponentId,
    pub missing: MissingEntry,
}

/// A component with the metadata registered for it.
pub struct ComponentRecord {
    pub component: UserComponent,
    pub lifecycle: Option<Lifecycle>,
    pub location: Option<Location>,
    pub lints: Option<Vec<LintOverride>>,
    pub cloning_strategy: Option<CloningStrategy>,
    pub default_strategy: Option<DefaultStrategy>,
}

/// The components registered so far and the tables of their metadata.
#[derive(Debug)]
pub struct AuxiliaryData {
    pub component_interner: Vec<UserComponent>,
    pub identifiers_interner: Vec<RawIdentifiers>,
    /// The identifiers of the annotated items.
    pub annotation_interner: Vec<crate::annotations::AnnotationIdentifiers>,
    /// Where each component was registered. Every component has an entry.
    pub id2locations: HashMap<UserComponentId, Location>,
    /// The lifecycle of each component. Every component has an entry.
    pub id2lifecycle: HashMap<UserComponentId, Lifecycle>,
    /// The lint overrides of a component, if it has any.
    pub id2lints: HashMap<UserComponentId, Vec<LintOverride>>,
    /// Whether a value can be cloned. Every constructor, prebuilt type and
    /// configuration type has an entry.
    pub id2cloning_strategy: HashMap<UserComponentId, CloningStrategy>,
    /// Whether a configuration type has a default. Every configuration type
    /// has an entry.
    pub config_id2default_strategy: HashMap<UserComponentId, DefaultStrategy>,
    /// The middleware around each request handler, in order. Every request
    /// handler and fallback has an entry.
    pub handler_id2middleware_ids: HashMap<UserComponentId, Vec<UserComponentId>>,
    /// The error observers of each request handler, in order. Every request
    /// handler and fallback has an entry.
    pub handler_id2error_observer_ids: HashMap<UserComponentId, Vec<UserComponentId>>,
    /// The joined path prefixes of the scopes around each fallback. Every
    /// fallback has an entry.
    pub fallback_id2path_prefix: HashMap<UserComponentId, Option<String>>,
    /// The domain guard in force at each fallback. Every fallback has an
    /// entry.
    pub fallback_id2domain_guard: HashMap<UserComponentId, Option<String>>,
}

impl AuxiliaryData {
    /// The component with this identifier and the metadata registered for it.
    pub open spec fn record(self, id: int) -> ComponentRecord {
        let key = id as usize;
        ComponentRecord {
            component: self.component_interner@[id],
            lifecycle: if self.id2lifecycle@.contains_key(key) {
                Some(self.id2lifecycle@[key])
            } else {
                None
            },
            location: if self.id2locations@.contains_key(key) {
                Some(self.id2locations@[key])
            } else {
                None
            },
            lints: if self.id2lints@.contains_key(key) {
                Some(self.id2lints@[key])
            } else {
                None
            },
            cloning_strategy: if self.id2cloning_strategy@.contains_key(key) {
                Some(self.id2cloning_strategy@[key])
            } else {
                None
            },
            default_strategy: if self.config_id2default_strategy@.contains_key(key) {
                Some(self.config_id2default_strategy@[key])
            } else {
                None
            },
        }
    }

    /// Every component with its metadata, in the order of the identifiers.
    pub open spec fn records(self) -> Seq<ComponentRecord> {
        Seq::new(self.component_interner@.len(), |id: int| self.record(id))
    }

    /// The tables that registrations fill hold no entry for an identifier
    /// that names no component.
    pub open spec fn tidy(self) -> bool {
        let n = self.component_interner@.len();
        &&& forall|key: usize| key >= n ==> !#[trigger] self.id2lifecycle@.contains_key(key)
        &&& forall|key: usize| key >= n ==> !#[trigger] self.id2locations@.contains_key(key)
        &&& forall|key: usize| key >= n ==> !#[trigger] self.id2lints@.contains_key(key)
        &&& forall|key: usize| key >= n ==> !#[trigger] self.id2cloning_strategy@.contains_key(key)
        &&& forall|key: usize| key >= n ==> !#[trigger] self.config_id2default_strategy@.contains_key(key)
    }

    /// Whether a record holds what a registration provides: a lifecycle and a
    /// location; a cloning strategy if and only if the component is a
    /// constructor, a prebuilt type or a configuration type; a default
    /// strategy if and only if it is a configuration type; and a scope among
    /// the first `n_scopes`.
    pub open spec fn is_well_recorded(record: ComponentRecord, n_scopes: int) -> bool {
        &&& record.lifecycle is Some
        &&& record.location is Some
        &&& (record.cloning_strategy is Some <==> record.component.takes_cloning_strategy())
        &&& (record.default_strategy is Some <==> record.component is ConfigType)
        &&& record.component.spec_scope_id() < n_scopes
    }

    /// Every component has what its registration provides, and nothing that
    /// a component of its kind does not have.
    pub open spec fn registered_well(self, n_scopes: int) -> bool {
        forall|id: int|
            0 <= id < self.component_interner@.len() ==> Self::is_well_recorded(#[trigger] self.record(id), n_scopes)
    }

    /// The first table, in the order of the checks, that lacks an entry for
    /// component `id`: lifecycle and location for every component; cloning
    /// strategy for constructors, prebuilt types and configuration types;
    /// default strategy for configuration types; middleware chain and error
    /// observers for request handlers and fallbacks; path prefix and domain
    /// guard for fallbacks.
    pub open spec fn first_missing(self, id: int) -> Option<MissingEntry> {
        let key = id as usize;
        let component = self.component_interner@[id];
        if !self.id2lifecycle@.contains_key(key) {
            Some(MissingEntry::Lifecycle)
        } else if !self.id2locations@.contains_key(key) {
            Some(MissingEntry::Location)
        } else {
            match component {
                UserComponent::Constructor { .. } | UserComponent::PrebuiltType { .. } => {
                    if !self.id2cloning_strategy@.contains_key(key) {
                        Some(MissingEntry::CloningStrategy)
                    } else {
                        None
                    }
                },
                UserComponent::ConfigType { .. } => {
                    if !self.id2cloning_strategy@.contains_key(key) {
                        Some(MissingEntry::CloningStrategy)
                    } else if !self.config_id2default_strategy@.contains_key(key) {
                        Some(MissingEntry::DefaultStrategy)
                    } else {
                        None
                    }
                },
                UserComponent::RequestHandler { .. } => {
                    if !self.handler_id2middleware_ids@.contains_key(key) {
                        Some(MissingEntry::MiddlewareChain)
                    } else if !self.handler_id2error_observer_ids@.contains_key(key) {
                        Some(MissingEntry::ErrorObservers)
                    } else {
                        None
                    }
                },
                UserComponent::Fallback { .. } => {
                    if !self.handler_id2middleware_ids@.contains_key(key) {
                        Some(MissingEntry::MiddlewareChain)
                    } else if !self.handler_id2error_observer_ids@.contains_key(key) {
                        Some(MissingEntry::ErrorObservers)
                    } else if !self.fallback_id2path_prefix@.contains_key(key) {
                        Some(MissingEntry::PathPrefix)
                    } else if !self.fallback_id2domain_guard@.contains_key(key) {
                        Some(MissingEntry::DomainGuard)
                    } else {
                        None
                    }
                },
                UserComponent::ErrorHandler { .. }
                | UserComponent::WrappingMiddleware { .. }
                | UserComponent::PostProcessingMiddleware { .. }
                | UserComponent::PreProcessingMiddleware { .. }
                | UserComponent::ErrorObserver { .. } => None,
            }
        }
    }

    /// Every table has an entry for every component of the kind it is for.
    pub open spec fn invariants_hold(self) -> bool {
        forall|id: int| 0 <= id < self.component_interner@.len() ==> self.first_missing(id) is None
    }

    /// Two tables that agree on the components and on what registrations fill
    /// are registered equally well.
    pub proof fn lemma_registered_well_same(self, other: AuxiliaryData, n_scopes: int)
        requires
            self.registered_well(n_scopes),
            other.component_interner == self.component_interner,
            other.id2lifecycle == self.id2lifecycle,
            other.id2locations == self.id2locations,
            other.id2lints == self.id2lints,
            other.id2cloning_strategy == self.id2cloning_strategy,
            other.config_id2default_strategy == self.config_id2default_strategy,
        ensures
            other.registered_well(n_scopes),
    {
        assert forall|id: int| 0 <= id < other.component_interner@.len() implies Self::is_well_recorded(
            #[trigger] other.record(id),
            n_scopes,
        ) by {
            assert(other.record(id) == self.record(id));
        }
    }

    /// Nothing registered yet.
    pub fn new() -> (aux: Self)
        ensures
            aux.tidy(),
            aux.component_interner@.len() == 0,
            aux.identifiers_interner@.len() == 0,
            aux.annotation_interner@.len() == 0,
            aux.handler_id2middleware_ids@ == Map::<UserComponentId, Vec<UserComponentId>>::empty(),
            aux.handler_id2error_observer_ids@ == Map::<UserComponentId, Vec<UserComponentId>>::empty(),
            aux.fallback_id2path_prefix@ == Map::<UserComponentId, Option<String>>::empty(),
            aux.fallback_id2domain_guard@ == Map::<UserComponentId, Option<String>>::empty(),
    {
        AuxiliaryData {
            component_interner: Vec::new(),
            identifiers_interner: Vec::new(),
            annotation_interner: Vec::new(),
            id2locations: HashMap::new(),
            id2lifecycle: HashMap::new(),
            id2lints: HashMap::new(),
            id2cloning_strategy: HashMap::new(),
            config_id2default_strategy: HashMap::new(),
            handler_id2middleware_ids: HashMap::new(),
            handler_id2error_observer_ids: HashMap::new(),
            fallback_id2path_prefix: HashMap::new(),
            fallback_id2domain_guard: HashMap::new(),
        }
    }

    /// Every component registered so far, in the order of the identifiers.
    pub fn components(&self) -> (all: &Vec<UserComponent>)
        ensures
            all == self.component_interner,
    {
        &self.component_interner
    }

    /// Interns a signature and returns its identifier. Equal signatures are
    /// not shared.
    pub fn intern_identifiers(&mut self, identifiers: RawIdentifiers) -> (id: RawIdentifierId)
        ensures
            id == old(self).identifiers_interner@.len(),
            final(self).identifiers_interner@ == old(self).identifiers_interner@.push(identifiers),
            *final(self) == (AuxiliaryData { identifiers_interner: final(self).identifiers_interner, ..*old(self) }),
    {
        let id = self.identifiers_interner.len();
        self.identifiers_interner.push(identifiers);
        id
    }

    /// Interns a component with the metadata that every component has, and
    /// returns its identifier. Equal components are not shared: each
    /// registration gets an identifier of its own.
    pub fn intern(
        &mut self,
        component: UserComponent,
        lifecycle: Lifecycle,
        location: Location,
        lints: Vec<LintOverride>,
        cloning_strategy: Option<CloningStrategy>,
        default_strategy: Option<DefaultStrategy>,
    ) -> (id: UserComponentId)
        requires
            old(self).tidy(),
            cloning_strategy is Some <==> component.takes_cloning_strategy(),
            default_strategy is Some <==> component is ConfigType,
        ensures
            final(self).tidy(),
            id == old(self).component_interner@.len(),
            forall|i: int| 0 <= i < old(self).component_interner@.len() ==> final(self).record(i) == old(self).record(i),
            forall|n_scopes: int|
                old(self).registered_well(n_scopes) && component.spec_scope_id() < n_scopes
                    ==> #[trigger] final(self).registered_well(n_scopes),
            final(self).records() == old(self).records().push(
                ComponentRecord {
                    component,
                    lifecycle: Some(lifecycle),
                    location: Some(location),
                    lints: if lints@.len() > 0 {
                        Some(lints)
                    } else {
                        None
                    },
                    cloning_strategy,
                    default_strategy,
                },
            ),
            *final(self) == (AuxiliaryData {
                component_interner: final(self).component_interner,
                id2lifecycle: final(self).id2lifecycle,
                id2locations: final(self).id2locations,
                id2lints: final(self).id2lints,
                id2cloning_strategy: final(self).id2cloning_strategy,
                config_id2default_strategy: final(self).config_id2default_strategy,
                ..*old(self)
            }),
    {
        let id = self.component_interner.len();
        self.component_interner.push(component);
        self.id2lifecycle.insert(id, lifecycle);
        self.id2locations.insert(id, location);
        if lints.len() > 0 {
            self.id2lints.insert(id, lints);
        }
        match cloning_strategy {
            Some(strategy) => {
                self.id2cloning_strategy.insert(id, strategy);
            },
            None => {},
        }
        match default_strategy {
            Some(strategy) => {
                self.config_id2default_strategy.insert(id, strategy);
            },
            None => {},
        }
        proof {
            let before = old(self).records();
            let after = self.records();
            assert(after.len() == before.len() + 1);
            assert forall|i: int| 0 <= i < before.len() implies after[i] == before[i] by {
                assert(old(self).component_interner@[i] == self.component_interner@[i]);
            }
            assert forall|i: int| 0 <= i < old(self).component_interner@.len() implies self.record(i) == old(
                self,
            ).record(i) by {
                assert(after[i] == before[i]);
            }
            assert(after =~= before.push(after[id as int]));
            assert forall|n_scopes: int|
                old(self).registered_well(n_scopes) && component.spec_scope_id() < n_scopes implies #[trigger] self.registered_well(
                n_scopes,
            ) by {
                assert forall|i: int| 0 <= i < self.component_interner@.len() implies Self::is_well_recorded(
                    #[trigger] self.record(i),
                    n_scopes,
                ) by {
                    if i < id {
                        assert(self.record(i) == old(self).record(i));
                        assert(Self::is_well_recorded(old(self).record(i), n_scopes));
                    }
                }
            }
        }
        id
    }

    /// The consistency pass: goes through every component and finds every
    /// table complete. An incomplete table is a fault of whoever filled the
    /// tables, not of the user, and the build cannot go on with it: the
    /// caller shows that every table is complete, or tests it with
    /// `first_violation`.
    pub fn check_invariants(&self)
        requires
            self.invariants_hold(),
    {
        let mut id: usize = 0;
        while id < self.component_interner.len()
            invariant
                id <= self.component_interner@.len(),
                self.invariants_hold(),
            decreases self.component_interner@.len() - id,
        {
            match self.missing_entry(id) {
                Some(_) => {
                    assert(self.first_missing(id as int) is None);
                    vstd::pervasive::unreached::<()>()
                },
                None => {},
            }
            id += 1;
        }
    }

    /// The first component that a table lacks an entry for, with the first
    /// table, in the order of the checks, that lacks it; `None` if every table
    /// is complete.
    pub fn first_violation(&self) -> (r: Option<InvariantViolation>)
        ensures
            match r {
                None => self.invariants_hold(),
                Some(violation) => {
                    &&& violation.id < self.component_interner@.len()
                    &&& self.first_missing(violation.id as int) == Some(violation.missing)
                    &&& forall|id: int| 0 <= id < violation.id ==> self.first_missing(id) is None
                },
            },
    {
        let mut id: usize = 0;
        while id < self.component_interner.len()
            invariant
                id <= self.component_interner@.len(),
                forall|k: int| 0 <= k < id ==> self.first_missing(k) is None,
            decreases self.component_interner@.len() - id,
        {
            match self.missing_entry(id) {
                Some(missing) => {
                    return Some(InvariantViolation { id, missing });
                },
                None => {},
            }
            id += 1;
        }
        None
    }

    /// The first table that lacks an entry for component `id`.
    pub fn missing_entry(&self, id: UserComponentId) -> (missing: Option<MissingEntry>)
        requires
            id < self.component_interner@.len(),
        ensures
            missing == self.first_missing(id as int),
    {
        if !self.id2lifecycle.contains_key(&id) {
            return Some(MissingEntry::Lifecycle);
        }
        if !self.id2locations.contains_key(&id) {
            return Some(MissingEntry::Location);
        }
        match &self.component_interner[id] {
            UserComponent::Constructor { .. } | UserComponent::PrebuiltType { .. } => {
                if !self.id2cloning_strategy.contains_key(&id) {
                    return Some(MissingEntry::CloningStrategy);
                }
            },
            UserComponent::ConfigType { .. } => {
                if !self.id2cloning_strategy.contains_key(&id) {
                    return Some(MissingEntry::CloningStrategy);
                }
                if !self.config_id2default_strategy.contains_key(&id) {
                    return Some(MissingEntry::DefaultStrategy);
                }
            },
            UserComponent::RequestHandler { .. } => {
                if !self.handler_id2middleware_ids.contains_key(&id) {
                    return Some(MissingEntry::MiddlewareChain);
                }
                if !self.handler_id2error_observer_ids.contains_key(&id) {
                    return Some(MissingEntry::ErrorObservers);
                }
            },
            UserComponent::Fallback { .. } => {
                if !self.handler_id2middleware_ids.contains_key(&id) {
                    return Some(MissingEntry::MiddlewareChain);
                }
                if !self.handler_id2error_observer_ids.contains_key(&id) {
                    return Some(MissingEntry::ErrorObservers);
                }
                if !self.fallback_id2path_prefix.contains_key(&id) {
                    return Some(MissingEntry::PathPrefix);
                }
                if !self.fallback_id2domain_guard.contains_key(&id) {
                    return Some(MissingEntry::DomainGuard);
                }
            },
            UserComponent::ErrorHandler { .. } => {},
            UserComponent::WrappingMiddleware { .. } => {},
            UserComponent::PostProcessingMiddleware { .. } => {},
            UserComponent::PreProcessingMiddleware { .. } => {},
            UserComponent::ErrorObserver { .. } => {},
        }
        None
    }
}

} // verus!

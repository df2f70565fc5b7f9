//! Every middleware and every error observer is listed once: a handler sees
//! none of them twice.

use vstd::prelude::*;
use crate::annotations::AnnotatedConstructor;
use crate::auxiliary::AuxiliaryData;
use crate::blueprint::{Blueprint, BlueprintItem, Registration, Replay};
use crate::db::{assembled, replay_start, scope_data_attached_at, UserComponentDb};
use crate::diagnostic::ConfigErrorView;
use crate::model::{ScopeId, UserComponentId, ROOT_SCOPE};
use crate::router::RoutingTable;
use crate::scope::{ScopeGraph, ScopeRecord};

verus! {

/// Whether every middleware and every error observer that a scope lists is
/// one of the first `n` components and is listed once, by one scope.
pub open spec fn listed_once(scopes: Seq<ScopeRecord>, n: int) -> bool {
    &&& forall|s: int, k: int|
        0 <= s < scopes.len() && 0 <= k < scopes[s].middleware.len() ==> (#[trigger] scopes[s].middleware[k]) < n
    &&& forall|s: int, k: int|
        0 <= s < scopes.len() && 0 <= k < scopes[s].error_observers.len() ==> (
        #[trigger] scopes[s].error_observers[k]) < n
    &&& forall|s: int, k: int, t: int, j: int|
        #![trigger scopes[s].middleware[k], scopes[t].middleware[j]]
        0 <= s < scopes.len() && 0 <= k < scopes[s].middleware.len() && 0 <= t < scopes.len() && 0 <= j
            < scopes[t].middleware.len() && scopes[s].middleware[k] == scopes[t].middleware[j] ==> s == t && k == j
    &&& forall|s: int, k: int, t: int, j: int|
        #![trigger scopes[s].error_observers[k], scopes[t].error_observers[j]]
        0 <= s < scopes.len() && 0 <= k < scopes[s].error_observers.len() && 0 <= t < scopes.len() && 0 <= j
            < scopes[t].error_observers.len() && scopes[s].error_observers[k] == scopes[t].error_observers[j] ==> s
            == t && k == j
}

/// What holds of a replay state: every scope lists components that were
/// interned, each once, and there are no more components than identifiers.
pub open spec fn replays_well(st: Replay) -> bool {
    listed_once(st.scopes, st.components.len() as int) && st.components.len() <= usize::MAX
}

/// A registration lists its component once.
pub proof fn lemma_registration_lists_once(st: Replay, registration: Registration, scope: ScopeId)
    requires
        replays_well(st),
        scope < st.scopes.len(),
        st.with_registration(registration, scope).components.len() <= usize::MAX,
    ensures
        replays_well(st.with_registration(registration, scope)),
        st.with_registration(registration, scope).scopes.len() == st.scopes.len(),
{
    let id = st.components.len() as usize;
    let after = st.with_registration(registration, scope);
    let n = after.components.len() as int;
    assert forall|s: int, k: int| 0 <= s < after.scopes.len() && 0 <= k < after.scopes[s].middleware.len() implies (
    #[trigger] after.scopes[s].middleware[k]) < n by {
        if s == scope as int && k >= st.scopes[s].middleware.len() {
        } else {
            assert(after.scopes[s].middleware[k] == st.scopes[s].middleware[k]);
        }
    }
    assert forall|s: int, k: int|
        0 <= s < after.scopes.len() && 0 <= k < after.scopes[s].error_observers.len() implies (
    #[trigger] after.scopes[s].error_observers[k]) < n by {
        if s == scope as int && k >= st.scopes[s].error_observers.len() {
        } else {
            assert(after.scopes[s].error_observers[k] == st.scopes[s].error_observers[k]);
        }
    }
    assert forall|s: int, k: int, t: int, j: int|
        #![trigger after.scopes[s].middleware[k], after.scopes[t].middleware[j]]
        0 <= s < after.scopes.len() && 0 <= k < after.scopes[s].middleware.len() && 0 <= t < after.scopes.len() && 0
            <= j < after.scopes[t].middleware.len() && after.scopes[s].middleware[k]
            == after.scopes[t].middleware[j] implies s == t && k == j by {
        let new_s = s == scope as int && k >= st.scopes[s].middleware.len();
        let new_t = t == scope as int && j >= st.scopes[t].middleware.len();
        if !new_s {
            assert(after.scopes[s].middleware[k] == st.scopes[s].middleware[k]);
            assert(st.scopes[s].middleware[k] < id);
        }
        if !new_t {
            assert(after.scopes[t].middleware[j] == st.scopes[t].middleware[j]);
            assert(st.scopes[t].middleware[j] < id);
        }
    }
    assert forall|s: int, k: int, t: int, j: int|
        #![trigger after.scopes[s].error_observers[k], after.scopes[t].error_observers[j]]
        0 <= s < after.scopes.len() && 0 <= k < after.scopes[s].error_observers.len() && 0 <= t
            < after.scopes.len() && 0 <= j < after.scopes[t].error_observers.len()
            && after.scopes[s].error_observers[k] == after.scopes[t].error_observers[j] implies s == t && k == j by {
        let new_s = s == scope as int && k >= st.scopes[s].error_observers.len();
        let new_t = t == scope as int && j >= st.scopes[t].error_observers.len();
        if !new_s {
            assert(after.scopes[s].error_observers[k] == st.scopes[s].error_observers[k]);
            assert(st.scopes[s].error_observers[k] < id);
        }
        if !new_t {
            assert(after.scopes[t].error_observers[j] == st.scopes[t].error_observers[j]);
            assert(st.scopes[t].error_observers[j] < id);
        }
    }
}

/// Opening a scope lists nothing.
pub proof fn lemma_scope_lists_nothing(st: Replay, parent: ScopeId, path_prefix: Option<String>, domain: Option<String>)
    requires
        replays_well(st),
        parent < st.scopes.len(),
    ensures
        replays_well(st.with_scope(parent, path_prefix, domain)),
        st.with_scope(parent, path_prefix, domain).scopes.len() == st.scopes.len() + 1,
        st.with_scope(parent, path_prefix, domain).components == st.components,
{
    let after = st.with_scope(parent, path_prefix, domain);
    assert forall|s: int| 0 <= s < st.scopes.len() implies (#[trigger] after.scopes[s]).middleware
        == st.scopes[s].middleware && after.scopes[s].error_observers == st.scopes[s].error_observers by {}
    assert(after.scopes[st.scopes.len() as int].middleware.len() == 0);
    assert(after.scopes[st.scopes.len() as int].error_observers.len() == 0);
    assert forall|s: int, k: int, t: int, j: int|
        #![trigger after.scopes[s].middleware[k], after.scopes[t].middleware[j]]
        0 <= s < after.scopes.len() && 0 <= k < after.scopes[s].middleware.len() && 0 <= t < after.scopes.len() && 0
            <= j < after.scopes[t].middleware.len() && after.scopes[s].middleware[k]
            == after.scopes[t].middleware[j] implies s == t && k == j by {
        assert(after.scopes[s].middleware == st.scopes[s].middleware);
        assert(after.scopes[t].middleware == st.scopes[t].middleware);
        assert(st.scopes[s].middleware[k] == st.scopes[t].middleware[j]);
    }
    assert forall|s: int, k: int, t: int, j: int|
        #![trigger after.scopes[s].error_observers[k], after.scopes[t].error_observers[j]]
        0 <= s < after.scopes.len() && 0 <= k < after.scopes[s].error_observers.len() && 0 <= t
            < after.scopes.len() && 0 <= j < after.scopes[t].error_observers.len()
            && after.scopes[s].error_observers[k] == after.scopes[t].error_observers[j] implies s == t && k == j by {
        assert(after.scopes[s].error_observers == st.scopes[s].error_observers);
        assert(after.scopes[t].error_observers == st.scopes[t].error_observers);
        assert(st.scopes[s].error_observers[k] == st.scopes[t].error_observers[j]);
    }
    assert forall|s: int, k: int| 0 <= s < after.scopes.len() && 0 <= k < after.scopes[s].middleware.len() implies (
    #[trigger] after.scopes[s].middleware[k]) < after.components.len() by {
        assert(after.scopes[s].middleware[k] == st.scopes[s].middleware[k]);
    }
    assert forall|s: int, k: int|
        0 <= s < after.scopes.len() && 0 <= k < after.scopes[s].error_observers.len() implies (
    #[trigger] after.scopes[s].error_observers[k]) < after.components.len() by {
        assert(after.scopes[s].error_observers[k] == st.scopes[s].error_observers[k]);
    }
}

impl Replay {
    /// A replay takes no component and no scope away.
    pub proof fn lemma_items_grow(self, items: Seq<BlueprintItem>, i: int, scope: ScopeId)
        requires
            scope < self.scopes.len(),
        ensures
            self.components.len() <= self.with_items(items, i, scope).components.len(),
            self.scopes.len() <= self.with_items(items, i, scope).scopes.len(),
        decreases items, items.len() - i,
    {
        if 0 <= i < items.len() {
            match items[i] {
                BlueprintItem::Component(registration) => {
                    let next = self.with_registration(registration, scope);
                    assert(next.scopes.len() == self.scopes.len());
                    next.lemma_items_grow(items, i + 1, scope);
                },
                BlueprintItem::Nested(nested) => {
                    let opened = self.with_scope(scope, nested.path_prefix, nested.domain);
                    let inner = self.scopes.len() as usize;
                    let next = opened.with_blueprint(nested.blueprint, inner);
                    opened.lemma_blueprint_grows(nested.blueprint, inner);
                    next.lemma_items_grow(items, i + 1, scope);
                },
            }
        }
    }

    /// A replay takes no component and no scope away.
    pub proof fn lemma_blueprint_grows(self, blueprint: Blueprint, scope: ScopeId)
        requires
            scope < self.scopes.len(),
        ensures
            self.components.len() <= self.with_blueprint(blueprint, scope).components.len(),
            self.scopes.len() <= self.with_blueprint(blueprint, scope).scopes.len(),
        decreases blueprint,
    {
        self.lemma_items_grow(blueprint.items@, 0, scope);
    }

    /// Replaying the items of a blueprint lists every middleware and every
    /// error observer once.
    pub proof fn lemma_items_list_once(self, items: Seq<BlueprintItem>, i: int, scope: ScopeId)
        requires
            replays_well(self),
            scope < self.scopes.len(),
            self.with_items(items, i, scope).components.len() <= usize::MAX,
            self.with_items(items, i, scope).scopes.len() <= usize::MAX,
        ensures
            replays_well(self.with_items(items, i, scope)),
        decreases items, items.len() - i,
    {
        if 0 <= i < items.len() {
            self.lemma_items_grow(items, i, scope);
            match items[i] {
                BlueprintItem::Component(registration) => {
                    let next = self.with_registration(registration, scope);
                    assert(next.scopes.len() == self.scopes.len());
                    next.lemma_items_grow(items, i + 1, scope);
                    lemma_registration_lists_once(self, registration, scope);
                    next.lemma_items_list_once(items, i + 1, scope);
                },
                BlueprintItem::Nested(nested) => {
                    let opened = self.with_scope(scope, nested.path_prefix, nested.domain);
                    let inner = self.scopes.len() as usize;
                    let next = opened.with_blueprint(nested.blueprint, inner);
                    opened.lemma_blueprint_grows(nested.blueprint, inner);
                    next.lemma_items_grow(items, i + 1, scope);
                    lemma_scope_lists_nothing(self, scope, nested.path_prefix, nested.domain);
                    opened.lemma_blueprint_lists_once(nested.blueprint, inner);
                    next.lemma_items_list_once(items, i + 1, scope);
                },
            }
        }
    }

    /// Replaying a blueprint lists every middleware and every error observer
    /// once.
    pub proof fn lemma_blueprint_lists_once(self, blueprint: Blueprint, scope: ScopeId)
        requires
            replays_well(self),
            scope < self.scopes.len(),
            self.with_blueprint(blueprint, scope).components.len() <= usize::MAX,
            self.with_blueprint(blueprint, scope).scopes.len() <= usize::MAX,
        ensures
            replays_well(self.with_blueprint(blueprint, scope)),
        decreases blueprint,
    {
        self.lemma_items_list_once(blueprint.items@, 0, scope);
    }
}

impl ScopeGraph {
    /// What a scope sees is listed by that scope or by one before it.
    pub proof fn lemma_visible_is_listed(self, scope: ScopeId, i: int)
        requires
            self.wf(),
            self.has(scope),
            0 <= i < self.visible_middleware(scope).len(),
        ensures
            exists|s: int, k: int|
                0 <= s <= scope && 0 <= k < self.records()[s].middleware.len() && #[trigger] self.records()[s].middleware[k]
                    == self.visible_middleware(scope)[i],
        decreases scope,
    {
        let inherited = match self.parent_of(scope) {
            Some(p) => self.visible_middleware(p),
            None => Seq::<UserComponentId>::empty(),
        };
        if i < inherited.len() {
            let p = self.parent_of(scope)->0;
            self.lemma_visible_is_listed(p, i);
            let (s, k) = choose|s: int, k: int|
                0 <= s <= p && 0 <= k < self.records()[s].middleware.len() && #[trigger] self.records()[s].middleware[k]
                    == self.visible_middleware(p)[i];
            assert(self.records()[s].middleware[k] == self.visible_middleware(scope)[i]);
        } else {
            let k = i - inherited.len();
            assert(self.records()[scope as int].middleware[k] == self.visible_middleware(scope)[i]);
        }
    }

    /// A scope sees no middleware twice, where every middleware is listed
    /// once.
    pub proof fn lemma_visible_middleware_is_distinct(self, scope: ScopeId, n: int)
        requires
            self.wf(),
            self.has(scope),
            listed_once(self.records(), n),
        ensures
            self.visible_middleware(scope).no_duplicates(),
        decreases scope,
    {
        let seen = self.visible_middleware(scope);
        let records = self.records();
        let inherited = match self.parent_of(scope) {
            Some(p) => self.visible_middleware(p),
            None => Seq::<UserComponentId>::empty(),
        };
        let own = self.nodes@[scope as int].middleware@;
        assert(own == records[scope as int].middleware);
        if self.parent_of(scope) is Some {
            self.lemma_visible_middleware_is_distinct(self.parent_of(scope)->0, n);
        }
        assert forall|i: int, j: int| 0 <= i < j < seen.len() implies seen[i] != seen[j] by {
            if j < inherited.len() {
            } else if i >= inherited.len() {
                let a = i - inherited.len();
                let b = j - inherited.len();
                assert(seen[i] == records[scope as int].middleware[a]);
                assert(seen[j] == records[scope as int].middleware[b]);
            } else {
                let p = self.parent_of(scope)->0;
                self.lemma_visible_is_listed(p, i);
                let (s, k) = choose|s: int, k: int|
                    0 <= s <= p && 0 <= k < self.records()[s].middleware.len() && #[trigger] self.records()[s].middleware[k]
                        == self.visible_middleware(p)[i];
                let b = j - inherited.len();
                assert(seen[i] == records[s].middleware[k]);
                assert(seen[j] == records[scope as int].middleware[b]);
            }
        }
    }

    /// An error observer that a scope sees is listed by that scope or by one before it.
    pub proof fn lemma_visible_observer_is_listed(self, scope: ScopeId, i: int)
        requires
            self.wf(),
            self.has(scope),
            0 <= i < self.visible_error_observers(scope).len(),
        ensures
            exists|s: int, k: int|
                0 <= s <= scope && 0 <= k < self.records()[s].error_observers.len() && #[trigger] self.records()[s].error_observers[k]
                    == self.visible_error_observers(scope)[i],
        decreases scope,
    {
        let inherited = match self.parent_of(scope) {
            Some(p) => self.visible_error_observers(p),
            None => Seq::<UserComponentId>::empty(),
        };
        if i < inherited.len() {
            let p = self.parent_of(scope)->0;
            self.lemma_visible_observer_is_listed(p, i);
            let (s, k) = choose|s: int, k: int|
                0 <= s <= p && 0 <= k < self.records()[s].error_observers.len() && #[trigger] self.records()[s].error_observers[k]
                    == self.visible_error_observers(p)[i];
            assert(self.records()[s].error_observers[k] == self.visible_error_observers(scope)[i]);
        } else {
            let k = i - inherited.len();
            assert(self.records()[scope as int].error_observers[k] == self.visible_error_observers(scope)[i]);
        }
    }

    /// A scope sees no error observer twice, where every error observer is listed
    /// once.
    pub proof fn lemma_visible_observers_are_distinct(self, scope: ScopeId, n: int)
        requires
            self.wf(),
            self.has(scope),
            listed_once(self.records(), n),
        ensures
            self.visible_error_observers(scope).no_duplicates(),
        decreases scope,
    {
        let seen = self.visible_error_observers(scope);
        let records = self.records();
        let inherited = match self.parent_of(scope) {
            Some(p) => self.visible_error_observers(p),
            None => Seq::<UserComponentId>::empty(),
        };
        let own = self.nodes@[scope as int].error_observers@;
        assert(own == records[scope as int].error_observers);
        if self.parent_of(scope) is Some {
            self.lemma_visible_observers_are_distinct(self.parent_of(scope)->0, n);
        }
        assert forall|i: int, j: int| 0 <= i < j < seen.len() implies seen[i] != seen[j] by {
            if j < inherited.len() {
            } else if i >= inherited.len() {
                let a = i - inherited.len();
                let b = j - inherited.len();
                assert(seen[i] == records[scope as int].error_observers[a]);
                assert(seen[j] == records[scope as int].error_observers[b]);
            } else {
                let p = self.parent_of(scope)->0;
                self.lemma_visible_observer_is_listed(p, i);
                let (s, k) = choose|s: int, k: int|
                    0 <= s <= p && 0 <= k < self.records()[s].error_observers.len() && #[trigger] self.records()[s].error_observers[k]
                        == self.visible_error_observers(p)[i];
                let b = j - inherited.len();
                assert(seen[i] == records[s].error_observers[k]);
                assert(seen[j] == records[scope as int].error_observers[b]);
            }
        }
    }
}

/// After the registrations were processed, every scope lists interned
/// components, each once.
pub proof fn lemma_processing_lists_once(
    blueprint: Blueprint,
    annotated: Seq<AnnotatedConstructor>,
    reported: Seq<ConfigErrorView>,
    aux: AuxiliaryData,
    scopes: ScopeGraph,
    table: RoutingTable,
    failures: Seq<ConfigErrorView>,
)
    requires
        assembled(blueprint, annotated, reported, aux, scopes, table, failures),
    ensures
        listed_once(scopes.records(), aux.component_interner@.len() as int),
{
    let start = replay_start(reported);
    let replayed = start.with_blueprint(blueprint, ROOT_SCOPE);
    assert(replays_well(start));
    assert(replayed.components.len() <= aux.component_interner.len());
    assert(replayed.scopes.len() == scopes.nodes.len());
    start.lemma_blueprint_lists_once(blueprint, ROOT_SCOPE);
}

/// A request handler and a fallback are given no middleware and no error
/// observer twice.
pub proof fn lemma_handler_gets_each_once(db: UserComponentDb, id: UserComponentId)
    requires
        db.wf(),
        db.has(id),
        db.aux.component_interner@[id as int] is RequestHandler || db.aux.component_interner@[id as int] is Fallback,
    ensures
        db.aux.handler_id2middleware_ids@.contains_key(id),
        db.aux.handler_id2middleware_ids@[id]@.no_duplicates(),
        db.aux.handler_id2error_observer_ids@.contains_key(id),
        db.aux.handler_id2error_observer_ids@[id]@.no_duplicates(),
{
    let n = db.aux.component_interner@.len() as int;
    let scope = db.aux.component_interner@[id as int].spec_scope_id();
    if db.scope_graph.has(scope) {
        db.scope_graph.lemma_visible_middleware_is_distinct(scope, n);
        db.scope_graph.lemma_visible_observers_are_distinct(scope, n);
    }
    assert(scope_data_attached_at(db.aux, db.scope_graph, id as int));
}

} // verus!

//! From the components as they were registered to the components as the
//! resolver sees them: each with its signature, its metadata and the
//! components that are tied to it.

use vstd::prelude::*;
use crate::auxiliary::AuxiliaryData;
use crate::component::{RawIdentifiers, UserComponent};
use crate::db::UserComponentDb;
use crate::model::{Input, Lifecycle, TypeId, UserComponentId, UserComponentSource};
use crate::resolver::{Component, ComponentDb};

verus! {

broadcast use vstd::std_specs::hash::group_hash_axioms;

/// The signature that component `id` was registered with: that of its
/// registration, or of its annotation.
pub open spec fn signature_of(aux: AuxiliaryData, id: int) -> Option<RawIdentifiers> {
    match aux.component_interner@[id] {
        UserComponent::Constructor { source: UserComponentSource::Annotation(annotation_id) } => {
            if annotation_id < aux.annotation_interner@.len() {
                Some(aux.annotation_interner@[annotation_id as int].signature)
            } else {
                None
            }
        },
        component => match component.spec_bp_source() {
            Some(source) => if source.identifiers_id < aux.identifiers_interner@.len() {
                Some(aux.identifiers_interner@[source.identifiers_id as int])
            } else {
                None
            },
            None => None,
        },
    }
}

/// The first error handler, among the first `n` components, that was
/// registered for `fallible`.
pub open spec fn error_handler_of(components: Seq<UserComponent>, fallible: UserComponentId, n: int) -> Option<
    UserComponentId,
>
    decreases n,
{
    if n <= 0 {
        None
    } else {
        match error_handler_of(components, fallible, n - 1) {
            Some(handler) => Some(handler),
            None => if n <= components.len() && components[n - 1] is ErrorHandler && components[n
                - 1]->fallible_id == fallible {
                Some((n - 1) as usize)
            } else {
                None
            },
        }
    }
}

/// Whether `resolved` is component `id` as the resolver sees it.
pub open spec fn is_resolved(aux: AuxiliaryData, id: int, resolved: Component) -> bool {
    let key = id as usize;
    let record = aux.record(id);
    let signature = signature_of(aux, id);
    &&& resolved.kind == record.component.spec_kind()
    &&& resolved.scope_id == record.component.spec_scope_id()
    &&& resolved.lifecycle == match record.lifecycle {
        Some(lifecycle) => lifecycle,
        None => Lifecycle::RequestScoped,
    }
    &&& resolved.cloning_strategy == record.cloning_strategy
    &&& resolved.inputs@ == match signature {
        Some(s) => s.inputs@,
        None => Seq::<Input>::empty(),
    }
    &&& resolved.output == match signature {
        Some(s) => s.output,
        None => None::<TypeId>,
    }
    &&& resolved.error == match signature {
        Some(s) => s.error,
        None => None::<TypeId>,
    }
    &&& resolved.error_handler == error_handler_of(aux.component_interner@, key, aux.component_interner@.len() as int)
    &&& resolved.middleware@ == if aux.handler_id2middleware_ids@.contains_key(key) {
        aux.handler_id2middleware_ids@[key]@
    } else {
        Seq::<UserComponentId>::empty()
    }
    &&& resolved.error_observers@ == if aux.handler_id2error_observer_ids@.contains_key(key) {
        aux.handler_id2error_observer_ids@[key]@
    } else {
        Seq::<UserComponentId>::empty()
    }
}

/// A copy of a list of identifiers.
pub fn copy_ids(ids: &Vec<UserComponentId>) -> (copy: Vec<UserComponentId>)
    ensures
        copy@ == ids@,
{
    let mut copy: Vec<UserComponentId> = Vec::new();
    let mut i: usize = 0;
    while i < ids.len()
        invariant
            i <= ids@.len(),
            copy@ == ids@.take(i as int),
        decreases ids@.len() - i,
    {
        copy.push(ids[i]);
        i += 1;
        assert(copy@ =~= ids@.take(i as int));
    }
    assert(ids@.take(i as int) =~= ids@);
    copy
}

/// A copy of a list of inputs.
pub fn copy_inputs(inputs: &Vec<Input>) -> (copy: Vec<Input>)
    ensures
        copy@ == inputs@,
{
    let mut copy: Vec<Input> = Vec::new();
    let mut i: usize = 0;
    while i < inputs.len()
        invariant
            i <= inputs@.len(),
            copy@ == inputs@.take(i as int),
        decreases inputs@.len() - i,
    {
        copy.push(inputs[i]);
        i += 1;
        assert(copy@ =~= inputs@.take(i as int));
    }
    assert(inputs@.take(i as int) =~= inputs@);
    copy
}

/// The first error handler registered for `fallible`.
pub fn find_error_handler(components: &Vec<UserComponent>, fallible: UserComponentId) -> (handler: Option<
    UserComponentId,
>)
    ensures
        handler == error_handler_of(components@, fallible, components@.len() as int),
{
    let mut n: usize = 0;
    while n < components.len()
        invariant
            n <= components@.len(),
            error_handler_of(components@, fallible, n as int) is None,
        decreases components@.len() - n,
    {
        let found = match &components[n] {
            UserComponent::ErrorHandler { fallible_id, .. } => *fallible_id == fallible,
            _ => false,
        };
        if found {
            proof {
                lemma_error_handler_stays(components@, fallible, n as int + 1, components@.len() as int);
            }
            return Some(n);
        }
        n += 1;
    }
    None
}

/// Once an error handler is found among the first `n` components, it is the
/// one found among more.
pub proof fn lemma_error_handler_stays(components: Seq<UserComponent>, fallible: UserComponentId, n: int, m: int)
    requires
        0 <= n <= m,
        error_handler_of(components, fallible, n) is Some,
    ensures
        error_handler_of(components, fallible, m) == error_handler_of(components, fallible, n),
    decreases m - n,
{
    if n < m {
        lemma_error_handler_stays(components, fallible, n, m - 1);
    }
}

/// The signature that component `id` was registered with.
pub fn find_signature(aux: &AuxiliaryData, id: UserComponentId) -> (signature: Option<&RawIdentifiers>)
    requires
        id < aux.component_interner@.len(),
    ensures
        match signature {
            Some(s) => signature_of(*aux, id as int) == Some(*s),
            None => signature_of(*aux, id as int) is None,
        },
{
    let component = &aux.component_interner[id];
    match component {
        UserComponent::Constructor { source: UserComponentSource::Annotation(annotation_id) } => {
            if *annotation_id < aux.annotation_interner.len() {
                Some(&aux.annotation_interner[*annotation_id].signature)
            } else {
                None
            }
        },
        _ => match component.bp_source() {
            Some(source) => {
                if source.identifiers_id < aux.identifiers_interner.len() {
                    Some(&aux.identifiers_interner[source.identifiers_id])
                } else {
                    None
                }
            },
            None => None,
        },
    }
}

/// Component `id` as the resolver sees it.
pub fn resolve_component(aux: &AuxiliaryData, id: UserComponentId) -> (resolved: Component)
    requires
        id < aux.component_interner@.len(),
    ensures
        is_resolved(*aux, id as int, resolved),
{
    let component = &aux.component_interner[id];
    let lifecycle = match aux.id2lifecycle.get(&id) {
        Some(lifecycle) => *lifecycle,
        None => Lifecycle::RequestScoped,
    };
    let cloning_strategy = match aux.id2cloning_strategy.get(&id) {
        Some(strategy) => Some(*strategy),
        None => None,
    };
    let signature = find_signature(aux, id);
    let inputs = match signature {
        Some(s) => copy_inputs(&s.inputs),
        None => Vec::new(),
    };
    let output = match signature {
        Some(s) => s.output,
        None => None,
    };
    let error = match signature {
        Some(s) => s.error,
        None => None,
    };
    let middleware = match aux.handler_id2middleware_ids.get(&id) {
        Some(ids) => copy_ids(ids),
        None => Vec::new(),
    };
    let error_observers = match aux.handler_id2error_observer_ids.get(&id) {
        Some(ids) => copy_ids(ids),
        None => Vec::new(),
    };
    Component {
        kind: component.kind(),
        scope_id: component.scope_id(),
        lifecycle,
        cloning_strategy,
        inputs,
        output,
        error,
        error_handler: find_error_handler(&aux.component_interner, id),
        middleware,
        error_observers,
    }
}

impl ComponentDb {
    /// The components of `db` as the resolver sees them, in its scopes, with
    /// the types that the framework provides. The tables of `db` are handed
    /// back for what the resolver has no use for.
    pub fn build(db: UserComponentDb, framework_types: Vec<TypeId>) -> (r: (ComponentDb, AuxiliaryData))
        requires
            db.scope_graph.wf(),
        ensures
            r.0.wf(),
            r.0.scope_graph == db.scope_graph,
            r.0.framework_types == framework_types,
            r.1 == db.aux,
            r.0.components@.len() == db.aux.component_interner@.len(),
            forall|id: int| 0 <= id < r.0.components@.len() ==> is_resolved(db.aux, id, #[trigger] r.0.components@[id]),
    {
        let UserComponentDb { aux, scope_graph } = db;
        let mut components: Vec<Component> = Vec::new();
        let mut id: usize = 0;
        while id < aux.component_interner.len()
            invariant
                id <= aux.component_interner@.len(),
                components@.len() == id,
                forall|k: int| 0 <= k < id ==> is_resolved(aux, k, #[trigger] components@[k]),
            decreases aux.component_interner@.len() - id,
        {
            components.push(resolve_component(&aux, id));
            id += 1;
        }
        (ComponentDb { components, scope_graph, framework_types }, aux)
    }
}

} // verus!

//! Annotated components: constructors that are registered by an annotation
//! on the item itself, and the packages that may hold such items.

use vstd::prelude::*;
use crate::auxiliary::{AuxiliaryData, ComponentRecord, Location};
use crate::component::{RawIdentifiers, UserComponent};
use crate::model::{CloningStrategy, ConstructorProperties, UserComponentSource};

verus! {

/// What is known of a package of the dependency graph.
#[derive(Debug, Clone, Copy, PartialEq, Eq, Hash, Structural)]
pub struct PackageFacts {
    /// Whether the package depends directly on the framework.
    pub depends_on_framework: bool,
    /// Whether the package is a member of the workspace.
    pub in_workspace: bool,
    /// Whether the package is the server SDK itself.
    pub is_server_sdk: bool,
    /// Whether the package depends on the server SDK; `None` where that could
    /// not be found out.
    pub depends_on_server_sdk: Option<bool>,
}

impl PackageFacts {
    /// Whether the package may hold annotated components that are in scope.
    /// It must depend on the framework, where the annotations are defined. A
    /// member of the workspace must also be other than the server SDK and
    /// must not depend on it; where that is not known, it is taken to depend
    /// on it.
    pub open spec fn in_scope(self) -> bool {
        self.depends_on_framework && (self.in_workspace ==> !self.is_server_sdk && self.depends_on_server_sdk
            == Some(false))
    }

    pub fn is_in_scope(&self) -> (r: bool)
        ensures
            r == self.in_scope(),
    {
        let mut in_scope = self.depends_on_framework;
        if self.in_workspace {
            let depends = match self.depends_on_server_sdk {
                Some(known) => known,
                None => true,
            };
            in_scope = in_scope && !self.is_server_sdk && !depends;
        }
        in_scope
    }
}

/// The packages among the first `n` that are in scope, by their index.
pub open spec fn sources_upto(packages: Seq<PackageFacts>, n: int) -> Seq<usize>
    decreases n,
{
    if n <= 0 {
        Seq::empty()
    } else if n <= packages.len() && packages[n - 1].in_scope() {
        sources_upto(packages, n - 1).push((n - 1) as usize)
    } else {
        sources_upto(packages, n - 1)
    }
}

/// The packages that may hold annotated components in scope for the
/// blueprint, by their index, in order.
pub fn annotation_sources(packages: &Vec<PackageFacts>) -> (sources: Vec<usize>)
    ensures
        sources@ == sources_upto(packages@, packages@.len() as int),
{
    let mut sources: Vec<usize> = Vec::new();
    let mut i: usize = 0;
    while i < packages.len()
        invariant
            i <= packages@.len(),
            sources@ == sources_upto(packages@, i as int),
        decreases packages@.len() - i,
    {
        if packages[i].is_in_scope() {
            sources.push(i);
        }
        i += 1;
    }
    sources
}

/// What it takes to find an annotated item in the documentation of its
/// package, and the signature that the documentation gives for it.
#[derive(Debug, Clone, PartialEq, Eq, Hash)]
pub struct AnnotationIdentifiers {
    /// The package that defines the annotated item.
    pub package_id: u64,
    /// The identifier of the item within that package.
    pub item_id: u64,
    pub signature: RawIdentifiers,
}

/// A constructor registered by an annotation.
#[derive(Debug, Clone, PartialEq, Eq)]
pub struct AnnotatedConstructor {
    pub properties: ConstructorProperties,
    pub identifiers: AnnotationIdentifiers,
    pub location: Location,
}

/// The record of the `k`-th annotated constructor when it is the
/// `annotation_id`-th annotated item: a constructor of the root scope, never
/// cloned unless the annotation says otherwise.
pub open spec fn annotated_record(annotated: AnnotatedConstructor, annotation_id: int) -> ComponentRecord {
    ComponentRecord {
        component: UserComponent::Constructor { source: UserComponentSource::Annotation(annotation_id as usize) },
        lifecycle: Some(annotated.properties.lifecycle),
        location: Some(annotated.location),
        lints: None,
        cloning_strategy: Some(
            match annotated.properties.cloning_strategy {
                Some(chosen) => chosen,
                None => CloningStrategy::NeverClone,
            },
        ),
        default_strategy: None,
    }
}

/// Interns every annotated constructor, in order, after the components
/// registered so far. Its identifiers are interned among those of annotated
/// items.
pub fn process_annotations(aux: &mut AuxiliaryData, annotated: Vec<AnnotatedConstructor>)
    requires
        old(aux).tidy(),
    ensures
        final(aux).tidy(),
        forall|n_scopes: int|
            n_scopes >= 1 && old(aux).registered_well(n_scopes) ==> #[trigger] final(aux).registered_well(n_scopes),
        final(aux).records().len() == old(aux).records().len() + annotated@.len(),
        forall|i: int| 0 <= i < old(aux).records().len() ==> final(aux).records()[i] == old(aux).records()[i],
        forall|i: int|
            old(aux).records().len() <= i < final(aux).records().len() ==> #[trigger] final(aux).records()[i]
                == annotated_record(
                annotated@[i - old(aux).records().len()],
                old(aux).annotation_interner@.len() + i - old(aux).records().len(),
            ),
        final(aux).annotation_interner@.len() == old(aux).annotation_interner@.len() + annotated@.len(),
        forall|i: int|
            0 <= i < old(aux).annotation_interner@.len() ==> final(aux).annotation_interner@[i] == old(
                aux,
            ).annotation_interner@[i],
        forall|i: int|
            old(aux).annotation_interner@.len() <= i < final(aux).annotation_interner@.len()
                ==> #[trigger] final(aux).annotation_interner@[i] == annotated@[i - old(
                aux,
            ).annotation_interner@.len()].identifiers,
        final(aux).identifiers_interner == old(aux).identifiers_interner,
        final(aux).handler_id2middleware_ids == old(aux).handler_id2middleware_ids,
        final(aux).handler_id2error_observer_ids == old(aux).handler_id2error_observer_ids,
        final(aux).fallback_id2path_prefix == old(aux).fallback_id2path_prefix,
        final(aux).fallback_id2domain_guard == old(aux).fallback_id2domain_guard,
{
    let ghost all = annotated@;
    let ghost base = old(aux).records().len();
    let ghost first = old(aux).annotation_interner@.len();
    let mut rest = annotated;
    let ghost mut k: int = 0;
    assert(all.skip(0) =~= all);
    while rest.len() > 0
        invariant
            0 <= k <= all.len(),
            rest@ == all.skip(k),
            base == old(aux).records().len(),
            first == old(aux).annotation_interner@.len(),
            aux.tidy(),
            forall|n_scopes: int|
                n_scopes >= 1 && old(aux).registered_well(n_scopes) ==> #[trigger] aux.registered_well(n_scopes),
            aux.records().len() == base + k,
            forall|i: int| 0 <= i < base ==> aux.records()[i] == old(aux).records()[i],
            forall|i: int|
                base <= i < base + k ==> #[trigger] aux.records()[i] == annotated_record(all[i - base], first + i - base),
            aux.annotation_interner@.len() == first + k,
            forall|i: int| 0 <= i < first ==> aux.annotation_interner@[i] == old(aux).annotation_interner@[i],
            forall|i: int|
                first <= i < first + k ==> #[trigger] aux.annotation_interner@[i] == all[i - first].identifiers,
            aux.identifiers_interner == old(aux).identifiers_interner,
            aux.handler_id2middleware_ids == old(aux).handler_id2middleware_ids,
            aux.handler_id2error_observer_ids == old(aux).handler_id2error_observer_ids,
            aux.fallback_id2path_prefix == old(aux).fallback_id2path_prefix,
            aux.fallback_id2domain_guard == old(aux).fallback_id2domain_guard,
        decreases rest@.len(),
    {
        let item = rest.remove(0);
        assert(item == all[k]);
        assert(rest@ =~= all.skip(k + 1));
        let AnnotatedConstructor { properties, identifiers, location } = item;
        let annotation_id = aux.annotation_interner.len();
        let ghost before = aux.records();
        let ghost earlier = *aux;
        aux.annotation_interner.push(identifiers);
        assert(aux.records() =~= before);
        proof {
            assert forall|n_scopes: int| n_scopes >= 1 && old(aux).registered_well(n_scopes) implies aux.registered_well(
                n_scopes,
            ) by {
                earlier.lemma_registered_well_same(*aux, n_scopes);
            }
        }
        let cloning_strategy = match properties.cloning_strategy {
            Some(chosen) => chosen,
            None => CloningStrategy::NeverClone,
        };
        aux.intern(
            UserComponent::Constructor { source: UserComponentSource::Annotation(annotation_id) },
            properties.lifecycle,
            location,
            Vec::new(),
            Some(cloning_strategy),
            None,
        );
        proof {
            k = k + 1;
        }
    }
}

} // verus!

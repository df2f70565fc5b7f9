//! Import paths are resolved before anything else, all at once, so that the
//! packages whose documentation is needed are known early. The parser is
//! outside this library: it is handed one query for each registration and
//! hands back what it made of each.

use std::collections::HashMap;
use vstd::prelude::*;
use crate::auxiliary::AuxiliaryData;
use crate::component::{path_kind, ParseError, PathKind};
use crate::diagnostic::{ConfigErrorView, DiagnosticSink, Failure};
use crate::model::{ComponentKind, RawIdentifierId, UserComponentId};

verus! {

broadcast use vstd::std_specs::hash::group_hash_axioms;

/// The identifier of a resolved path.
pub type ResolvedPathId = u64;

/// What the parser is asked for one component: which signature holds the
/// import path, and what the path names.
#[derive(Debug, Clone, Copy, PartialEq, Eq, Hash, Structural)]
pub struct PathQuery {
    pub identifiers_id: RawIdentifierId,
    pub kind: PathKind,
}

/// What the import path of a component of this kind names.
pub open spec fn spec_path_kind(kind: ComponentKind) -> PathKind {
    if kind == ComponentKind::PrebuiltType || kind == ComponentKind::ConfigType {
        PathKind::Type
    } else {
        PathKind::Callable
    }
}

/// What the parser is asked for component `id`: nothing for an annotated
/// component, which has no import path.
pub open spec fn query_of(db: AuxiliaryData, id: int) -> Option<PathQuery> {
    match db.component_interner@[id].spec_bp_source() {
        Some(source) => Some(
            PathQuery {
                identifiers_id: source.identifiers_id,
                kind: spec_path_kind(db.component_interner@[id].spec_kind()),
            },
        ),
        None => None,
    }
}

/// What the parser is asked, component by component.
pub fn path_queries(db: &AuxiliaryData) -> (queries: Vec<Option<PathQuery>>)
    ensures
        queries@.len() == db.component_interner@.len(),
        forall|id: int| 0 <= id < queries@.len() ==> #[trigger] queries@[id] == query_of(*db, id),
{
    let mut queries: Vec<Option<PathQuery>> = Vec::new();
    let mut id: usize = 0;
    while id < db.component_interner.len()
        invariant
            id <= db.component_interner@.len(),
            queries@.len() == id,
            forall|k: int| 0 <= k < id ==> #[trigger] queries@[k] == query_of(*db, k),
        decreases db.component_interner@.len() - id,
    {
        let component = &db.component_interner[id];
        let query = match component.bp_source() {
            Some(source) => Some(PathQuery { identifiers_id: source.identifiers_id, kind: path_kind(component.kind()) }),
            None => None,
        };
        queries.push(query);
        id += 1;
    }
    queries
}

/// Whether the answer of the parser for component `id` counts: the component
/// has an import path and the parser answered for it.
pub open spec fn is_answered(db: AuxiliaryData, parsed: Seq<Result<ResolvedPathId, ParseError>>, id: int) -> bool {
    0 <= id < db.component_interner@.len() && id < parsed.len() && db.component_interner@[id].spec_bp_source() is Some
}

/// The resolved path of each of the first `n` components whose import path
/// the parser resolved.
pub open spec fn resolved_upto(
    db: AuxiliaryData,
    parsed: Seq<Result<ResolvedPathId, ParseError>>,
    n: int,
) -> Map<UserComponentId, ResolvedPathId>
    decreases n,
{
    if n <= 0 {
        Map::empty()
    } else {
        let rest = resolved_upto(db, parsed, n - 1);
        if is_answered(db, parsed, n - 1) && parsed[n - 1] is Ok {
            rest.insert((n - 1) as usize, parsed[n - 1]->Ok_0)
        } else {
            rest
        }
    }
}

/// One failure for each of the first `n` components whose import path the
/// parser refused, in order.
pub open spec fn refused_upto(db: AuxiliaryData, parsed: Seq<Result<ResolvedPathId, ParseError>>, n: int) -> Seq<
    ConfigErrorView,
>
    decreases n,
{
    if n <= 0 {
        Seq::empty()
    } else {
        let rest = refused_upto(db, parsed, n - 1);
        if is_answered(db, parsed, n - 1) && parsed[n - 1] is Err {
            rest.push(Failure::InvalidImportPath { component: (n - 1) as usize, error: parsed[n - 1]->Err_0 })
        } else {
            rest
        }
    }
}

/// Maps every component to its resolved path, given what the parser made of
/// the import path of each component: `parsed[id]` is its answer to the query
/// for component `id`. A path that the parser refused is pushed to the sink as
/// a failure of its component, and the others are still resolved.
pub fn resolve_raw_identifiers(
    db: &AuxiliaryData,
    parsed: &Vec<Result<ResolvedPathId, ParseError>>,
    diagnostics: &mut DiagnosticSink,
) -> (paths: HashMap<UserComponentId, ResolvedPathId>)
    ensures
        paths@ == resolved_upto(*db, parsed@, db.component_interner@.len() as int),
        final(diagnostics)@ == old(diagnostics)@ + refused_upto(*db, parsed@, db.component_interner@.len() as int),
{
    let mut paths: HashMap<UserComponentId, ResolvedPathId> = HashMap::new();
    let mut id: usize = 0;
    assert(diagnostics@ =~= old(diagnostics)@ + refused_upto(*db, parsed@, 0));
    while id < db.component_interner.len()
        invariant
            id <= db.component_interner@.len(),
            paths@ == resolved_upto(*db, parsed@, id as int),
            diagnostics@ == old(diagnostics)@ + refused_upto(*db, parsed@, id as int),
        decreases db.component_interner@.len() - id,
    {
        if id < parsed.len() && db.component_interner[id].bp_source().is_some() {
            match parsed[id] {
                Ok(path) => {
                    paths.insert(id, path);
                },
                Err(error) => {
                    diagnostics.push(Failure::InvalidImportPath { component: id, error });
                },
            }
        }
        id += 1;
        assert(diagnostics@ =~= old(diagnostics)@ + refused_upto(*db, parsed@, id as int));
    }
    paths
}

} // verus!

//! The components as the resolver sees them, and the rule that matches a
//! requested type to the one component that produces it.

use vstd::prelude::*;
use crate::diagnostic::{ConfigError, ConfigErrorView, Failure};
use crate::model::{
    CloningStrategy, ComponentKind, Input, Lifecycle, ScopeId, TypeId, UserComponentId,
};
use crate::scope::ScopeGraph;

verus! {

/// A component with everything the resolver needs to know of it.
#[derive(Debug, Clone, PartialEq, Eq)]
pub struct Component {
    pub kind: ComponentKind,
    pub scope_id: ScopeId,
    pub lifecycle: Lifecycle,
    pub cloning_strategy: Option<CloningStrategy>,
    /// What the component takes. The first input of an error handler or an
    /// error observer is the error itself.
    pub inputs: Vec<Input>,
    /// The type of the value it produces, if it produces one.
    pub output: Option<TypeId>,
    /// The type of its error, if it can fail.
    pub error: Option<TypeId>,
    /// The error handler registered for it.
    pub error_handler: Option<UserComponentId>,
    /// For a request handler: the middleware around it, outermost first.
    pub middleware: Vec<UserComponentId>,
    /// For a request handler: the error observers it reports to, in order.
    pub error_observers: Vec<UserComponentId>,
}

/// What a call graph is built for.
#[derive(Debug, Clone, Copy, PartialEq, Eq, Hash, Structural)]
pub enum GraphKind {
    /// The graph of a request handler, a fallback or a middleware.
    RequestHandling,
    /// The graph that builds the singletons when the application starts.
    ApplicationState,
}

/// What produces a requested type.
#[derive(Debug, Clone, Copy, PartialEq, Eq, Hash, Structural)]
pub enum Producer {
    /// A registered component.
    Component(UserComponentId),
    /// The framework: the value comes with the request.
    Framework,
}

/// Every component of the application, its scopes, and the types that the
/// framework provides with each request.
#[derive(Debug, Clone, PartialEq, Eq)]
pub struct ComponentDb {
    pub components: Vec<Component>,
    pub scope_graph: ScopeGraph,
    pub framework_types: Vec<TypeId>,
}

impl ComponentDb {
    /// Whether `id` names a component.
    pub open spec fn has(self, id: UserComponentId) -> bool {
        id < self.components@.len()
    }

    /// The scopes form a tree.
    pub open spec fn wf(self) -> bool {
        self.scope_graph.wf()
    }

    /// Whether the component is of a kind that produces values for others.
    pub open spec fn is_producer(self, c: int) -> bool {
        let kind = self.components@[c].kind;
        kind == ComponentKind::Constructor || kind == ComponentKind::PrebuiltType || kind
            == ComponentKind::ConfigType
    }

    /// Whether component `c` can provide `ty` to a consumer in `scope`: it
    /// produces that type and is registered in `scope` or in a scope that
    /// encloses it. The graph of the application state takes singletons only.
    pub open spec fn is_candidate(self, kind: GraphKind, c: int, ty: TypeId, scope: ScopeId) -> bool {
        &&& 0 <= c < self.components@.len()
        &&& self.is_producer(c)
        &&& self.components@[c].output == Some(ty)
        &&& self.scope_graph.encloses(self.components@[c].scope_id, scope)
        &&& (kind == GraphKind::ApplicationState ==> self.components@[c].lifecycle == Lifecycle::Singleton)
    }

    /// The candidates among the first `n` components, in the order of their
    /// identifiers.
    pub open spec fn candidates_upto(self, kind: GraphKind, ty: TypeId, scope: ScopeId, n: int) -> Seq<
        UserComponentId,
    >
        decreases n,
    {
        if n <= 0 {
            Seq::empty()
        } else {
            let rest = self.candidates_upto(kind, ty, scope, n - 1);
            if self.is_candidate(kind, n - 1, ty, scope) {
                rest.push((n - 1) as usize)
            } else {
                rest
            }
        }
    }

    /// Every candidate, in the order of their identifiers.
    pub open spec fn candidates(self, kind: GraphKind, ty: TypeId, scope: ScopeId) -> Seq<UserComponentId> {
        self.candidates_upto(kind, ty, scope, self.components@.len() as int)
    }

    /// Whether the framework provides `ty`. It provides nothing to the graph
    /// of the application state.
    pub open spec fn framework_provides(self, kind: GraphKind, ty: TypeId) -> bool {
        kind == GraphKind::RequestHandling && self.framework_types@.contains(ty)
    }

    /// What provides `ty` to `consumer` in `scope`. Exactly one provider is
    /// asked for, the framework counting as one: with none the constructor is
    /// missing, with more than one it is ambiguous.
    pub open spec fn resolution(
        self,
        kind: GraphKind,
        ty: TypeId,
        scope: ScopeId,
        consumer: UserComponentId,
    ) -> Result<Producer, ConfigErrorView> {
        let found = self.candidates(kind, ty, scope);
        let framework = self.framework_provides(kind, ty);
        if found.len() == 0 && !framework {
            Err(Failure::MissingConstructor { ty, consumer })
        } else if found.len() == 0 {
            Ok(Producer::Framework)
        } else if found.len() == 1 && !framework {
            Ok(Producer::Component(found[0]))
        } else {
            Err(Failure::AmbiguousConstructor { ty, consumer, candidates: found })
        }
    }

    /// Whether component `c` can provide `ty` to a consumer in `scope`.
    pub fn provides(&self, kind: GraphKind, c: UserComponentId, ty: TypeId, scope: ScopeId) -> (r: bool)
        requires
            self.scope_graph.wf(),
        ensures
            r == self.is_candidate(kind, c as int, ty, scope),
    {
        if c >= self.components.len() {
            return false;
        }
        let component = &self.components[c];
        let producer = match component.kind {
            ComponentKind::Constructor => true,
            ComponentKind::PrebuiltType => true,
            ComponentKind::ConfigType => true,
            _ => false,
        };
        if !producer {
            return false;
        }
        let same_type = match component.output {
            Some(out) => out == ty,
            None => false,
        };
        if !same_type {
            return false;
        }
        let singleton = match component.lifecycle {
            Lifecycle::Singleton => true,
            _ => false,
        };
        let admitted = match kind {
            GraphKind::ApplicationState => singleton,
            GraphKind::RequestHandling => true,
        };
        admitted && self.scope_graph.is_visible_from(component.scope_id, scope)
    }

    /// The components that can provide `ty` to a consumer in `scope`, in the
    /// order of their identifiers.
    pub fn find_candidates(&self, kind: GraphKind, ty: TypeId, scope: ScopeId) -> (found: Vec<UserComponentId>)
        requires
            self.scope_graph.wf(),
        ensures
            found@ == self.candidates(kind, ty, scope),
    {
        let mut found: Vec<UserComponentId> = Vec::new();
        let mut c: usize = 0;
        while c < self.components.len()
            invariant
                self.scope_graph.wf(),
                c <= self.components@.len(),
                found@ == self.candidates_upto(kind, ty, scope, c as int),
            decreases self.components@.len() - c,
        {
            if self.provides(kind, c, ty, scope) {
                found.push(c);
            }
            c += 1;
        }
        found
    }

    /// Whether the framework provides `ty` to graphs of this kind.
    pub fn provided_by_framework(&self, kind: GraphKind, ty: TypeId) -> (r: bool)
        ensures
            r == self.framework_provides(kind, ty),
    {
        match kind {
            GraphKind::ApplicationState => false,
            GraphKind::RequestHandling => {
                let mut i: usize = 0;
                while i < self.framework_types.len()
                    invariant
                        kind == GraphKind::RequestHandling,
                        i <= self.framework_types@.len(),
                        forall|k: int| 0 <= k < i ==> self.framework_types@[k] != ty,
                    decreases self.framework_types@.len() - i,
                {
                    if self.framework_types[i] == ty {
                        assert(self.framework_types@[i as int] == ty);
                        return true;
                    }
                    i += 1;
                }
                false
            },
        }
    }

    /// Matches the type that `consumer` asks for in `scope` to its producer.
    pub fn resolve(&self, kind: GraphKind, ty: TypeId, scope: ScopeId, consumer: UserComponentId) -> (r: Result<
        Producer,
        ConfigError,
    >)
        requires
            self.scope_graph.wf(),
        ensures
            match r {
                Ok(producer) => self.resolution(kind, ty, scope, consumer) == Ok::<Producer, ConfigErrorView>(
                    producer,
                ),
                Err(e) => self.resolution(kind, ty, scope, consumer) == Err::<Producer, ConfigErrorView>(e@),
            },
    {
        let found = self.find_candidates(kind, ty, scope);
        let framework = self.provided_by_framework(kind, ty);
        if found.len() == 0 && !framework {
            Err(Failure::MissingConstructor { ty, consumer })
        } else if found.len() == 0 {
            Ok(Producer::Framework)
        } else if found.len() == 1 && !framework {
            Ok(Producer::Component(found[0]))
        } else {
            Err(Failure::AmbiguousConstructor { ty, consumer, candidates: found })
        }
    }
}

/// Every candidate among the first `n` components is listed, and whatever is
/// listed is a candidate below `n`.
pub proof fn lemma_candidates_upto(db: ComponentDb, kind: GraphKind, ty: TypeId, scope: ScopeId, n: int)
    requires
        0 <= n <= db.components@.len(),
    ensures
        forall|c: int|
            0 <= c < n && db.is_candidate(kind, c, ty, scope) ==> db.candidates_upto(kind, ty, scope, n).contains(
                c as usize,
            ),
        forall|k: int|
            0 <= k < db.candidates_upto(kind, ty, scope, n).len() ==> {
                let c = #[trigger] db.candidates_upto(kind, ty, scope, n)[k];
                c < n && db.is_candidate(kind, c as int, ty, scope)
            },
        forall|j: int, k: int|
            0 <= j < k < db.candidates_upto(kind, ty, scope, n).len() ==> db.candidates_upto(kind, ty, scope, n)[j]
                < db.candidates_upto(kind, ty, scope, n)[k],
    decreases n,
{
    if n > 0 {
        assert(db.components.len() == db.components@.len());
        lemma_candidates_upto(db, kind, ty, scope, n - 1);
        let rest = db.candidates_upto(kind, ty, scope, n - 1);
        let all = db.candidates_upto(kind, ty, scope, n);
        let last = (n - 1) as usize;
        let taken = db.is_candidate(kind, n - 1, ty, scope);
        assert(all == if taken {
            rest.push(last)
        } else {
            rest
        });
        assert forall|c: int| 0 <= c < n && db.is_candidate(kind, c, ty, scope) implies all.contains(
            c as usize,
        ) by {
            if c == n - 1 {
                assert(all[rest.len() as int] == last);
            } else {
                assert(rest.contains(c as usize));
                let k = choose|k: int| 0 <= k < rest.len() && rest[k] == c as usize;
                assert(all[k] == c as usize);
            }
        }
        assert forall|k: int| 0 <= k < all.len() implies {
            let c = #[trigger] all[k];
            c < n && db.is_candidate(kind, c as int, ty, scope)
        } by {
            if k < rest.len() {
                assert(all[k] == rest[k]);
                assert(rest[k] < n - 1);
            }
        }
        assert forall|j: int, k: int| 0 <= j < k < all.len() implies all[j] < all[k] by {
            assert(all[j] == rest[j]);
            assert(rest[j] < n - 1);
            if k < rest.len() {
                assert(all[k] == rest[k]);
            }
        }
    }
}

/// A producer that resolution finds is a component of the database.
pub proof fn lemma_resolution_in_range(
    db: ComponentDb,
    kind: GraphKind,
    ty: TypeId,
    scope: ScopeId,
    consumer: UserComponentId,
)
    ensures
        db.resolution(kind, ty, scope, consumer) matches Ok(Producer::Component(p)) ==> db.is_candidate(
            kind,
            p as int,
            ty,
            scope,
        ),
{
    lemma_candidates_upto(db, kind, ty, scope, db.components@.len() as int);
}

/// Two different components that both produce `ty` and are both visible from
/// `scope` make `ty` ambiguous there.
pub proof fn lemma_two_producers_are_ambiguous(
    db: ComponentDb,
    kind: GraphKind,
    ty: TypeId,
    scope: ScopeId,
    consumer: UserComponentId,
    first: UserComponentId,
    second: UserComponentId,
)
    requires
        first != second,
        db.is_candidate(kind, first as int, ty, scope),
        db.is_candidate(kind, second as int, ty, scope),
    ensures
        db.resolution(kind, ty, scope, consumer) == Err::<Producer, ConfigErrorView>(
            Failure::AmbiguousConstructor { ty, consumer, candidates: db.candidates(kind, ty, scope) },
        ),
        db.candidates(kind, ty, scope).contains(first),
        db.candidates(kind, ty, scope).contains(second),
{
    lemma_candidates_upto(db, kind, ty, scope, db.components@.len() as int);
    let found = db.candidates(kind, ty, scope);
    let i = choose|i: int| 0 <= i < found.len() && found[i] == first;
    let j = choose|j: int| 0 <= j < found.len() && found[j] == second;
    assert(i != j);
}

/// Where no component produces `ty` in sight of `scope` and the framework
/// does not provide it, the constructor is missing.
pub proof fn lemma_no_producer_is_missing(
    db: ComponentDb,
    kind: GraphKind,
    ty: TypeId,
    scope: ScopeId,
    consumer: UserComponentId,
)
    requires
        forall|c: int| !db.is_candidate(kind, c, ty, scope),
        !db.framework_provides(kind, ty),
    ensures
        db.resolution(kind, ty, scope, consumer) == Err::<Producer, ConfigErrorView>(
            Failure::MissingConstructor { ty, consumer },
        ),
{
    lemma_candidates_upto(db, kind, ty, scope, db.components@.len() as int);
    let found = db.candidates(kind, ty, scope);
    if found.len() > 0 {
        assert(db.is_candidate(kind, found[0] as int, ty, scope));
    }
}

/// Where exactly one component produces `ty` in sight of `scope` and the
/// framework does not provide it, that component is the producer.
pub proof fn lemma_single_producer_is_found(
    db: ComponentDb,
    kind: GraphKind,
    ty: TypeId,
    scope: ScopeId,
    consumer: UserComponentId,
    producer: UserComponentId,
)
    requires
        db.is_candidate(kind, producer as int, ty, scope),
        forall|c: int| db.is_candidate(kind, c, ty, scope) ==> c == producer,
        !db.framework_provides(kind, ty),
    ensures
        db.resolution(kind, ty, scope, consumer) == Ok::<Producer, ConfigErrorView>(
            Producer::Component(producer),
        ),
{
    lemma_candidates_upto(db, kind, ty, scope, db.components@.len() as int);
    let found = db.candidates(kind, ty, scope);
    assert(found.contains(producer));
    if found.len() > 1 {
        assert(found[0] < found[1]);
        assert(db.is_candidate(kind, found[0] as int, ty, scope));
        assert(db.is_candidate(kind, found[1] as int, ty, scope));
    }
    assert(db.is_candidate(kind, found[0] as int, ty, scope));
}

} // verus!

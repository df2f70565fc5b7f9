//! The vocabulary shared by every pass: identifiers, lifecycles, cloning
//! strategies and the components that users register.

use vstd::prelude::*;

verus! {

/// The identifier of an interned user component.
pub type UserComponentId = usize;

/// The identifier of a scope in the scope graph.
pub type ScopeId = usize;

/// The identifier of an interned callable or type signature.
pub type RawIdentifierId = usize;

/// The identifier of the interned metadata of an annotated item.
pub type AnnotationId = usize;

/// The identifier of a type. Two types match when their identifiers are equal.
pub type TypeId = u64;

/// The scope every other scope descends from.
pub const ROOT_SCOPE: usize = 0;

/// How often a component is built.
#[derive(Debug, Clone, Copy, PartialEq, Eq, Hash, Structural)]
pub enum Lifecycle {
    /// Built once, when the application starts.
    Singleton,
    /// Built once for each incoming request.
    RequestScoped,
    /// Built anew for each consumer.
    Transient,
}

/// Whether the value that a component produces may be duplicated.
#[derive(Debug, Clone, Copy, PartialEq, Eq, Hash, Structural)]
pub enum CloningStrategy {
    /// The value is cloned when two consumers cannot share it.
    CloneIfNecessary,
    /// The value has a single owner.
    NeverClone,
}

/// Whether a configuration value falls back to a default when it is absent.
#[derive(Debug, Clone, Copy, PartialEq, Eq, Hash, Structural)]
pub enum DefaultStrategy {
    DefaultIfMissing,
    Required,
}

/// The properties that an annotated constructor declares.
#[derive(Debug, Clone, PartialEq, Eq)]
pub struct ConstructorProperties {
    pub lifecycle: Lifecycle,
    pub cloning_strategy: Option<CloningStrategy>,
    pub error_handler: Option<String>,
}

/// The tag of a component, without the data attached to it.
#[derive(Debug, Clone, Copy, PartialEq, Eq, Hash, Structural)]
pub enum ComponentKind {
    RequestHandler,
    Fallback,
    Constructor,
    ErrorHandler,
    WrappingMiddleware,
    PostProcessingMiddleware,
    PreProcessingMiddleware,
    ErrorObserver,
    PrebuiltType,
    ConfigType,
}

/// How a consumer accesses one of its inputs.
#[derive(Debug, Clone, Copy, PartialEq, Eq, Hash, Structural)]
pub enum Access {
    /// By shared reference.
    Shared,
    /// By mutable reference.
    Exclusive,
    /// By value.
    Owned,
}

impl Access {
    /// An access that cannot coexist with any other access to the same value.
    pub open spec fn excludes_others(self) -> bool {
        self != Access::Shared
    }

    pub fn is_exclusive(self) -> (r: bool)
        ensures
            r == self.excludes_others(),
    {
        match self {
            Access::Shared => false,
            Access::Exclusive => true,
            Access::Owned => true,
        }
    }
}

/// One input of a callable: the requested type and how it is accessed.
#[derive(Debug, Clone, Copy, PartialEq, Eq, Hash, Structural)]
pub struct Input {
    pub ty: TypeId,
    pub access: Access,
}

/// A blueprint registration: which signature it names and in which scope.
#[derive(Debug, Clone, Copy, PartialEq, Eq, Hash, Structural)]
pub struct BlueprintSource {
    pub identifiers_id: RawIdentifierId,
    pub scope_id: ScopeId,
}

/// Where a user component comes from: a registration against a blueprint, or
/// an annotated item, which is always registered at the root scope.
#[derive(Debug, Clone, Copy, PartialEq, Eq, Hash, Structural)]
pub enum UserComponentSource {
    Blueprint(BlueprintSource),
    Annotation(AnnotationId),
}

impl UserComponentSource {
    pub fn from_blueprint(source: BlueprintSource) -> (r: Self)
        ensures
            r == UserComponentSource::Blueprint(source),
    {
        UserComponentSource::Blueprint(source)
    }

    pub fn from_annotation(id: AnnotationId) -> (r: Self)
        ensures
            r == UserComponentSource::Annotation(id),
    {
        UserComponentSource::Annotation(id)
    }
}

} // verus!

//! The components that users register, and what a route is keyed by.

use vstd::prelude::*;
use crate::model::{
    BlueprintSource, ComponentKind, Input, RawIdentifierId, ScopeId, TypeId, UserComponentId,
    UserComponentSource, ROOT_SCOPE,
};

verus! {

/// An HTTP method.
#[derive(Debug, Clone, Copy, PartialEq, Eq, Hash, Structural)]
pub enum Method {
    Get,
    Post,
    Put,
    Delete,
    Head,
    Options,
    Patch,
    Connect,
    Trace,
}

/// A set of HTTP methods.
#[derive(Debug, Clone, Copy, PartialEq, Eq, Hash, Structural)]
pub struct MethodGuard {
    pub get: bool,
    pub post: bool,
    pub put: bool,
    pub delete: bool,
    pub head: bool,
    pub options: bool,
    pub patch: bool,
    pub connect: bool,
    pub trace: bool,
}

impl MethodGuard {
    /// Whether the set holds `method`.
    pub open spec fn allows(self, method: Method) -> bool {
        match method {
            Method::Get => self.get,
            Method::Post => self.post,
            Method::Put => self.put,
            Method::Delete => self.delete,
            Method::Head => self.head,
            Method::Options => self.options,
            Method::Patch => self.patch,
            Method::Connect => self.connect,
            Method::Trace => self.trace,
        }
    }

    /// Whether the two sets have a method in common.
    pub open spec fn intersects(self, other: MethodGuard) -> bool {
        exists|m: Method| self.allows(m) && other.allows(m)
    }

    /// The set without any method.
    pub fn none() -> (g: Self)
        ensures
            forall|m: Method| !g.allows(m),
    {
        MethodGuard {
            get: false,
            post: false,
            put: false,
            delete: false,
            head: false,
            options: false,
            patch: false,
            connect: false,
            trace: false,
        }
    }

    /// The set of every method.
    pub fn any() -> (g: Self)
        ensures
            forall|m: Method| g.allows(m),
    {
        MethodGuard {
            get: true,
            post: true,
            put: true,
            delete: true,
            head: true,
            options: true,
            patch: true,
            connect: true,
            trace: true,
        }
    }

    /// The set that holds `method` alone.
    pub fn single(method: Method) -> (g: Self)
        ensures
            forall|m: Method| g.allows(m) == (m == method),
    {
        MethodGuard::none().with(method)
    }

    /// The set with `method` added.
    pub fn with(self, method: Method) -> (g: Self)
        ensures
            forall|m: Method| g.allows(m) == (self.allows(m) || m == method),
    {
        let mut g = self;
        match method {
            Method::Get => { g.get = true; },
            Method::Post => { g.post = true; },
            Method::Put => { g.put = true; },
            Method::Delete => { g.delete = true; },
            Method::Head => { g.head = true; },
            Method::Options => { g.options = true; },
            Method::Patch => { g.patch = true; },
            Method::Connect => { g.connect = true; },
            Method::Trace => { g.trace = true; },
        }
        g
    }

    /// Whether the set holds `method`.
    pub fn contains(&self, method: Method) -> (r: bool)
        ensures
            r == self.allows(method),
    {
        match method {
            Method::Get => self.get,
            Method::Post => self.post,
            Method::Put => self.put,
            Method::Delete => self.delete,
            Method::Head => self.head,
            Method::Options => self.options,
            Method::Patch => self.patch,
            Method::Connect => self.connect,
            Method::Trace => self.trace,
        }
    }

    /// Whether the set holds no method.
    pub fn is_empty(&self) -> (r: bool)
        ensures
            r == forall|m: Method| !self.allows(m),
    {
        let r = !(self.get || self.post || self.put || self.delete || self.head || self.options
            || self.patch || self.connect || self.trace);
        proof {
            if !r {
                assert(self.allows(Method::Get) || self.allows(Method::Post) || self.allows(Method::Put)
                    || self.allows(Method::Delete) || self.allows(Method::Head) || self.allows(
                    Method::Options,
                ) || self.allows(Method::Patch) || self.allows(Method::Connect) || self.allows(
                    Method::Trace,
                ));
            }
        }
        r
    }

    /// Whether the two sets have a method in common.
    pub fn overlaps(&self, other: &MethodGuard) -> (r: bool)
        ensures
            r == self.intersects(*other),
    {
        let r = (self.get && other.get) || (self.post && other.post) || (self.put && other.put) || (
        self.delete && other.delete) || (self.head && other.head) || (self.options && other.options)
            || (self.patch && other.patch) || (self.connect && other.connect) || (self.trace
            && other.trace);
        proof {
            if r {
                let m = if self.get && other.get {
                    Method::Get
                } else if self.post && other.post {
                    Method::Post
                } else if self.put && other.put {
                    Method::Put
                } else if self.delete && other.delete {
                    Method::Delete
                } else if self.head && other.head {
                    Method::Head
                } else if self.options && other.options {
                    Method::Options
                } else if self.patch && other.patch {
                    Method::Patch
                } else if self.connect && other.connect {
                    Method::Connect
                } else {
                    Method::Trace
                };
                assert(self.allows(m) && other.allows(m));
            }
        }
        r
    }

    /// The methods of either set.
    pub fn union(&self, other: &MethodGuard) -> (g: Self)
        ensures
            forall|m: Method| g.allows(m) == (self.allows(m) || other.allows(m)),
    {
        MethodGuard {
            get: self.get || other.get,
            post: self.post || other.post,
            put: self.put || other.put,
            delete: self.delete || other.delete,
            head: self.head || other.head,
            options: self.options || other.options,
            patch: self.patch || other.patch,
            connect: self.connect || other.connect,
            trace: self.trace || other.trace,
        }
    }
}

/// Two sets that hold the same methods are the same set.
pub proof fn lemma_method_guard_ext(a: MethodGuard, b: MethodGuard)
    requires
        forall|m: Method| a.allows(m) == b.allows(m),
    ensures
        a == b,
{
    assert(a.allows(Method::Get) == b.allows(Method::Get));
    assert(a.allows(Method::Post) == b.allows(Method::Post));
    assert(a.allows(Method::Put) == b.allows(Method::Put));
    assert(a.allows(Method::Delete) == b.allows(Method::Delete));
    assert(a.allows(Method::Head) == b.allows(Method::Head));
    assert(a.allows(Method::Options) == b.allows(Method::Options));
    assert(a.allows(Method::Patch) == b.allows(Method::Patch));
    assert(a.allows(Method::Connect) == b.allows(Method::Connect));
    assert(a.allows(Method::Trace) == b.allows(Method::Trace));
}

/// What the import path of a registration names.
#[derive(Debug, Clone, Copy, PartialEq, Eq, Hash, Structural)]
pub enum PathKind {
    Callable,
    Type,
}

/// Why an import path could not be resolved.
#[derive(Debug, Clone, Copy, PartialEq, Eq, Hash, Structural)]
pub enum ParseError {
    /// The path is no path.
    InvalidPath,
    /// The path does not start from a crate.
    PathMustBeAbsolute,
}

/// What the import path of a component of this kind names: a type for a
/// prebuilt type and a configuration type, a callable for everything else.
pub fn path_kind(kind: ComponentKind) -> (r: PathKind)
    ensures
        r == if kind == ComponentKind::PrebuiltType || kind == ComponentKind::ConfigType {
            PathKind::Type
        } else {
            PathKind::Callable
        },
{
    match kind {
        ComponentKind::PrebuiltType => PathKind::Type,
        ComponentKind::ConfigType => PathKind::Type,
        ComponentKind::RequestHandler => PathKind::Callable,
        ComponentKind::Fallback => PathKind::Callable,
        ComponentKind::Constructor => PathKind::Callable,
        ComponentKind::ErrorHandler => PathKind::Callable,
        ComponentKind::WrappingMiddleware => PathKind::Callable,
        ComponentKind::PostProcessingMiddleware => PathKind::Callable,
        ComponentKind::PreProcessingMiddleware => PathKind::Callable,
        ComponentKind::ErrorObserver => PathKind::Callable,
    }
}

/// What a request handler is registered under.
#[derive(Debug, Clone, PartialEq, Eq, Hash)]
pub struct RouterKey {
    pub path: String,
    pub method_guard: MethodGuard,
}

/// The signature of a registered callable or type: what it takes, what it
/// produces and, where it can fail, the type of its error.
#[derive(Debug, Clone, PartialEq, Eq, Hash)]
pub struct RawIdentifiers {
    pub import_path: String,
    pub inputs: Vec<Input>,
    pub output: Option<TypeId>,
    pub error: Option<TypeId>,
}

/// A component registered by a user, against a blueprint or through an
/// annotation.
#[derive(Debug, Clone, PartialEq, Eq, Hash)]
pub enum UserComponent {
    RequestHandler { source: BlueprintSource, router_key: RouterKey },
    Fallback { source: BlueprintSource },
    ErrorHandler { source: BlueprintSource, fallible_id: UserComponentId },
    Constructor { source: UserComponentSource },
    PrebuiltType { source: BlueprintSource },
    ConfigType { source: BlueprintSource, key: String },
    WrappingMiddleware { source: BlueprintSource },
    PostProcessingMiddleware { source: BlueprintSource },
    PreProcessingMiddleware { source: BlueprintSource },
    ErrorObserver { source: BlueprintSource },
}

impl UserComponent {
    /// The blueprint registration behind the component, if there is one.
    pub open spec fn spec_bp_source(self) -> Option<BlueprintSource> {
        match self {
            UserComponent::RequestHandler { source, .. } => Some(source),
            UserComponent::Fallback { source } => Some(source),
            UserComponent::ErrorHandler { source, .. } => Some(source),
            UserComponent::Constructor { source: UserComponentSource::Blueprint(source) } => Some(source),
            UserComponent::Constructor { source: UserComponentSource::Annotation(_) } => None,
            UserComponent::PrebuiltType { source } => Some(source),
            UserComponent::ConfigType { source, .. } => Some(source),
            UserComponent::WrappingMiddleware { source } => Some(source),
            UserComponent::PostProcessingMiddleware { source } => Some(source),
            UserComponent::PreProcessingMiddleware { source } => Some(source),
            UserComponent::ErrorObserver { source } => Some(source),
        }
    }

    /// The scope the component belongs to: that of its registration, or the
    /// root scope for an annotated component.
    pub open spec fn spec_scope_id(self) -> ScopeId {
        match self.spec_bp_source() {
            Some(source) => source.scope_id,
            None => ROOT_SCOPE,
        }
    }

    /// Whether a component of this kind has a cloning strategy: a
    /// constructor, a prebuilt type and a configuration type have one, and no
    /// other component has.
    pub open spec fn takes_cloning_strategy(self) -> bool {
        self is Constructor || self is PrebuiltType || self is ConfigType
    }

    /// The tag of the component: one for each kind.
    pub open spec fn spec_kind(self) -> ComponentKind {
        match self {
            UserComponent::RequestHandler { .. } => ComponentKind::RequestHandler,
            UserComponent::Fallback { .. } => ComponentKind::Fallback,
            UserComponent::ErrorHandler { .. } => ComponentKind::ErrorHandler,
            UserComponent::Constructor { .. } => ComponentKind::Constructor,
            UserComponent::PrebuiltType { .. } => ComponentKind::PrebuiltType,
            UserComponent::ConfigType { .. } => ComponentKind::ConfigType,
            UserComponent::WrappingMiddleware { .. } => ComponentKind::WrappingMiddleware,
            UserComponent::PostProcessingMiddleware { .. } => ComponentKind::PostProcessingMiddleware,
            UserComponent::PreProcessingMiddleware { .. } => ComponentKind::PreProcessingMiddleware,
            UserComponent::ErrorObserver { .. } => ComponentKind::ErrorObserver,
        }
    }

    /// The identifier of the signature that the component was registered with.
    /// `None` for annotated components.
    pub fn raw_identifiers_id(&self) -> (id: Option<RawIdentifierId>)
        ensures
            id == match self.spec_bp_source() {
                Some(source) => Some(source.identifiers_id),
                None => None,
            },
    {
        match self.bp_source() {
            Some(source) => Some(source.identifiers_id),
            None => None,
        }
    }

    /// The blueprint registration behind the component. `None` for annotated
    /// components.
    pub fn bp_source(&self) -> (source: Option<BlueprintSource>)
        ensures
            source == self.spec_bp_source(),
    {
        match self {
            UserComponent::RequestHandler { source, .. } => Some(*source),
            UserComponent::Fallback { source } => Some(*source),
            UserComponent::ErrorHandler { source, .. } => Some(*source),
            UserComponent::Constructor { source } => match source {
                UserComponentSource::Blueprint(source) => Some(*source),
                UserComponentSource::Annotation(_) => None,
            },
            UserComponent::PrebuiltType { source } => Some(*source),
            UserComponent::ConfigType { source, .. } => Some(*source),
            UserComponent::WrappingMiddleware { source } => Some(*source),
            UserComponent::PostProcessingMiddleware { source } => Some(*source),
            UserComponent::PreProcessingMiddleware { source } => Some(*source),
            UserComponent::ErrorObserver { source } => Some(*source),
        }
    }

    /// The scope the component is associated with.
    pub fn scope_id(&self) -> (scope: ScopeId)
        ensures
            scope == self.spec_scope_id(),
    {
        match self.bp_source() {
            Some(source) => source.scope_id,
            None => ROOT_SCOPE,
        }
    }

    /// The tag of the component, for callers that do not need its data.
    pub fn kind(&self) -> (kind: ComponentKind)
        ensures
            kind == self.spec_kind(),
    {
        match self {
            UserComponent::RequestHandler { .. } => ComponentKind::RequestHandler,
            UserComponent::ErrorHandler { .. } => ComponentKind::ErrorHandler,
            UserComponent::Constructor { .. } => ComponentKind::Constructor,
            UserComponent::PrebuiltType { .. } => ComponentKind::PrebuiltType,
            UserComponent::ConfigType { .. } => ComponentKind::ConfigType,
            UserComponent::WrappingMiddleware { .. } => ComponentKind::WrappingMiddleware,
            UserComponent::Fallback { .. } => ComponentKind::Fallback,
            UserComponent::ErrorObserver { .. } => ComponentKind::ErrorObserver,
            UserComponent::PostProcessingMiddleware { .. } => ComponentKind::PostProcessingMiddleware,
            UserComponent::PreProcessingMiddleware { .. } => ComponentKind::PreProcessingMiddleware,
        }
    }
}

} // verus!

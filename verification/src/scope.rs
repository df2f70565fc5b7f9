//! The tree of scopes. A scope may add a path prefix and a domain guard, and
//! bounds what the handlers registered in it can see.
//!
//! Middleware and error observers are listed from the root scope down to the
//! scope of the handler, each scope's registrations in the order they were
//! made. That order holds for every kind of middleware: post-processing
//! middleware is not reversed.

use vstd::prelude::*;
use crate::model::{ScopeId, UserComponentId, ROOT_SCOPE};

verus! {

/// One scope of the tree.
#[derive(Debug, Clone, PartialEq, Eq)]
pub struct ScopeNode {
    pub parent: Option<ScopeId>,
    pub path_prefix: Option<String>,
    pub domain_guard: Option<String>,
    pub children: Vec<ScopeId>,
    pub middleware: Vec<UserComponentId>,
    pub error_observers: Vec<UserComponentId>,
}

/// The tree of scopes, addressed by identifier. Scope 0 is the root.
#[derive(Debug, Clone, PartialEq, Eq)]
pub struct ScopeGraph {
    pub nodes: Vec<ScopeNode>,
}

/// A scope as specifications speak of it.
#[verifier::ext_equal]
pub struct ScopeRecord {
    pub parent: Option<ScopeId>,
    pub path_prefix: Option<String>,
    pub domain_guard: Option<String>,
    pub children: Seq<ScopeId>,
    pub middleware: Seq<UserComponentId>,
    pub error_observers: Seq<UserComponentId>,
}

impl ScopeNode {
    pub open spec fn record(self) -> ScopeRecord {
        ScopeRecord {
            parent: self.parent,
            path_prefix: self.path_prefix,
            domain_guard: self.domain_guard,
            children: self.children@,
            middleware: self.middleware@,
            error_observers: self.error_observers@,
        }
    }
}

/// The characters of an optional string.
pub open spec fn opt_string_view(s: Option<String>) -> Option<Seq<char>> {
    match s {
        Some(s) => Some(s@),
        None => None,
    }
}

impl ScopeGraph {
    /// The root has no parent; every other scope has a parent that was created
    /// before it; the children of a scope are scopes whose parent it is.
    pub open spec fn wf(self) -> bool {
        &&& self.nodes@.len() >= 1
        &&& self.nodes@[0].parent is None
        &&& forall|i: int|
            1 <= i < self.nodes@.len() ==> (#[trigger] self.nodes@[i]).parent is Some
                && self.nodes@[i].parent->0 < i
        &&& forall|i: int, k: int|
            0 <= i < self.nodes@.len() && 0 <= k < self.nodes@[i].children@.len() ==> {
                let c = #[trigger] self.nodes@[i].children@[k];
                i < c < self.nodes@.len() && self.nodes@[c as int].parent == Some(i as usize)
            }
    }

    /// Every scope, in the order of the identifiers.
    pub open spec fn records(self) -> Seq<ScopeRecord> {
        Seq::new(self.nodes@.len(), |i: int| self.nodes@[i].record())
    }

    /// Whether `scope` names a scope of the tree.
    pub open spec fn has(self, scope: ScopeId) -> bool {
        scope < self.nodes@.len()
    }

    /// The parent of `scope`, if it has one that precedes it.
    pub open spec fn parent_of(self, scope: ScopeId) -> Option<ScopeId> {
        if self.has(scope) && self.nodes@[scope as int].parent is Some && self.nodes@[scope as int].parent->0
            < scope {
            self.nodes@[scope as int].parent
        } else {
            None
        }
    }

    /// Whether `ancestor` is `scope` or encloses it.
    pub open spec fn encloses(self, ancestor: ScopeId, scope: ScopeId) -> bool
        decreases scope,
    {
        ancestor == scope || match self.parent_of(scope) {
            Some(p) => self.encloses(ancestor, p),
            None => false,
        }
    }

    /// The path prefixes from the root down to `scope`, joined.
    pub open spec fn effective_path_prefix(self, scope: ScopeId) -> Seq<char>
        decreases scope,
    {
        let inherited = match self.parent_of(scope) {
            Some(p) => self.effective_path_prefix(p),
            None => Seq::<char>::empty(),
        };
        if self.has(scope) && self.nodes@[scope as int].path_prefix is Some {
            inherited + self.nodes@[scope as int].path_prefix->0@
        } else {
            inherited
        }
    }

    /// Whether `scope` declares a domain guard that is not empty.
    pub open spec fn declares_domain(self, scope: ScopeId) -> bool {
        self.has(scope) && self.nodes@[scope as int].domain_guard is Some
            && self.nodes@[scope as int].domain_guard->0@.len() > 0
    }

    /// The domain guard in force at `scope`: its own if it declares one that
    /// is not empty, else the one in force at its parent.
    pub open spec fn effective_domain_guard(self, scope: ScopeId) -> Option<Seq<char>>
        decreases scope,
    {
        if self.declares_domain(scope) {
            Some(self.nodes@[scope as int].domain_guard->0@)
        } else {
            match self.parent_of(scope) {
                Some(p) => self.effective_domain_guard(p),
                None => None,
            }
        }
    }

    /// The middleware registered from the root down to `scope`.
    pub open spec fn visible_middleware(self, scope: ScopeId) -> Seq<UserComponentId>
        decreases scope,
    {
        let inherited = match self.parent_of(scope) {
            Some(p) => self.visible_middleware(p),
            None => Seq::<UserComponentId>::empty(),
        };
        if self.has(scope) {
            inherited + self.nodes@[scope as int].middleware@
        } else {
            inherited
        }
    }

    /// The error observers registered from the root down to `scope`.
    pub open spec fn visible_error_observers(self, scope: ScopeId) -> Seq<UserComponentId>
        decreases scope,
    {
        let inherited = match self.parent_of(scope) {
            Some(p) => self.visible_error_observers(p),
            None => Seq::<UserComponentId>::empty(),
        };
        if self.has(scope) {
            inherited + self.nodes@[scope as int].error_observers@
        } else {
            inherited
        }
    }

    /// A tree that holds the root scope alone.
    pub fn new() -> (graph: Self)
        ensures
            graph.wf(),
            graph.nodes@.len() == 1,
            graph.nodes@[0].path_prefix is None,
            graph.nodes@[0].domain_guard is None,
            graph.nodes@[0].children@.len() == 0,
            graph.nodes@[0].middleware@.len() == 0,
            graph.nodes@[0].error_observers@.len() == 0,
    {
        let root = ScopeNode {
            parent: None,
            path_prefix: None,
            domain_guard: None,
            children: Vec::new(),
            middleware: Vec::new(),
            error_observers: Vec::new(),
        };
        let mut nodes = Vec::new();
        nodes.push(root);
        ScopeGraph { nodes }
    }

    /// Whether the scopes form a tree: the check that `wf` states.
    pub fn is_well_formed(&self) -> (r: bool)
        ensures
            r == self.wf(),
    {
        if self.nodes.len() == 0 {
            return false;
        }
        if self.nodes[0].parent.is_some() {
            return false;
        }
        let mut i: usize = 1;
        while i < self.nodes.len()
            invariant
                1 <= i <= self.nodes@.len(),
                forall|k: int|
                    1 <= k < i ==> (#[trigger] self.nodes@[k]).parent is Some && self.nodes@[k].parent->0 < k,
            decreases self.nodes@.len() - i,
        {
            match self.nodes[i].parent {
                Some(p) => {
                    if p >= i {
                        return false;
                    }
                },
                None => {
                    return false;
                },
            }
            i += 1;
        }
        let mut s: usize = 0;
        while s < self.nodes.len()
            invariant
                s <= self.nodes@.len(),
                forall|a: int, k: int|
                    0 <= a < s && 0 <= k < self.nodes@[a].children@.len() ==> {
                        let c = #[trigger] self.nodes@[a].children@[k];
                        a < c < self.nodes@.len() && self.nodes@[c as int].parent == Some(a as usize)
                    },
            decreases self.nodes@.len() - s,
        {
            let children = &self.nodes[s].children;
            let mut k: usize = 0;
            while k < children.len()
                invariant
                    s < self.nodes@.len(),
                    children == self.nodes@[s as int].children,
                    k <= children@.len(),
                    forall|j: int|
                        0 <= j < k ==> {
                            let c = #[trigger] children@[j];
                            s < c < self.nodes@.len() && self.nodes@[c as int].parent == Some(s)
                        },
                decreases children@.len() - k,
            {
                let c = children[k];
                if c <= s || c >= self.nodes.len() {
                    return false;
                }
                let tied = match self.nodes[c].parent {
                    Some(p) => p == s,
                    None => false,
                };
                if !tied {
                    return false;
                }
                k += 1;
            }
            s += 1;
        }
        true
    }

    /// The number of scopes.
    pub fn len(&self) -> (n: usize)
        ensures
            n == self.nodes@.len(),
    {
        self.nodes.len()
    }

    /// Adds a scope under `parent` and returns its identifier. The new scope
    /// is the last child of `parent`; no other scope changes.
    pub fn add_scope(&mut self, parent: ScopeId, path_prefix: Option<String>, domain_guard: Option<String>) -> (id:
        ScopeId)
        requires
            old(self).wf(),
            old(self).has(parent),
        ensures
            final(self).wf(),
            id == old(self).nodes@.len(),
            final(self).nodes@.len() == old(self).nodes@.len() + 1,
            final(self).nodes@[id as int].parent == Some(parent),
            final(self).nodes@[id as int].path_prefix == path_prefix,
            final(self).nodes@[id as int].domain_guard == domain_guard,
            final(self).nodes@[id as int].children@.len() == 0,
            final(self).nodes@[id as int].middleware@.len() == 0,
            final(self).nodes@[id as int].error_observers@.len() == 0,
            final(self).nodes@[parent as int].children@ == old(self).nodes@[parent as int].children@.push(id),
            final(self).nodes@[parent as int].parent == old(self).nodes@[parent as int].parent,
            final(self).nodes@[parent as int].path_prefix == old(self).nodes@[parent as int].path_prefix,
            final(self).nodes@[parent as int].domain_guard == old(self).nodes@[parent as int].domain_guard,
            final(self).nodes@[parent as int].middleware == old(self).nodes@[parent as int].middleware,
            final(self).nodes@[parent as int].error_observers == old(self).nodes@[parent
                as int].error_observers,
            forall|i: int|
                0 <= i < old(self).nodes@.len() && i != parent ==> final(self).nodes@[i] == old(
                    self,
                ).nodes@[i],
    {
        let id = self.nodes.len();
        let node = ScopeNode {
            parent: Some(parent),
            path_prefix,
            domain_guard,
            children: Vec::new(),
            middleware: Vec::new(),
            error_observers: Vec::new(),
        };
        self.nodes.push(node);
        self.nodes[parent].children.push(id);
        proof {
            let old_nodes = old(self).nodes@;
            let new_nodes = self.nodes@;
            assert forall|i: int, k: int|
                0 <= i < new_nodes.len() && 0 <= k < new_nodes[i].children@.len() implies {
                let c = #[trigger] new_nodes[i].children@[k];
                i < c < new_nodes.len() && new_nodes[c as int].parent == Some(i as usize)
            } by {
                if i == parent as int {
                    if k < old_nodes[i].children@.len() {
                        assert(new_nodes[i].children@[k] == old_nodes[i].children@[k]);
                    }
                } else if i < old_nodes.len() {
                    assert(new_nodes[i] == old_nodes[i]);
                    let c = old_nodes[i].children@[k];
                    assert(i < c < old_nodes.len());
                }
            }
        }
        id
    }

    /// Registers a middleware in `scope`, after those already registered there.
    pub fn register_middleware(&mut self, scope: ScopeId, id: UserComponentId)
        requires
            old(self).wf(),
            old(self).has(scope),
        ensures
            final(self).wf(),
            final(self).nodes@.len() == old(self).nodes@.len(),
            final(self).nodes@[scope as int].middleware@ == old(self).nodes@[scope as int].middleware@.push(id),
            final(self).nodes@[scope as int].parent == old(self).nodes@[scope as int].parent,
            final(self).nodes@[scope as int].path_prefix == old(self).nodes@[scope as int].path_prefix,
            final(self).nodes@[scope as int].domain_guard == old(self).nodes@[scope as int].domain_guard,
            final(self).nodes@[scope as int].children == old(self).nodes@[scope as int].children,
            final(self).nodes@[scope as int].error_observers == old(self).nodes@[scope as int].error_observers,
            forall|i: int|
                0 <= i < old(self).nodes@.len() && i != scope ==> final(self).nodes@[i] == old(
                    self,
                ).nodes@[i],
    {
        self.nodes[scope].middleware.push(id);
    }

    /// Registers an error observer in `scope`, after those already registered
    /// there.
    pub fn register_error_observer(&mut self, scope: ScopeId, id: UserComponentId)
        requires
            old(self).wf(),
            old(self).has(scope),
        ensures
            final(self).wf(),
            final(self).nodes@.len() == old(self).nodes@.len(),
            final(self).nodes@[scope as int].error_observers@ == old(self).nodes@[scope
                as int].error_observers@.push(id),
            final(self).nodes@[scope as int].parent == old(self).nodes@[scope as int].parent,
            final(self).nodes@[scope as int].path_prefix == old(self).nodes@[scope as int].path_prefix,
            final(self).nodes@[scope as int].domain_guard == old(self).nodes@[scope as int].domain_guard,
            final(self).nodes@[scope as int].children == old(self).nodes@[scope as int].children,
            final(self).nodes@[scope as int].middleware == old(self).nodes@[scope as int].middleware,
            forall|i: int|
                0 <= i < old(self).nodes@.len() && i != scope ==> final(self).nodes@[i] == old(
                    self,
                ).nodes@[i],
    {
        self.nodes[scope].error_observers.push(id);
    }

    /// The parent of `scope`; `None` for the root and for an identifier that
    /// names no scope.
    pub fn parent(&self, scope: ScopeId) -> (p: Option<ScopeId>)
        requires
            self.wf(),
        ensures
            p == self.parent_of(scope),
    {
        if scope < self.nodes.len() {
            self.nodes[scope].parent
        } else {
            None
        }
    }

    /// Whether `ancestor` is `scope` or one of the scopes that enclose it.
    pub fn is_visible_from(&self, ancestor: ScopeId, scope: ScopeId) -> (r: bool)
        requires
            self.wf(),
        ensures
            r == self.encloses(ancestor, scope),
    {
        let mut current = scope;
        loop
            invariant
                self.wf(),
                self.encloses(ancestor, scope) == self.encloses(ancestor, current),
            decreases current,
        {
            if current == ancestor {
                return true;
            }
            match self.parent(current) {
                Some(p) => {
                    current = p;
                },
                None => {
                    return false;
                },
            }
        }
    }

    /// The path prefix in force at `scope`: the prefixes from the root down to
    /// it, joined.
    pub fn path_prefix(&self, scope: ScopeId) -> (prefix: String)
        requires
            self.wf(),
        ensures
            prefix@ == self.effective_path_prefix(scope),
        decreases scope,
    {
        let mut prefix = match self.parent(scope) {
            Some(p) => self.path_prefix(p),
            None => String::new(),
        };
        if scope < self.nodes.len() {
            match &self.nodes[scope].path_prefix {
                Some(own) => {
                    prefix.append(own.as_str());
                },
                None => {},
            }
        }
        prefix
    }

    /// The domain guard in force at `scope`: that of the nearest scope, from
    /// `scope` up to the root, that declares one that is not empty.
    pub fn domain_guard(&self, scope: ScopeId) -> (guard: Option<String>)
        requires
            self.wf(),
        ensures
            opt_string_view(guard) == self.effective_domain_guard(scope),
        decreases scope,
    {
        if scope < self.nodes.len() {
            match &self.nodes[scope].domain_guard {
                Some(own) => {
                    if !own.as_str().is_empty() {
                        return Some(own.clone());
                    }
                },
                None => {},
            }
        }
        match self.parent(scope) {
            Some(p) => self.domain_guard(p),
            None => None,
        }
    }

    /// The middleware that a handler registered in `scope` sees, from the root
    /// scope down, each scope's in the order of registration.
    pub fn middleware_chain(&self, scope: ScopeId) -> (chain: Vec<UserComponentId>)
        requires
            self.wf(),
        ensures
            chain@ == self.visible_middleware(scope),
        decreases scope,
    {
        let mut chain = match self.parent(scope) {
            Some(p) => self.middleware_chain(p),
            None => Vec::new(),
        };
        if scope < self.nodes.len() {
            let ghost inherited = chain@;
            let own = &self.nodes[scope].middleware;
            let mut i: usize = 0;
            while i < own.len()
                invariant
                    i <= own@.len(),
                    chain@ == inherited + own@.take(i as int),
                decreases own@.len() - i,
            {
                chain.push(own[i]);
                i += 1;
                assert(own@.take(i as int) =~= own@.take(i - 1).push(own@[i - 1]));
                assert(chain@ =~= inherited + own@.take(i as int));
            }
            assert(own@.take(i as int) =~= own@);
        }
        chain
    }

    /// The error observers that a handler registered in `scope` sees, from the
    /// root scope down, each scope's in the order of registration.
    pub fn error_observer_chain(&self, scope: ScopeId) -> (chain: Vec<UserComponentId>)
        requires
            self.wf(),
        ensures
            chain@ == self.visible_error_observers(scope),
        decreases scope,
    {
        let mut chain = match self.parent(scope) {
            Some(p) => self.error_observer_chain(p),
            None => Vec::new(),
        };
        if scope < self.nodes.len() {
            let ghost inherited = chain@;
            let own = &self.nodes[scope].error_observers;
            let mut i: usize = 0;
            while i < own.len()
                invariant
                    i <= own@.len(),
                    chain@ == inherited + own@.take(i as int),
                decreases own@.len() - i,
            {
                chain.push(own[i]);
                i += 1;
                assert(own@.take(i as int) =~= own@.take(i - 1).push(own@[i - 1]));
                assert(chain@ =~= inherited + own@.take(i as int));
            }
            assert(own@.take(i as int) =~= own@);
        }
        chain
    }
}

/// A scope that declares no domain guard, or an empty one, is under the
/// guard of its parent; a scope that declares one that is not empty is under
/// its own. So a guard passes down through every level that declares none.
pub proof fn lemma_domain_guard_is_inherited(graph: ScopeGraph, scope: ScopeId)
    requires
        graph.wf(),
        graph.has(scope),
    ensures
        graph.declares_domain(scope) ==> graph.effective_domain_guard(scope) == Some(
            graph.nodes@[scope as int].domain_guard->0@,
        ),
        !graph.declares_domain(scope) && scope != ROOT_SCOPE ==> graph.effective_domain_guard(scope)
            == graph.effective_domain_guard(graph.nodes@[scope as int].parent->0),
        !graph.declares_domain(scope) && scope == ROOT_SCOPE ==> graph.effective_domain_guard(scope) is None,
{
}

/// The root encloses every scope.
pub proof fn lemma_root_encloses_all(graph: ScopeGraph, scope: ScopeId)
    requires
        graph.wf(),
        graph.has(scope),
    ensures
        graph.encloses(ROOT_SCOPE, scope),
    decreases scope,
{
    if scope != ROOT_SCOPE {
        lemma_root_encloses_all(graph, graph.nodes@[scope as int].parent->0);
    }
}

} // verus!

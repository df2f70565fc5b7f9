//! The dispatch table: routes keyed by domain, then by path, then by method,
//! and the fallbacks that take the requests that no route matches.
//!
//! A request is looked up in the routes of its own domain if any route was
//! registered under it, and else in the routes registered under no domain.
//! A request that no route takes goes to the nearest fallback: among the
//! fallbacks of the request's domain, the one with the longest path prefix
//! that the path starts with; if there is none, the same among the fallbacks
//! registered under no domain; if there is none either, the default fallback
//! of the framework. Of two fallbacks with the same prefix the one registered
//! first is taken.

use vstd::prelude::*;
use crate::component::{Method, MethodGuard};
use crate::diagnostic::{ConfigError, ConfigErrorView, Failure};
use crate::matcher::{
    matcher_at, matcher_clone, matcher_insert, matcher_new, matcher_routes, matchit_at, matchit_insert_fault,
    open_braces, PatternFault, MAX_PARAMETERS, MAX_PATTERNS,
};
use crate::model::UserComponentId;
use crate::scope::opt_string_view;

verus! {

/// The methods that one handler serves on a path.
#[derive(Debug, Clone, Copy, PartialEq, Eq, Hash, Structural)]
pub struct MethodRoute {
    pub guard: MethodGuard,
    pub handler_id: UserComponentId,
}

/// A path pattern and the handlers registered on it.
#[derive(Debug, Clone, PartialEq, Eq)]
pub struct PathEntry {
    pub pattern: String,
    pub handlers: Vec<MethodRoute>,
}

/// The routes registered under one domain, or under none.
#[derive(Debug)]
pub struct DomainRouter {
    pub domain: Option<String>,
    pub matcher: matchit::Router<usize>,
    pub paths: Vec<PathEntry>,
}

/// A fallback with the domain and the path prefix it was registered under.
#[derive(Debug, Clone, PartialEq, Eq)]
pub struct FallbackEntry {
    pub fallback_id: UserComponentId,
    pub domain: Option<String>,
    pub path_prefix: String,
}

/// The dispatch table.
#[derive(Debug)]
pub struct RoutingTable {
    pub domains: Vec<DomainRouter>,
    pub fallbacks: Vec<FallbackEntry>,
}

/// Where a request goes.
#[derive(Debug, Clone, Copy, PartialEq, Eq, Hash, Structural)]
pub enum RouteOutcome {
    /// To the handler registered for its path and method.
    Matched { handler_id: UserComponentId },
    /// Its path is registered, but not for its method: to the fallback, with
    /// the methods that the path is registered for.
    MethodNotAllowed { allowed: MethodGuard, fallback_id: Option<UserComponentId> },
    /// No route takes its path: to the fallback.
    NoMatch { fallback_id: Option<UserComponentId> },
}

/// What registering a path that is new to its domain fails with, if it
/// fails, when the matcher of the domain holds `routes`: a path with too many
/// opening braces and a domain with too many paths are turned down before the
/// matcher is asked; after that the matcher decides.
pub open spec fn new_path_failure(
    routes: Seq<(Seq<char>, usize)>,
    path: Seq<char>,
    handler_id: UserComponentId,
) -> Option<ConfigErrorView> {
    if open_braces(path, 0) > MAX_PARAMETERS {
        Some(Failure::InvalidPath { component: handler_id, fault: PatternFault::TooManyParameters })
    } else if routes.len() >= MAX_PATTERNS {
        Some(Failure::InvalidPath { component: handler_id, fault: PatternFault::TooManyPatterns })
    } else {
        match matchit_insert_fault(routes, path) {
            Some(fault) => Some(Failure::InvalidPath { component: handler_id, fault }),
            None => None,
        }
    }
}

/// The first of the first `n` handlers whose methods overlap with `guard`.
pub open spec fn first_overlap(handlers: Seq<MethodRoute>, guard: MethodGuard, n: int) -> Option<int>
    decreases n,
{
    if n <= 0 {
        None
    } else {
        match first_overlap(handlers, guard, n - 1) {
            Some(k) => Some(k),
            None => if n <= handlers.len() && handlers[n - 1].guard.intersects(guard) {
                Some(n - 1)
            } else {
                None
            },
        }
    }
}

/// Every method that one of the first `n` handlers serves.
pub open spec fn allowed_methods(handlers: Seq<MethodRoute>, n: int) -> MethodGuard
    decreases n,
{
    if n <= 0 {
        MethodGuard {
            get: false,
            post: false,
            put: false,
            delete: false,
            head: false,
            options: false,
            patch: false,
            connect: false,
            trace: false,
        }
    } else {
        let rest = allowed_methods(handlers, n - 1);
        if n <= handlers.len() {
            let g = handlers[n - 1].guard;
            MethodGuard {
                get: rest.get || g.get,
                post: rest.post || g.post,
                put: rest.put || g.put,
                delete: rest.delete || g.delete,
                head: rest.head || g.head,
                options: rest.options || g.options,
                patch: rest.patch || g.patch,
                connect: rest.connect || g.connect,
                trace: rest.trace || g.trace,
            }
        } else {
            rest
        }
    }
}

/// Where a request with this method goes once its path was looked up:
/// `handlers` are those of the path that matched, if one did.
pub open spec fn dispatch_outcome(
    handlers: Option<Seq<MethodRoute>>,
    method: Method,
    fallback_id: Option<UserComponentId>,
) -> RouteOutcome {
    match handlers {
        None => RouteOutcome::NoMatch { fallback_id },
        Some(handlers) => match first_overlap(handlers, method_alone(method), handlers.len() as int) {
            Some(k) => RouteOutcome::Matched { handler_id: handlers[k].handler_id },
            None => RouteOutcome::MethodNotAllowed {
                allowed: allowed_methods(handlers, handlers.len() as int),
                fallback_id,
            },
        },
    }
}

/// The set that holds `method` alone.
pub open spec fn method_alone(method: Method) -> MethodGuard {
    MethodGuard {
        get: method == Method::Get,
        post: method == Method::Post,
        put: method == Method::Put,
        delete: method == Method::Delete,
        head: method == Method::Head,
        options: method == Method::Options,
        patch: method == Method::Patch,
        connect: method == Method::Connect,
        trace: method == Method::Trace,
    }
}

impl DomainRouter {
    /// The matcher holds the patterns of the paths, each with its index.
    pub open spec fn wf(self) -> bool {
        &&& matcher_routes(self.matcher).len() == self.paths@.len()
        &&& forall|i: int|
            0 <= i < self.paths@.len() ==> (#[trigger] matcher_routes(self.matcher)[i]) == (
                self.paths@[i].pattern@,
                i as usize,
            )
    }

    /// The first of the first `n` paths with this pattern.
    pub open spec fn path_index(self, pattern: Seq<char>, n: int) -> Option<int>
        decreases n,
    {
        if n <= 0 {
            None
        } else {
            match self.path_index(pattern, n - 1) {
                Some(k) => Some(k),
                None => if n <= self.paths@.len() && self.paths@[n - 1].pattern@ == pattern {
                    Some(n - 1)
                } else {
                    None
                },
            }
        }
    }

    /// The handlers of the path that takes `path`, if one does.
    pub open spec fn handlers_at(self, path: Seq<char>) -> Option<Seq<MethodRoute>> {
        match matchit_at(matcher_routes(self.matcher), path) {
            Some(i) => if i < self.paths@.len() {
                Some(self.paths@[i as int].handlers@)
            } else {
                None
            },
            None => None,
        }
    }
}

impl RoutingTable {
    pub open spec fn wf(self) -> bool {
        forall|d: int| 0 <= d < self.domains@.len() ==> (#[trigger] self.domains@[d]).wf()
    }

    /// The first of the first `n` domain routers registered under `domain`.
    pub open spec fn domain_index(self, domain: Option<Seq<char>>, n: int) -> Option<int>
        decreases n,
    {
        if n <= 0 {
            None
        } else {
            match self.domain_index(domain, n - 1) {
                Some(k) => Some(k),
                None => if n <= self.domains@.len() && opt_string_view(self.domains@[n - 1].domain) == domain {
                    Some(n - 1)
                } else {
                    None
                },
            }
        }
    }

    /// The domain router that a request for `host` is looked up in: that of
    /// its host if there is one, else the one registered under no domain.
    pub open spec fn selected_domain(self, host: Option<Seq<char>>) -> Option<int> {
        match self.domain_index(host, self.domains@.len() as int) {
            Some(d) => Some(d),
            None => self.domain_index(None, self.domains@.len() as int),
        }
    }

    /// Whether fallback `k` was registered under `domain` and with a prefix
    /// that `path` starts with.
    pub open spec fn fallback_covers(self, k: int, domain: Option<Seq<char>>, path: Seq<char>) -> bool {
        &&& 0 <= k < self.fallbacks@.len()
        &&& opt_string_view(self.fallbacks@[k].domain) == domain
        &&& self.fallbacks@[k].path_prefix@.is_prefix_of(path)
    }

    /// Among the first `n` fallbacks that cover the path under `domain`, the
    /// one with the longest prefix, and of several such the first.
    pub open spec fn best_fallback(self, domain: Option<Seq<char>>, path: Seq<char>, n: int) -> Option<int>
        decreases n,
    {
        if n <= 0 {
            None
        } else {
            let rest = self.best_fallback(domain, path, n - 1);
            if self.fallback_covers(n - 1, domain, path) && (rest is None || self.fallbacks@[n
                - 1].path_prefix@.len() > self.fallbacks@[rest->0].path_prefix@.len()) {
                Some(n - 1)
            } else {
                rest
            }
        }
    }

    /// The fallback that takes a request for `host` and `path` that no route
    /// takes. `None` stands for the default fallback of the framework.
    pub open spec fn nearest_fallback(self, host: Option<Seq<char>>, path: Seq<char>) -> Option<UserComponentId> {
        match self.best_fallback(host, path, self.fallbacks@.len() as int) {
            Some(k) => Some(self.fallbacks@[k].fallback_id),
            None => match self.best_fallback(None, path, self.fallbacks@.len() as int) {
                Some(k) => Some(self.fallbacks@[k].fallback_id),
                None => None,
            },
        }
    }

    /// Where a request goes.
    pub open spec fn outcome(self, host: Option<Seq<char>>, method: Method, path: Seq<char>) -> RouteOutcome {
        let handlers = match self.selected_domain(host) {
            Some(d) => self.domains@[d].handlers_at(path),
            None => None,
        };
        dispatch_outcome(handlers, method, self.nearest_fallback(host, path))
    }

    /// What registering a route would fail with, if it would fail: a conflict
    /// if the path is registered under the domain already for one of the
    /// methods, and else whatever fault the matcher finds with a path that is
    /// new to the domain.
    pub open spec fn registration_failure(
        self,
        domain: Option<Seq<char>>,
        path: Seq<char>,
        guard: MethodGuard,
        handler_id: UserComponentId,
    ) -> Option<ConfigErrorView> {
        match self.domain_index(domain, self.domains@.len() as int) {
            Some(d) => match self.domains@[d].path_index(path, self.domains@[d].paths@.len() as int) {
                Some(p) => {
                    let handlers = self.domains@[d].paths@[p].handlers@;
                    match first_overlap(handlers, guard, handlers.len() as int) {
                        Some(k) => Some(Failure::RouteConflict { existing: handlers[k].handler_id, new: handler_id }),
                        None => None,
                    }
                },
                None => new_path_failure(matcher_routes(self.domains@[d].matcher), path, handler_id),
            },
            None => new_path_failure(Seq::empty(), path, handler_id),
        }
    }

    /// Whether `self` is `before` with one route more: on a path that the
    /// domain has already, in a path that is new to the domain, or in a domain
    /// that is new to the table.
    pub open spec fn is_with_route(
        self,
        before: RoutingTable,
        domain: Option<Seq<char>>,
        path: Seq<char>,
        guard: MethodGuard,
        handler_id: UserComponentId,
    ) -> bool {
        let route = MethodRoute { guard, handler_id };
        &&& self.fallbacks == before.fallbacks
        &&& match before.domain_index(domain, before.domains@.len() as int) {
            Some(d) => {
                &&& self.domains@.len() == before.domains@.len()
                &&& forall|i: int| 0 <= i < before.domains@.len() && i != d ==> self.domains@[i] == before.domains@[i]
                &&& self.domains@[d].domain == before.domains@[d].domain
                &&& match before.domains@[d].path_index(path, before.domains@[d].paths@.len() as int) {
                    Some(p) => {
                        &&& self.domains@[d].matcher == before.domains@[d].matcher
                        &&& self.domains@[d].paths@.len() == before.domains@[d].paths@.len()
                        &&& forall|i: int|
                            0 <= i < before.domains@[d].paths@.len() && i != p ==> self.domains@[d].paths@[i]
                                == before.domains@[d].paths@[i]
                        &&& self.domains@[d].paths@[p].pattern == before.domains@[d].paths@[p].pattern
                        &&& self.domains@[d].paths@[p].handlers@ == before.domains@[d].paths@[p].handlers@.push(
                            route,
                        )
                    },
                    None => {
                        &&& matcher_routes(self.domains@[d].matcher) == matcher_routes(
                            before.domains@[d].matcher,
                        ).push((path, before.domains@[d].paths@.len() as usize))
                        &&& self.domains@[d].paths@.len() == before.domains@[d].paths@.len() + 1
                        &&& forall|i: int|
                            0 <= i < before.domains@[d].paths@.len() ==> self.domains@[d].paths@[i]
                                == before.domains@[d].paths@[i]
                        &&& self.domains@[d].paths@.last().pattern@ == path
                        &&& self.domains@[d].paths@.last().handlers@ == seq![route]
                    },
                }
            },
            None => {
                &&& self.domains@.len() == before.domains@.len() + 1
                &&& forall|i: int| 0 <= i < before.domains@.len() ==> self.domains@[i] == before.domains@[i]
                &&& opt_string_view(self.domains@.last().domain) == domain
                &&& matcher_routes(self.domains@.last().matcher) == seq![(path, 0usize)]
                &&& self.domains@.last().paths@.len() == 1
                &&& self.domains@.last().paths@[0].pattern@ == path
                &&& self.domains@.last().paths@[0].handlers@ == seq![route]
            },
        }
    }
}

/// Whether the two optional strings are the same.
pub fn same_domain(a: &Option<String>, b: &Option<String>) -> (r: bool)
    ensures
        r == (opt_string_view(*a) == opt_string_view(*b)),
{
    match a {
        Some(x) => match b {
            Some(y) => *x == *y,
            None => false,
        },
        None => match b {
            Some(_) => false,
            None => true,
        },
    }
}

/// Whether `text` holds more opening braces than a pattern may, a doubled
/// brace counted once.
pub fn has_too_many_parameters(text: &str) -> (r: bool)
    ensures
        r == (open_braces(text@, 0) > MAX_PARAMETERS),
{
    let n = text.unicode_len();
    let mut count: usize = 0;
    let mut i: usize = 0;
    while i < n
        invariant
            i <= n,
            n == text@.len(),
            count + open_braces(text@, i as int) == open_braces(text@, 0),
            count <= i,
        decreases n - i,
    {
        if text.get_char(i) == '{' {
            count += 1;
            if i + 1 < n && text.get_char(i + 1) == '{' {
                i += 2;
            } else {
                i += 1;
            }
        } else {
            i += 1;
        }
    }
    count > MAX_PARAMETERS
}

/// Whether `text` starts with `prefix`.
pub fn starts_with(text: &str, prefix: &str) -> (r: bool)
    ensures
        r == prefix@.is_prefix_of(text@),
{
    let n = prefix.unicode_len();
    if n > text.unicode_len() {
        return false;
    }
    let mut i: usize = 0;
    while i < n
        invariant
            i <= n,
            n == prefix@.len(),
            n <= text@.len(),
            forall|k: int| 0 <= k < i ==> prefix@[k] == text@[k],
        decreases n - i,
    {
        if prefix.get_char(i) != text.get_char(i) {
            assert(prefix@ != text@.subrange(0, prefix@.len() as int)) by {
                if prefix@ == text@.subrange(0, prefix@.len() as int) {
                    assert(text@.subrange(0, prefix@.len() as int)[i as int] == text@[i as int]);
                }
            }
            return false;
        }
        i += 1;
    }
    assert(prefix@ =~= text@.subrange(0, prefix@.len() as int));
    true
}

/// The first handler whose methods overlap with `guard`.
pub fn find_overlap(handlers: &Vec<MethodRoute>, guard: &MethodGuard) -> (found: Option<usize>)
    ensures
        match found {
            Some(k) => first_overlap(handlers@, *guard, handlers@.len() as int) == Some(k as int) && k < handlers@.len(),
            None => first_overlap(handlers@, *guard, handlers@.len() as int) is None,
        },
{
    let mut k: usize = 0;
    while k < handlers.len()
        invariant
            k <= handlers@.len(),
            first_overlap(handlers@, *guard, k as int) is None,
        decreases handlers@.len() - k,
    {
        if handlers[k].guard.overlaps(guard) {
            proof {
                lemma_first_overlap_stays(handlers@, *guard, k as int + 1, handlers@.len() as int);
            }
            return Some(k);
        }
        k += 1;
    }
    None
}

/// Once an overlap is found among the first `n` handlers, it is the one
/// found among more.
pub proof fn lemma_first_overlap_stays(handlers: Seq<MethodRoute>, guard: MethodGuard, n: int, m: int)
    requires
        0 <= n <= m,
        first_overlap(handlers, guard, n) is Some,
    ensures
        first_overlap(handlers, guard, m) == first_overlap(handlers, guard, n),
    decreases m - n,
{
    if n < m {
        lemma_first_overlap_stays(handlers, guard, n, m - 1);
    }
}

/// Every method that one of the handlers serves.
pub fn collect_methods(handlers: &Vec<MethodRoute>) -> (allowed: MethodGuard)
    ensures
        allowed == allowed_methods(handlers@, handlers@.len() as int),
{
    let mut allowed = MethodGuard::none();
    proof {
        crate::component::lemma_method_guard_ext(allowed, allowed_methods(handlers@, 0));
    }
    let mut k: usize = 0;
    while k < handlers.len()
        invariant
            k <= handlers@.len(),
            allowed == allowed_methods(handlers@, k as int),
        decreases handlers@.len() - k,
    {
        let next = allowed.union(&handlers[k].guard);
        proof {
            crate::component::lemma_method_guard_ext(next, allowed_methods(handlers@, k as int + 1));
        }
        allowed = next;
        k += 1;
    }
    allowed
}

/// Where a request with this method goes once its path was looked up:
/// `handlers` are those of the path that matched, if one did.
pub fn dispatch(handlers: Option<&Vec<MethodRoute>>, method: Method, fallback_id: Option<UserComponentId>) -> (outcome:
    RouteOutcome)
    ensures
        outcome == dispatch_outcome(
            match handlers {
                Some(h) => Some(h@),
                None => None,
            },
            method,
            fallback_id,
        ),
{
    match handlers {
        None => RouteOutcome::NoMatch { fallback_id },
        Some(handlers) => {
            let wanted = MethodGuard::single(method);
            proof {
                crate::component::lemma_method_guard_ext(wanted, method_alone(method));
            }
            match find_overlap(handlers, &wanted) {
                Some(k) => RouteOutcome::Matched { handler_id: handlers[k].handler_id },
                None => RouteOutcome::MethodNotAllowed { allowed: collect_methods(handlers), fallback_id },
            }
        },
    }
}

impl DomainRouter {
    /// The first path with this pattern.
    pub fn find_path(&self, pattern: &String) -> (found: Option<usize>)
        ensures
            match found {
                Some(p) => self.path_index(pattern@, self.paths@.len() as int) == Some(p as int) && p
                    < self.paths@.len(),
                None => self.path_index(pattern@, self.paths@.len() as int) is None,
            },
    {
        let mut p: usize = 0;
        while p < self.paths.len()
            invariant
                p <= self.paths@.len(),
                self.path_index(pattern@, p as int) is None,
            decreases self.paths@.len() - p,
        {
            if self.paths[p].pattern == *pattern {
                proof {
                    self.lemma_path_index_stays(pattern@, p as int + 1, self.paths@.len() as int);
                }
                return Some(p);
            }
            p += 1;
        }
        None
    }

    /// Once a path is found among the first `n`, it is the one found among
    /// more.
    pub proof fn lemma_path_index_stays(self, pattern: Seq<char>, n: int, m: int)
        requires
            0 <= n <= m,
            self.path_index(pattern, n) is Some,
        ensures
            self.path_index(pattern, m) == self.path_index(pattern, n),
        decreases m - n,
    {
        if n < m {
            self.lemma_path_index_stays(pattern, n, m - 1);
        }
    }

    /// The handlers of the path that takes `path`, if one does.
    pub fn lookup_path(&self, path: &str) -> (handlers: Option<&Vec<MethodRoute>>)
        ensures
            match handlers {
                Some(h) => self.handlers_at(path@) == Some(h@),
                None => self.handlers_at(path@) is None,
            },
    {
        match matcher_at(&self.matcher, path) {
            Some(i) => {
                if i < self.paths.len() {
                    Some(&self.paths[i].handlers)
                } else {
                    None
                }
            },
            None => None,
        }
    }
}

impl RoutingTable {
    /// A table without routes and without fallbacks.
    pub fn new() -> (table: Self)
        ensures
            table.wf(),
            table.domains@.len() == 0,
            table.fallbacks@.len() == 0,
    {
        RoutingTable { domains: Vec::new(), fallbacks: Vec::new() }
    }

    /// The first domain router registered under `domain`.
    pub fn find_domain(&self, domain: &Option<String>) -> (found: Option<usize>)
        ensures
            match found {
                Some(d) => self.domain_index(opt_string_view(*domain), self.domains@.len() as int) == Some(d as int)
                    && d < self.domains@.len(),
                None => self.domain_index(opt_string_view(*domain), self.domains@.len() as int) is None,
            },
    {
        let mut d: usize = 0;
        while d < self.domains.len()
            invariant
                d <= self.domains@.len(),
                self.domain_index(opt_string_view(*domain), d as int) is None,
            decreases self.domains@.len() - d,
        {
            if same_domain(&self.domains[d].domain, domain) {
                proof {
                    self.lemma_domain_index_stays(opt_string_view(*domain), d as int + 1, self.domains@.len() as int);
                }
                return Some(d);
            }
            d += 1;
        }
        None
    }

    /// Once a domain router is found among the first `n`, it is the one found
    /// among more.
    pub proof fn lemma_domain_index_stays(self, domain: Option<Seq<char>>, n: int, m: int)
        requires
            0 <= n <= m,
            self.domain_index(domain, n) is Some,
        ensures
            self.domain_index(domain, m) == self.domain_index(domain, n),
        decreases m - n,
    {
        if n < m {
            self.lemma_domain_index_stays(domain, n, m - 1);
        }
    }

    /// Registers a fallback under a domain and a path prefix, after those
    /// registered so far.
    pub fn register_fallback(&mut self, domain: Option<String>, path_prefix: String, fallback_id: UserComponentId)
        requires
            old(self).wf(),
        ensures
            final(self).wf(),
            final(self).domains == old(self).domains,
            final(self).fallbacks@ == old(self).fallbacks@.push(FallbackEntry { fallback_id, domain, path_prefix }),
    {
        self.fallbacks.push(FallbackEntry { fallback_id, domain, path_prefix });
    }

    /// Registers a handler for the methods of `guard` on `path` under
    /// `domain`. The table is left as it was if the registration fails.
    pub fn register_route(
        &mut self,
        domain: Option<String>,
        path: String,
        guard: MethodGuard,
        handler_id: UserComponentId,
    ) -> (r: Result<(), ConfigError>)
        requires
            old(self).wf(),
        ensures
            final(self).wf(),
            match r {
                Ok(()) => {
                    &&& old(self).registration_failure(opt_string_view(domain), path@, guard, handler_id) is None
                    &&& final(self).is_with_route(*old(self), opt_string_view(domain), path@, guard, handler_id)
                },
                Err(e) => {
                    &&& old(self).registration_failure(opt_string_view(domain), path@, guard, handler_id) == Some(e@)
                    &&& *final(self) == *old(self)
                },
            },
    {
        let route = MethodRoute { guard, handler_id };
        match self.find_domain(&domain) {
            Some(d) => {
                match self.domains[d].find_path(&path) {
                    Some(p) => {
                        match find_overlap(&self.domains[d].paths[p].handlers, &guard) {
                            Some(k) => {
                                let existing = self.domains[d].paths[p].handlers[k].handler_id;
                                Err(Failure::RouteConflict { existing, new: handler_id })
                            },
                            None => {
                                self.domains[d].paths[p].handlers.push(route);
                                Ok(())
                            },
                        }
                    },
                    None => {
                        if has_too_many_parameters(path.as_str()) {
                            return Err(
                                Failure::InvalidPath { component: handler_id, fault: PatternFault::TooManyParameters },
                            );
                        }
                        let index = self.domains[d].paths.len();
                        if index >= MAX_PATTERNS {
                            return Err(
                                Failure::InvalidPath { component: handler_id, fault: PatternFault::TooManyPatterns },
                            );
                        }
                        let mut trial = matcher_clone(&self.domains[d].matcher);
                        match matcher_insert(&mut trial, path.as_str(), index) {
                            Ok(()) => {
                                let mut handlers = Vec::new();
                                handlers.push(route);
                                self.domains[d].matcher = trial;
                                self.domains[d].paths.push(PathEntry { pattern: path, handlers });
                                Ok(())
                            },
                            Err(fault) => Err(Failure::InvalidPath { component: handler_id, fault }),
                        }
                    },
                }
            },
            None => {
                if has_too_many_parameters(path.as_str()) {
                    return Err(Failure::InvalidPath { component: handler_id, fault: PatternFault::TooManyParameters });
                }
                let mut matcher = matcher_new();
                match matcher_insert(&mut matcher, path.as_str(), 0) {
                    Ok(()) => {
                        let mut handlers = Vec::new();
                        handlers.push(route);
                        let mut paths = Vec::new();
                        paths.push(PathEntry { pattern: path, handlers });
                        self.domains.push(DomainRouter { domain, matcher, paths });
                        Ok(())
                    },
                    Err(fault) => Err(Failure::InvalidPath { component: handler_id, fault }),
                }
            },
        }
    }

    /// The fallback with the longest prefix among those that cover `path`
    /// under `domain`.
    pub fn find_fallback(&self, domain: &Option<String>, path: &str) -> (found: Option<usize>)
        ensures
            match found {
                Some(k) => self.best_fallback(opt_string_view(*domain), path@, self.fallbacks@.len() as int) == Some(
                    k as int,
                ) && k < self.fallbacks@.len(),
                None => self.best_fallback(opt_string_view(*domain), path@, self.fallbacks@.len() as int) is None,
            },
    {
        let mut best: Option<usize> = None;
        let mut best_len: usize = 0;
        let mut k: usize = 0;
        while k < self.fallbacks.len()
            invariant
                k <= self.fallbacks@.len(),
                match best {
                    Some(b) => self.best_fallback(opt_string_view(*domain), path@, k as int) == Some(b as int) && b < k
                        && best_len == self.fallbacks@[b as int].path_prefix@.len(),
                    None => self.best_fallback(opt_string_view(*domain), path@, k as int) is None,
                },
            decreases self.fallbacks@.len() - k,
        {
            let entry = &self.fallbacks[k];
            if same_domain(&entry.domain, domain) && starts_with(path, entry.path_prefix.as_str()) {
                let len = entry.path_prefix.as_str().unicode_len();
                let longer = match best {
                    Some(_) => len > best_len,
                    None => true,
                };
                if longer {
                    best = Some(k);
                    best_len = len;
                }
            }
            k += 1;
        }
        best
    }

    /// The fallback that takes a request for `host` and `path` that no route
    /// takes. `None` stands for the default fallback of the framework.
    pub fn fallback_for(&self, host: &Option<String>, path: &str) -> (fallback_id: Option<UserComponentId>)
        ensures
            fallback_id == self.nearest_fallback(opt_string_view(*host), path@),
    {
        match self.find_fallback(host, path) {
            Some(k) => Some(self.fallbacks[k].fallback_id),
            None => {
                let nowhere: Option<String> = None;
                match self.find_fallback(&nowhere, path) {
                    Some(k) => Some(self.fallbacks[k].fallback_id),
                    None => None,
                }
            },
        }
    }

    /// Where a request for `host`, with this method and this path, goes.
    pub fn route(&self, host: &Option<String>, method: Method, path: &str) -> (outcome: RouteOutcome)
        ensures
            outcome == self.outcome(opt_string_view(*host), method, path@),
    {
        let fallback_id = self.fallback_for(host, path);
        let selected = match self.find_domain(host) {
            Some(d) => Some(d),
            None => {
                let nowhere: Option<String> = None;
                self.find_domain(&nowhere)
            },
        };
        match selected {
            Some(d) => dispatch(self.domains[d].lookup_path(path), method, fallback_id),
            None => dispatch(None, method, fallback_id),
        }
    }
}

/// The first overlap is an overlap, and no handler before it overlaps.
pub proof fn lemma_first_overlap(handlers: Seq<MethodRoute>, guard: MethodGuard, n: int)
    requires
        0 <= n <= handlers.len(),
    ensures
        match first_overlap(handlers, guard, n) {
            Some(k) => 0 <= k < n && handlers[k].guard.intersects(guard) && forall|j: int|
                0 <= j < k ==> !(#[trigger] handlers[j]).guard.intersects(guard),
            None => forall|j: int| 0 <= j < n ==> !(#[trigger] handlers[j]).guard.intersects(guard),
        },
    decreases n,
{
    if n > 0 {
        lemma_first_overlap(handlers, guard, n - 1);
    }
}

/// The methods allowed on a path are those that one of its handlers serves.
pub proof fn lemma_allowed_methods(handlers: Seq<MethodRoute>, n: int, method: Method)
    requires
        0 <= n <= handlers.len(),
    ensures
        allowed_methods(handlers, n).allows(method) <==> exists|k: int|
            0 <= k < n && (#[trigger] handlers[k]).guard.allows(method),
    decreases n,
{
    if n > 0 {
        lemma_allowed_methods(handlers, n - 1, method);
        if allowed_methods(handlers, n).allows(method) {
            if handlers[n - 1].guard.allows(method) {
            } else {
                assert(allowed_methods(handlers, n - 1).allows(method));
                let k = choose|k: int| 0 <= k < n - 1 && (#[trigger] handlers[k]).guard.allows(method);
                assert(handlers[k].guard.allows(method));
            }
        }
        if exists|k: int| 0 <= k < n && (#[trigger] handlers[k]).guard.allows(method) {
            let k = choose|k: int| 0 <= k < n && (#[trigger] handlers[k]).guard.allows(method);
            if k < n - 1 {
                assert(handlers[k].guard.allows(method));
            }
        }
    }
}

/// A request whose path is registered, but for other methods only, is not
/// allowed: it goes to the fallback with exactly the methods that the path
/// is registered for.
pub proof fn lemma_unregistered_method_is_not_allowed(
    handlers: Seq<MethodRoute>,
    method: Method,
    fallback_id: Option<UserComponentId>,
)
    requires
        forall|k: int| 0 <= k < handlers.len() ==> !(#[trigger] handlers[k]).guard.allows(method),
    ensures
        dispatch_outcome(Some(handlers), method, fallback_id) == (RouteOutcome::MethodNotAllowed {
            allowed: allowed_methods(handlers, handlers.len() as int),
            fallback_id,
        }),
        forall|m: Method|
            allowed_methods(handlers, handlers.len() as int).allows(m) <==> exists|k: int|
                0 <= k < handlers.len() && (#[trigger] handlers[k]).guard.allows(m),
{
    lemma_first_overlap(handlers, method_alone(method), handlers.len() as int);
    match first_overlap(handlers, method_alone(method), handlers.len() as int) {
        Some(k) => {
            let m = choose|m: Method| handlers[k].guard.allows(m) && method_alone(method).allows(m);
            assert(m == method);
            assert(handlers[k].guard.allows(method));
        },
        None => {},
    }
    assert forall|m: Method|
        allowed_methods(handlers, handlers.len() as int).allows(m) <==> exists|k: int|
            0 <= k < handlers.len() && (#[trigger] handlers[k]).guard.allows(m) by {
        lemma_allowed_methods(handlers, handlers.len() as int, m);
    }
}

/// A request for a method that a handler of its path serves goes to the
/// first such handler.
pub proof fn lemma_registered_method_is_matched(
    handlers: Seq<MethodRoute>,
    method: Method,
    fallback_id: Option<UserComponentId>,
    k: int,
)
    requires
        0 <= k < handlers.len(),
        handlers[k].guard.allows(method),
        forall|j: int| 0 <= j < k ==> !(#[trigger] handlers[j]).guard.allows(method),
    ensures
        dispatch_outcome(Some(handlers), method, fallback_id) == (RouteOutcome::Matched {
            handler_id: handlers[k].handler_id,
        }),
{
    lemma_first_overlap(handlers, method_alone(method), handlers.len() as int);
    assert(method_alone(method).allows(method));
    assert(handlers[k].guard.intersects(method_alone(method)));
    match first_overlap(handlers, method_alone(method), handlers.len() as int) {
        Some(f) => {
            let m = choose|m: Method| handlers[f].guard.allows(m) && method_alone(method).allows(m);
            assert(m == method);
            assert(handlers[f].guard.allows(method));
            assert(f == k);
        },
        None => {
            assert(!handlers[k].guard.intersects(method_alone(method)));
        },
    }
}

impl RoutingTable {
    /// Handlers for disjoint sets of methods coexist on one path of one
    /// domain: registering a handler on a path that the domain has already
    /// succeeds if its methods overlap with those of no handler of the path.
    pub proof fn lemma_disjoint_methods_coexist(
        self,
        domain: Option<Seq<char>>,
        path: Seq<char>,
        guard: MethodGuard,
        handler_id: UserComponentId,
    )
        requires
            self.domain_index(domain, self.domains@.len() as int) matches Some(d) && (self.domains@[d].path_index(
                path,
                self.domains@[d].paths@.len() as int,
            ) matches Some(p) && forall|k: int|
                0 <= k < self.domains@[d].paths@[p].handlers@.len() ==> !(
                #[trigger] self.domains@[d].paths@[p].handlers@[k]).guard.intersects(guard)),
        ensures
            self.registration_failure(domain, path, guard, handler_id) is None,
    {
        let d = self.domain_index(domain, self.domains@.len() as int)->0;
        let p = self.domains@[d].path_index(path, self.domains@[d].paths@.len() as int)->0;
        let handlers = self.domains@[d].paths@[p].handlers@;
        lemma_first_overlap(handlers, guard, handlers.len() as int);
    }

    /// Registering a handler on a path of a domain for a method that a
    /// handler of that path serves already is a route conflict with the first
    /// such handler.
    pub proof fn lemma_same_method_twice_conflicts(
        self,
        domain: Option<Seq<char>>,
        path: Seq<char>,
        guard: MethodGuard,
        handler_id: UserComponentId,
        k: int,
    )
        requires
            self.domain_index(domain, self.domains@.len() as int) matches Some(d) && (self.domains@[d].path_index(
                path,
                self.domains@[d].paths@.len() as int,
            ) matches Some(p) && 0 <= k < self.domains@[d].paths@[p].handlers@.len()
                && self.domains@[d].paths@[p].handlers@[k].guard.intersects(guard)),
        ensures
            self.registration_failure(domain, path, guard, handler_id) matches Some(
                Failure::RouteConflict { existing, new },
            ) && new == handler_id,
    {
        let d = self.domain_index(domain, self.domains@.len() as int)->0;
        let p = self.domains@[d].path_index(path, self.domains@[d].paths@.len() as int)->0;
        let handlers = self.domains@[d].paths@[p].handlers@;
        lemma_first_overlap(handlers, guard, handlers.len() as int);
    }

    /// The fallback chosen covers the path under the domain, no fallback that
    /// covers it has a longer prefix, and none registered before it has one as
    /// long.
    pub proof fn lemma_best_fallback(self, domain: Option<Seq<char>>, path: Seq<char>, n: int)
        requires
            0 <= n <= self.fallbacks@.len(),
        ensures
            match self.best_fallback(domain, path, n) {
                Some(b) => {
                    &&& 0 <= b < n
                    &&& self.fallback_covers(b, domain, path)
                    &&& forall|k: int|
                        0 <= k < n && self.fallback_covers(k, domain, path) ==> (
                        #[trigger] self.fallbacks@[k]).path_prefix@.len() <= self.fallbacks@[b].path_prefix@.len()
                    &&& forall|k: int|
                        0 <= k < b && self.fallback_covers(k, domain, path) ==> (
                        #[trigger] self.fallbacks@[k]).path_prefix@.len() < self.fallbacks@[b].path_prefix@.len()
                },
                None => forall|k: int| 0 <= k < n ==> !self.fallback_covers(k, domain, path),
            },
        decreases n,
    {
        if n > 0 {
            self.lemma_best_fallback(domain, path, n - 1);
        }
    }
}

} // verus!

//! The typed failures that a build reports, and the sink that collects them.

use vstd::prelude::*;
use crate::component::ParseError;
use crate::matcher::PatternFault;
use crate::model::{ScopeId, TypeId, UserComponentId};

verus! {

/// A configuration error. `L` is the type of the lists it carries: a `Vec` in
/// executable code, a `Seq` in specifications.
#[derive(Debug, Clone, PartialEq, Eq)]
pub enum Failure<L> {
    /// No visible component produces the type that `consumer` needs.
    MissingConstructor { ty: TypeId, consumer: UserComponentId },
    /// More than one visible component produces the type that `consumer` needs.
    AmbiguousConstructor { ty: TypeId, consumer: UserComponentId, candidates: L },
    /// Building the first participant needs the second, and so on, and building
    /// the last needs the first.
    Cycle { participants: L },
    /// Several consumers need the same value of this type, at least one of
    /// them to itself, and the value cannot be cloned.
    AliasingConflict { ty: TypeId, consumers: L },
    /// Two request handlers serve the same method on the same path and domain.
    RouteConflict { existing: UserComponentId, new: UserComponentId },
    /// A fallible component has no error handler.
    MissingErrorHandler { fallible: UserComponentId },
    /// The path pattern of a route was turned down.
    InvalidPath { component: UserComponentId, fault: PatternFault },
    /// The domain guard of a scope is not a host name.
    MalformedDomain { scope: ScopeId },
    /// The import path that a component was registered with could not be
    /// resolved.
    InvalidImportPath { component: UserComponentId, error: ParseError },
}

/// A configuration error as executable code holds it.
pub type ConfigError = Failure<Vec<usize>>;

/// A configuration error as specifications speak of it.
pub type ConfigErrorView = Failure<Seq<usize>>;

impl View for Failure<Vec<usize>> {
    type V = Failure<Seq<usize>>;

    open spec fn view(&self) -> Failure<Seq<usize>> {
        match *self {
            Failure::MissingConstructor { ty, consumer } => Failure::MissingConstructor { ty, consumer },
            Failure::AmbiguousConstructor { ty, consumer, candidates } => Failure::AmbiguousConstructor {
                ty,
                consumer,
                candidates: candidates@,
            },
            Failure::Cycle { participants } => Failure::Cycle { participants: participants@ },
            Failure::AliasingConflict { ty, consumers } => Failure::AliasingConflict { ty, consumers: consumers@ },
            Failure::RouteConflict { existing, new } => Failure::RouteConflict { existing, new },
            Failure::MissingErrorHandler { fallible } => Failure::MissingErrorHandler { fallible },
            Failure::InvalidPath { component, fault } => Failure::InvalidPath { component, fault },
            Failure::MalformedDomain { scope } => Failure::MalformedDomain { scope },
            Failure::InvalidImportPath { component, error } => Failure::InvalidImportPath { component, error },
        }
    }
}

/// The failures of a list, each by its view.
pub open spec fn failures_view(errors: Seq<ConfigError>) -> Seq<ConfigErrorView> {
    errors.map_values(|e: ConfigError| e@)
}

/// An accumulator for the failures of a build.
pub struct DiagnosticSink {
    diagnostics: Vec<ConfigError>,
}

impl View for DiagnosticSink {
    type V = Seq<ConfigErrorView>;

    closed spec fn view(&self) -> Seq<ConfigErrorView> {
        failures_view(self.diagnostics@)
    }
}

impl DiagnosticSink {
    /// An empty sink.
    pub fn new() -> (sink: Self)
        ensures
            sink@ == Seq::<ConfigErrorView>::empty(),
    {
        let sink = DiagnosticSink { diagnostics: Vec::new() };
        assert(sink@ =~= Seq::<ConfigErrorView>::empty());
        sink
    }

    /// Adds a failure after those collected so far.
    pub fn push(&mut self, diagnostic: ConfigError)
        ensures
            final(self)@ == old(self)@.push(diagnostic@),
    {
        self.diagnostics.push(diagnostic);
        assert(self@ =~= old(self)@.push(diagnostic@));
    }

    /// The failures collected so far, in the order they were pushed.
    pub fn diagnostics(&self) -> (all: &Vec<ConfigError>)
        ensures
            failures_view(all@) == self@,
    {
        &self.diagnostics
    }

    /// Whether no failure was collected.
    pub fn is_empty(&self) -> (r: bool)
        ensures
            r == (self@.len() == 0),
    {
        self.diagnostics.len() == 0
    }

    /// The number of failures collected.
    pub fn len(&self) -> (n: usize)
        ensures
            n == self@.len(),
    {
        self.diagnostics.len()
    }
}

} // verus!

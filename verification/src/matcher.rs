//! Path patterns are matched by the `matchit` crate. This module declares its
//! router type and states what the library relies on; nothing here is proved.

use vstd::prelude::*;

verus! {

/// Why a path pattern was turned down.
#[derive(Debug, Clone, Copy, PartialEq, Eq, Hash, Structural)]
pub enum PatternFault {
    /// The pattern overlaps with a pattern registered earlier.
    Conflict,
    /// A path segment holds more than one parameter.
    InvalidParamSegment,
    /// A parameter has no valid name, or its braces do not match.
    InvalidParam,
    /// A catch-all parameter is not at the end of the pattern.
    InvalidCatchAll,
    /// The pattern holds more opening braces than a pattern may hold
    /// parameters.
    TooManyParameters,
    /// The domain holds as many patterns as a matcher can take.
    TooManyPatterns,
    /// A fault this library has no name for.
    Other,
}

/// The most opening braces that a pattern may hold, a doubled brace counted
/// once: the matcher names the parameters of a pattern by the letters of the
/// alphabet and gives up on the twenty-sixth.
pub const MAX_PARAMETERS: usize = 25;

/// The most patterns that a matcher may hold: it counts them in 32 bits.
pub const MAX_PATTERNS: usize = 0xFFFF_FFFE;

/// How many opening braces `text` holds from place `from` on, where a
/// doubled brace, which stands for the character itself, counts once. A
/// brace is paired with the one that follows it, from the left. Every
/// parameter of a pattern starts with a brace of its own, so a pattern has
/// no more parameters than this.
pub open spec fn open_braces(text: Seq<char>, from: int) -> nat
    decreases text.len() - from,
{
    if from < 0 || from >= text.len() {
        0
    } else if text[from] == '{' {
        if from + 1 < text.len() && text[from + 1] == '{' {
            open_braces(text, from + 2) + 1
        } else {
            open_braces(text, from + 1) + 1
        }
    } else {
        open_braces(text, from + 1)
    }
}

#[verifier::external_type_specification]
#[verifier::external_body]
#[verifier::reject_recursive_types(T)]
pub struct ExMatchitRouter<T>(matchit::Router<T>);

/// The patterns that a matcher has accepted since it was made, each with
/// the value it was inserted with, in the order of their insertion.
pub uninterp spec fn matcher_routes(m: matchit::Router<usize>) -> Seq<(Seq<char>, usize)>;

/// The fault, if any, that `matchit::Router::insert` reports for `pattern`
/// when the matcher holds `routes`.
pub uninterp spec fn matchit_insert_fault(routes: Seq<(Seq<char>, usize)>, pattern: Seq<char>) -> Option<PatternFault>;

/// The value that `matchit::Router::at` finds for `path` when the matcher
/// holds `routes`.
pub uninterp spec fn matchit_at(routes: Seq<(Seq<char>, usize)>, path: Seq<char>) -> Option<usize>;

/// `matchit::Router::new`: a matcher that holds no pattern.
#[verifier::external_body]
pub(crate) fn matcher_new() -> (m: matchit::Router<usize>)
    ensures
        matcher_routes(m) == Seq::<(Seq<char>, usize)>::empty(),
{
    matchit::Router::new()
}

/// `Clone::clone` of `matchit::Router`: the copy holds the same patterns.
#[verifier::external_body]
pub(crate) fn matcher_clone(m: &matchit::Router<usize>) -> (c: matchit::Router<usize>)
    ensures
        matcher_routes(c) == matcher_routes(*m),
{
    m.clone()
}

/// `matchit::Router::insert`: whether the pattern is accepted depends on the
/// pattern and on the patterns held so far. An accepted pattern is held after
/// those. Nothing is claimed of the matcher after a refusal. The call panics
/// on the twenty-sixth parameter of a pattern. It first writes every doubled
/// brace as one, and each parameter it then finds starts at an opening brace
/// of what is left, so a pattern with at most 25 of those is safe. It counts
/// the patterns in 32 bits. Both are left out.
#[verifier::external_body]
pub(crate) fn matcher_insert(m: &mut matchit::Router<usize>, pattern: &str, value: usize) -> (r: Result<(), PatternFault>)
    requires
        open_braces(pattern@, 0) <= MAX_PARAMETERS,
        matcher_routes(*old(m)).len() < MAX_PATTERNS,
    ensures
        r == match matchit_insert_fault(matcher_routes(*old(m)), pattern@) {
            Some(fault) => Err::<(), PatternFault>(fault),
            None => Ok::<(), PatternFault>(()),
        },
        r is Ok ==> matcher_routes(*final(m)) == matcher_routes(*old(m)).push((pattern@, value)),
{
    match m.insert(pattern, value) {
        Ok(()) => Ok(()),
        Err(matchit::InsertError::Conflict { .. }) => Err(PatternFault::Conflict),
        Err(matchit::InsertError::InvalidParamSegment) => Err(PatternFault::InvalidParamSegment),
        Err(matchit::InsertError::InvalidParam) => Err(PatternFault::InvalidParam),
        Err(matchit::InsertError::InvalidCatchAll) => Err(PatternFault::InvalidCatchAll),
        Err(_) => Err(PatternFault::Other),
    }
}

/// `matchit::Router::at`: the value found depends on the path and on the
/// patterns held; a value found is the value of one of them.
#[verifier::external_body]
pub(crate) fn matcher_at(m: &matchit::Router<usize>, path: &str) -> (r: Option<usize>)
    ensures
        r == matchit_at(matcher_routes(*m), path@),
        r matches Some(v) ==> exists|i: int| 0 <= i < matcher_routes(*m).len() && (#[trigger] matcher_routes(*m)[i]).1 == v,
{
    match m.at(path) {
        Ok(found) => Some(*found.value),
        Err(_) => None,
    }
}

} // verus!

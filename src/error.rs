//! Errors of the query grammar.

use vstd::prelude::*;

verus! {

/// Why a query string, or a query compiled from it, was rejected.
#[derive(Debug, Clone, Copy, PartialEq, Eq, Structural)]
pub enum ParseError {
    /// A sort token without a `-` between field and direction.
    InvalidSort,
    /// A sort direction other than `asc` or `desc`.
    InvalidSortBy,
    /// A filter token that is not exactly `field-condition-value`.
    InvalidFilter,
    /// A condition code other than `eq`, `ne`, `gt`, `ge`, `lt`, `le`.
    InvalidCondition,
    /// A filter or sort field outside the endpoint's allowlist.
    InvalidField,
    /// A limit that is not a run of ASCII digits.
    InvalidLimit,
    /// An offset that is not a run of ASCII digits.
    InvalidOffset,
    /// More equality entries and filters than placeholders can be numbered for.
    TooManyParameters,
}

} // verus!

verus! {

/// A result with its success value replaced by that value's view.
pub open spec fn viewed<T: View, E>(r: Result<T, E>) -> Result<T::V, E> {
    match r {
        Ok(t) => Ok(t@),
        Err(e) => Err(e),
    }
}

} // verus!

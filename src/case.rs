//! Conversion of camelCase API field names into snake_case column names.

use convert_case::{Case, Casing};
use vstd::prelude::*;

verus! {

/// The snake_case form of `s`, as convert_case computes it.
pub uninterp spec fn snake_of(s: Seq<char>) -> Seq<char>;

/// Relies on convert_case's `Casing::to_case` with `Case::Snake`: its result
/// depends on the characters of `s` alone.
#[verifier::external_body]
pub(crate) fn to_snake(s: &str) -> (r: String)
    ensures
        r@ == snake_of(s@),
{
    s.to_case(Case::Snake)
}

} // verus!

//! Identifier casings for the emitted source text.  The conversions come
//! from the convert_case crate; each result is a pure function of the
//! input characters, named here so that contracts can speak of it exactly.

use vstd::prelude::*;
use convert_case::{Case, Casing};

verus! {

/// What convert_case yields for `Case::UpperSnake` on a given input.
pub uninterp spec fn upper_snake_of(s: Seq<char>) -> Seq<char>;

/// What convert_case yields for `Case::Snake` on a given input.
pub uninterp spec fn snake_of(s: Seq<char>) -> Seq<char>;

/// What convert_case yields for `Case::UpperCamel` on a given input.
pub uninterp spec fn upper_camel_of(s: Seq<char>) -> Seq<char>;

/// Relies on convert_case's `Casing::to_case` with `Case::UpperSnake`:
/// the result depends on the input characters alone.
#[verifier::external_body]
pub(crate) fn to_upper_snake(s: &str) -> (r: String)
    ensures
        r@ == upper_snake_of(s@),
{
    s.to_case(Case::UpperSnake)
}

/// Relies on convert_case's `Casing::to_case` with `Case::Snake`:
/// the result depends on the input characters alone.
#[verifier::external_body]
pub(crate) fn to_snake(s: &str) -> (r: String)
    ensures
        r@ == snake_of(s@),
{
    s.to_case(Case::Snake)
}

/// Relies on convert_case's `Casing::to_case` with `Case::UpperCamel`:
/// the result depends on the input characters alone.
#[verifier::external_body]
pub(crate) fn to_upper_camel(s: &str) -> (r: String)
    ensures
        r@ == upper_camel_of(s@),
{
    s.to_case(Case::UpperCamel)
}

} // verus!

//! What this crate takes on trust from the standard library's strings.
//!
//! The functions below have no verified body. Each contract restates what
//! the documentation of the method says, or gives its result a name.

use vstd::prelude::*;

verus! {

/// What `str::parse::<u128>` makes of a text.
pub uninterp spec fn parsed_u128(text: Seq<char>) -> Option<u128>;

/// Parses a number with `str::parse::<u128>`; a text that it refuses gives
/// `None`.
#[verifier::external_body]
pub(crate) fn parse_u128(text: &str) -> (r: Option<u128>)
    ensures
        r == parsed_u128(text@),
{
    text.parse::<u128>().ok()
}

/// Takes `prefix` off the front of `text` with `str::strip_prefix`: the
/// rest where `text` starts with `prefix`, else `None`.
#[verifier::external_body]
pub(crate) fn strip_prefix<'a>(text: &'a str, prefix: &str) -> (r: Option<&'a str>)
    ensures
        match r {
            Some(rest) => text@ == prefix@ + rest@,
            None => !prefix@.is_prefix_of(text@),
        },
{
    text.strip_prefix(prefix)
}

/// Compares two string slices with `str`'s `==`: they are equal exactly if
/// they hold the same characters.
#[verifier::external_body]
pub(crate) fn same_text(a: &str, b: &str) -> (r: bool)
    ensures
        r == (a@ == b@),
{
    a == b
}

} // verus!

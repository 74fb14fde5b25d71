//! What the library has from std's strings.

use crate::alphabet::{fold_text, CaseFold};
use vstd::prelude::*;

verus! {

/// Calls `str::to_ascii_lowercase` of std: the result is the text with `A` to
/// `Z` replaced by `a` to `z`, and every other character as it was.
#[verifier::external_body]
pub(crate) fn to_lower(text: &str) -> (out: String)
    ensures
        out@ == fold_text(CaseFold::Lower, text@),
{
    text.to_ascii_lowercase()
}

/// Calls `str::to_ascii_uppercase` of std: the result is the text with `a` to
/// `z` replaced by `A` to `Z`, and every other character as it was.
#[verifier::external_body]
pub(crate) fn to_upper(text: &str) -> (out: String)
    ensures
        out@ == fold_text(CaseFold::Upper, text@),
{
    text.to_ascii_uppercase()
}

/// Calls `String::push` of std: the character is added at the end.
#[verifier::external_body]
pub(crate) fn push_char(text: &mut String, c: char)
    ensures
        final(text)@ == old(text)@.push(c),
{
    text.push(c)
}

} // verus!

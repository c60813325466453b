//! What this crate takes from `std`'s strings beyond what vstd specifies.

use vstd::prelude::*;

verus! {

/// `String::push` appends the character to the end of the string.
pub assume_specification[ String::push ](s: &mut String, c: char)
    ensures
        final(s)@ == old(s)@.push(c),
;

/// The lowercase form of a string, as `str::to_lowercase` computes it from
/// the Unicode case mappings. It depends on the characters alone.
pub uninterp spec fn lowercase(s: Seq<char>) -> Seq<char>;

/// Calls `str::to_lowercase`. Nothing is proved here: the contract only
/// gives the result its name, `lowercase`.
#[verifier::external_body]
pub(crate) fn to_lowercase(s: &str) -> (r: String)
    ensures
        r@ == lowercase(s@),
{
    s.to_lowercase()
}

} // verus!

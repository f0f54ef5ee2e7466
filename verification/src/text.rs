//! The two operations on text that the library leaves to the standard
//! library: lower case and trimming. Both follow Unicode's tables, so what
//! they return is named here and not spelled out.

use vstd::prelude::*;

verus! {

/// The text in lower case, as `str::to_lowercase` returns it.
pub uninterp spec fn lowercase(text: Seq<char>) -> Seq<char>;

/// The text without the white space at its start and at its end, as
/// `str::trim` returns it.
pub uninterp spec fn trimmed(text: Seq<char>) -> Seq<char>;

/// Whether `part` is some of the characters of `whole`, one after another.
pub open spec fn is_slice_of(part: Seq<char>, whole: Seq<char>) -> bool {
    exists|from: int, to: int|
        0 <= from <= to <= whole.len() && part == #[trigger] whole.subrange(from, to)
}

/// Returns the text in lower case. Calls `str::to_lowercase`. Taken on
/// trust: the result is the one value that this function gives for the text.
#[verifier::external_body]
pub(crate) fn to_lowercase(text: &str) -> (r: String)
    ensures
        r@ == lowercase(text@),
{
    text.to_lowercase()
}

/// Returns the text without leading and trailing white space. Calls
/// `str::trim`. Taken on trust: the result is the one value that this
/// function gives for the text, and it is a slice of the text: some of its
/// characters, one after another, and so no longer than the text.
#[verifier::external_body]
pub(crate) fn trim(text: &str) -> (r: &str)
    ensures
        r@ == trimmed(text@),
        r@.len() <= text@.len(),
        is_slice_of(r@, text@),
{
    text.trim()
}

} // verus!

//! Case folding: the lower-casing of the standard library, taken on trust.

use vstd::prelude::*;
use vstd::string::*;

verus! {

/// The lower-case equivalent of `text` as `str::to_lowercase` computes it
/// from the Unicode character tables.
pub uninterp spec fn lowercase_of(text: Seq<char>) -> Seq<char>;

/// `str::to_lowercase`: the result depends on the text alone.
pub assume_specification[ str::to_lowercase ](text: &str) -> (lowered: String)
    ensures
        lowered@ == lowercase_of(text@),
;

/// A text as it is searched: lower-cased when case is to be ignored, else
/// as it stands.
pub open spec fn folded(text: Seq<char>, case_insensitive: bool) -> Seq<char> {
    if case_insensitive {
        lowercase_of(text)
    } else {
        text
    }
}

/// Prepares `text` for a search that ignores case or does not.
pub fn fold(text: &str, case_insensitive: bool) -> (out: String)
    ensures
        out@ == folded(text@, case_insensitive),
{
    if case_insensitive {
        text.to_lowercase()
    } else {
        text.to_owned()
    }
}

} // verus!

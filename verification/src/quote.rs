//! Texts as they are shown to a programmer.

use vstd::prelude::*;

verus! {

/// What `Debug` of `str` makes of a text: the text in double quotes, with escapes where they are
/// needed.
pub uninterp spec fn quoted(text: Seq<char>) -> Seq<char>;

/// Calls `Debug` of `str`.
///
/// Believed of it: what it gives depends on the text alone. Which characters are escaped, and how,
/// is left unsaid.
#[verifier::external_body]
pub(crate) fn quote(text: &str) -> (shown: String)
    ensures
        shown@ == quoted(text@),
{
    format!("{:?}", text)
}

} // verus!

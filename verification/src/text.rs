use vstd::prelude::*;

verus! {

/// The lower-case form of a text, as the standard library's
/// `str::to_lowercase` computes it.
pub uninterp spec fn lowercase_of(text: Seq<char>) -> Seq<char>;

/// Calls `str::to_lowercase`. Nothing is proved of the conversion: the
/// contract only names its result, which depends on the text alone.
#[verifier::external_body]
pub(crate) fn to_lowercase(text: &String) -> (lowered: String)
    ensures
        lowered@ == lowercase_of(text@),
{
    text.to_lowercase()
}

} // verus!

//! Unicode properties and segmentation the library takes from `std` and
//! `unicode-segmentation`. They rest on Unicode's tables, so their results
//! are named rather than written out; only the naming is claimed.
use vstd::prelude::*;
use unicode_segmentation::UnicodeSegmentation;

verus! {

/// `char::is_alphanumeric` of `c`.
pub uninterp spec fn char_alphanumeric(c: char) -> bool;

/// `char::is_alphabetic` of `c`.
pub uninterp spec fn char_alphabetic(c: char) -> bool;

/// `char::is_numeric` of `c`.
pub uninterp spec fn char_numeric(c: char) -> bool;

/// `str::to_uppercase` of `s`.
pub uninterp spec fn unicode_uppercase(s: Seq<char>) -> Seq<char>;

/// `str::to_lowercase` of `s`.
pub uninterp spec fn unicode_lowercase(s: Seq<char>) -> Seq<char>;

/// The extended grapheme clusters of `s` (`UnicodeSegmentation::graphemes`
/// with `is_extended` set).
pub uninterp spec fn extended_graphemes(s: Seq<char>) -> Seq<Seq<char>>;

/// `char::is_alphanumeric`: the result is `char_alphanumeric(c)`.
#[verifier::external_body]
pub(crate) fn is_alphanumeric(c: char) -> (r: bool)
    ensures
        r == char_alphanumeric(c),
{
    c.is_alphanumeric()
}

/// `char::is_alphabetic`: the result is `char_alphabetic(c)`.
#[verifier::external_body]
pub(crate) fn is_alphabetic(c: char) -> (r: bool)
    ensures
        r == char_alphabetic(c),
{
    c.is_alphabetic()
}

/// `char::is_numeric`: the result is `char_numeric(c)`.
#[verifier::external_body]
pub(crate) fn is_numeric(c: char) -> (r: bool)
    ensures
        r == char_numeric(c),
{
    c.is_numeric()
}

/// `str::to_uppercase`: the result is `unicode_uppercase` of the argument.
#[verifier::external_body]
pub(crate) fn to_uppercase(s: &str) -> (r: String)
    ensures
        r@ == unicode_uppercase(s@),
{
    s.to_uppercase()
}

/// `str::to_lowercase`: the result is `unicode_lowercase` of the argument.
#[verifier::external_body]
pub(crate) fn to_lowercase(s: &str) -> (r: String)
    ensures
        r@ == unicode_lowercase(s@),
{
    s.to_lowercase()
}

/// `UnicodeSegmentation::graphemes(s, true)`, each cluster as a `String`:
/// the clusters are `extended_graphemes` of the argument.
#[verifier::external_body]
pub(crate) fn graphemes(s: &str) -> (r: Vec<String>)
    ensures
        r@.map_values(|g: String| g@) == extended_graphemes(s@),
{
    s.graphemes(true).map(|g| g.to_string()).collect()
}

} // verus!

//! Segmentation of text into extended grapheme clusters.

use unicode_segmentation::UnicodeSegmentation;
use vstd::prelude::*;
use crate::grapheme::texts;

verus! {

/// The extended grapheme clusters of a text, in order, as the Unicode rules
/// for cluster boundaries divide it.
pub uninterp spec fn extended_grapheme_clusters(s: Seq<char>) -> Seq<Seq<char>>;

/// Divides `s` into its extended grapheme clusters.
///
/// Trusted: this calls `UnicodeSegmentation::graphemes` of the crate
/// `unicode-segmentation` with `is_extended` set, and collects what the
/// iterator yields. The contract names that result, and claims of it only
/// that the clusters are consecutive slices which together make up `s`.
#[verifier::external_body]
pub(crate) fn graphemes_of<'a>(s: &'a str) -> (graphemes: Vec<&'a str>)
    ensures
        texts(graphemes@) == extended_grapheme_clusters(s@),
        texts(graphemes@).flatten() == s@,
{
    UnicodeSegmentation::graphemes(s, true).collect()
}

} // verus!

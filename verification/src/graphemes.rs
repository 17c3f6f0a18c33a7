//! User-perceived characters (extended grapheme clusters).
use vstd::prelude::*;
use vstd::std_specs::iter::IteratorSpec;

use crate::gstring::GString;
use crate::matching::views;
use crate::validator::Validator;

verus! {

/// The extended grapheme clusters of `s`, in order, as Unicode Standard
/// Annex #29 segments it.
pub uninterp spec fn grapheme_clusters(s: Seq<char>) -> Seq<Seq<char>>;

/// Splits `s` into its extended grapheme clusters.
///
/// Calls `UnicodeSegmentation::graphemes(s, true)` of `unicode-segmentation`
/// and collects the slices. Its iterator hands out `&s[start..next]` for
/// successive boundaries `start < next` from the start of `s` to its end, so
/// the clusters are non-empty and together spell `s`. Where the boundaries
/// fall (the annex's rules and tables) is only named.
#[verifier::external_body]
fn str_graphemes<'a>(s: &'a str) -> (r: Vec<&'a str>)
    ensures
        views(r@) == grapheme_clusters(s@),
        views(r@).flatten() == s@,
        forall|i: int| 0 <= i < r@.len() ==> (#[trigger] r@[i])@.len() > 0,
{
    unicode_segmentation::UnicodeSegmentation::graphemes(s, true).collect()
}

impl<V: Validator, const MIN: usize, const MAX: usize, const ASCII_ONLY: bool> GString<
    V,
    MIN,
    MAX,
    ASCII_ONLY,
> {
    /// The extended grapheme clusters of the string, in order.
    pub fn graphemes(&self) -> (r: std::vec::IntoIter<&str>)
        ensures
            views(r.remaining()) == grapheme_clusters(self@),
            views(r.remaining()).flatten() == self@,
            forall|i: int| 0 <= i < r.remaining().len() ==> (#[trigger] r.remaining()[i])@.len() > 0,
    {
        str_graphemes(self.as_str()).into_iter()
    }

    /// Number of user-perceived characters (extended grapheme clusters).
    pub fn grapheme_count(&self) -> (r: usize)
        ensures
            r == grapheme_clusters(self@).len(),
    {
        let g = str_graphemes(self.as_str());
        assert(views(g@).len() == g@.len());
        g.len()
    }
}

} // verus!

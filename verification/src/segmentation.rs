//! Cutting a text into user-perceived characters.

use unicode_segmentation::UnicodeSegmentation;
use vstd::prelude::*;

verus! {

/// The extended grapheme clusters of `text`, in reading order, as Unicode
/// Standard Annex #29 draws their boundaries.
pub uninterp spec fn extended_grapheme_clusters(text: Seq<char>) -> Seq<Seq<char>>;

/// `pieces` cuts `text` into consecutive parts, none of them empty.
pub open spec fn is_segmentation(pieces: Seq<Seq<char>>, text: Seq<char>) -> bool {
    &&& forall|i: int| 0 <= i < pieces.len() ==> (#[trigger] pieces[i]).len() > 0
    &&& pieces.flatten() == text
}

/// A text has at most as many pieces as it has code points, and the empty
/// text has none.
pub proof fn lemma_segmentation_count(pieces: Seq<Seq<char>>, text: Seq<char>)
    requires
        is_segmentation(pieces, text),
    ensures
        pieces.len() <= text.len(),
        text.len() == 0 ==> pieces.len() == 0,
    decreases pieces.len(),
{
    if pieces.len() > 0 {
        let rest = pieces.drop_first();
        assert(pieces[0].len() > 0);
        assert forall|i: int| 0 <= i < rest.len() implies (#[trigger] rest[i]).len() > 0 by {
            assert(rest[i] == pieces[i + 1]);
        }
        lemma_segmentation_count(rest, rest.flatten());
        assert(pieces.flatten() == pieces.first() + rest.flatten());
    }
}

/// The extended grapheme clusters of `text`, each as a string of its own.
///
/// Trusted: this is `UnicodeSegmentation::graphemes` of the crate
/// `unicode-segmentation`, called with `is_extended` set. Where the boundaries
/// fall is left to that crate and only named here. What is claimed beyond the
/// name is that the iterator hands out consecutive non-empty slices of the
/// text, from its start to its end.
#[verifier::external_body]
pub(crate) fn grapheme_clusters(text: &str) -> (clusters: Vec<String>)
    ensures
        clusters.deep_view() == extended_grapheme_clusters(text@),
        is_segmentation(clusters.deep_view(), text@),
{
    let mut clusters: Vec<String> = Vec::new();
    for cluster in text.graphemes(true) {
        clusters.push(cluster.to_string());
    }
    clusters
}

} // verus!

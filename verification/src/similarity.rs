//! How alike two texts are, as an exact fraction between zero and one.

use crate::distance::{
    edit_distance, lemma_edit_distance_identity, lemma_edit_distance_symmetric,
    levenshtein_distance,
};
use crate::segmentation::extended_grapheme_clusters;
use vstd::prelude::*;
use vstd::string::*;

verus! {

/// A fraction of two integers, not reduced to lowest terms.
pub struct Ratio {
    pub num: int,
    pub den: int,
}

impl Ratio {
    /// The fraction lies between zero and one and has a positive denominator.
    pub open spec fn is_unit(self) -> bool {
        0 <= self.num <= self.den && 0 < self.den
    }

    /// The sum of two fractions, over the product of their denominators.
    pub open spec fn plus(self, other: Ratio) -> Ratio {
        Ratio { num: self.num * other.den + other.num * self.den, den: self.den * other.den }
    }

    /// The fraction multiplied by a whole number.
    pub open spec fn scaled(self, factor: int) -> Ratio {
        Ratio { num: factor * self.num, den: self.den }
    }

    /// The largest whole number that is not above the fraction.
    pub open spec fn floor(self) -> int {
        self.num / self.den
    }
}

/// A similarity between two texts: the fraction `numerator / denominator`,
/// where one stands for a perfect match and zero for none.
#[derive(Clone, Copy, Debug)]
pub struct Similarity {
    pub numerator: usize,
    pub denominator: usize,
}

impl View for Similarity {
    type V = Ratio;

    open spec fn view(&self) -> Ratio {
        Ratio { num: self.numerator as int, den: self.denominator as int }
    }
}

/// The larger of two lengths.
pub open spec fn longer(len1: nat, len2: nat) -> nat {
    if len1 >= len2 {
        len1
    } else {
        len2
    }
}

/// The similarity of two texts of `len1` and `len2` code points that are
/// `distance` edits apart. Two empty texts match perfectly, an empty and a
/// non-empty text not at all; otherwise each edit takes away one part in as
/// many as the longer text has code points.
pub open spec fn similarity_ratio(len1: nat, len2: nat, distance: nat) -> Ratio {
    if len1 == 0 && len2 == 0 {
        Ratio { num: 1, den: 1 }
    } else if len1 == 0 || len2 == 0 {
        Ratio { num: 0, den: 1 }
    } else {
        Ratio { num: longer(len1, len2) - distance, den: longer(len1, len2) as int }
    }
}

/// The similarity of two texts: their distance is counted in extended
/// grapheme clusters, their lengths in code points.
pub open spec fn text_similarity(a: Seq<char>, b: Seq<char>) -> Ratio {
    similarity_ratio(
        a.len(),
        b.len(),
        edit_distance(extended_grapheme_clusters(a), extended_grapheme_clusters(b)),
    )
}

/// The similarity of two texts does not depend on their order.
pub proof fn lemma_text_similarity_symmetric(a: Seq<char>, b: Seq<char>)
    ensures
        text_similarity(a, b) == text_similarity(b, a),
{
    lemma_edit_distance_symmetric(extended_grapheme_clusters(a), extended_grapheme_clusters(b));
}

/// A text matches itself perfectly.
pub proof fn lemma_text_similarity_identity(a: Seq<char>)
    ensures
        text_similarity(a, a).num == text_similarity(a, a).den,
        text_similarity(a, a).den > 0,
{
    lemma_edit_distance_identity(extended_grapheme_clusters(a));
}

/// The similarity of two texts of `len1` and `len2` code points that are
/// `distance` edits apart.
pub fn similarity_from_distance(len1: usize, len2: usize, distance: usize) -> (s: Similarity)
    requires
        distance <= len1 || distance <= len2,
    ensures
        s@ == similarity_ratio(len1 as nat, len2 as nat, distance as nat),
        s@.is_unit(),
{
    if len1 == 0 && len2 == 0 {
        Similarity { numerator: 1, denominator: 1 }
    } else if len1 == 0 || len2 == 0 {
        Similarity { numerator: 0, denominator: 1 }
    } else {
        let max_len = if len1 >= len2 {
            len1
        } else {
            len2
        };
        Similarity { numerator: max_len - distance, denominator: max_len }
    }
}

/// The similarity of two texts.
pub fn calculate_similarity(s1: &str, s2: &str) -> (s: Similarity)
    ensures
        s@ == text_similarity(s1@, s2@),
        s@.is_unit(),
{
    if s1.is_empty() && s2.is_empty() {
        return Similarity { numerator: 1, denominator: 1 };
    }
    if s1.is_empty() || s2.is_empty() {
        return Similarity { numerator: 0, denominator: 1 };
    }
    let distance = levenshtein_distance(s1, s2);
    similarity_from_distance(s1.unicode_len(), s2.unicode_len(), distance)
}

} // verus!

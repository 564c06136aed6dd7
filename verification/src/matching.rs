//! Scoring every pair of a list of records and keeping the likely duplicates.

use crate::pairs::{enumerate_pairs, index_pairs, lemma_index_pairs_len, lemma_pairs_below_sound};
use crate::score::{calculate_match_score, match_score, Contact, MAX_SCORE};
use vstd::prelude::*;

verus! {

/// A pair of records that is likely to describe one contact: their
/// identifiers, in the order in which the records stand in the list, and
/// their score.
#[derive(Clone, Copy, Debug, PartialEq, Eq)]
pub struct SimilarityScore {
    pub contact_id1: i32,
    pub contact_id2: i32,
    pub score: i32,
}

/// What is reported of two records: a match exactly if their score reaches
/// the threshold.
pub open spec fn candidate(c1: Contact, c2: Contact, threshold: int) -> Option<SimilarityScore> {
    if match_score(c1, c2) >= threshold {
        Some(
            SimilarityScore {
                contact_id1: c1.id,
                contact_id2: c2.id,
                score: match_score(c1, c2) as i32,
            },
        )
    } else {
        None
    }
}

/// What is reported of the two records of a list that `pair` names.
pub open spec fn pair_candidate(
    contacts: Seq<Contact>,
    pair: (usize, usize),
    threshold: int,
) -> Option<SimilarityScore> {
    candidate(contacts[pair.0 as int], contacts[pair.1 as int], threshold)
}

/// The matches among the given pairs of records, in the order of the pairs.
pub open spec fn matches_among(
    contacts: Seq<Contact>,
    pairs: Seq<(usize, usize)>,
    threshold: int,
) -> Seq<SimilarityScore>
    decreases pairs.len(),
{
    if pairs.len() == 0 {
        Seq::empty()
    } else {
        let earlier = matches_among(contacts, pairs.drop_last(), threshold);
        match pair_candidate(contacts, pairs.last(), threshold) {
            Some(found) => earlier.push(found),
            None => earlier,
        }
    }
}

/// The matches among all pairs of records of a list.
pub open spec fn similarity_scores(contacts: Seq<Contact>, threshold: int) -> Seq<SimilarityScore> {
    matches_among(contacts, index_pairs(contacts.len() as usize), threshold)
}

/// There are at most as many matches as pairs.
pub proof fn lemma_matches_at_most_pairs(
    contacts: Seq<Contact>,
    pairs: Seq<(usize, usize)>,
    threshold: int,
)
    ensures
        matches_among(contacts, pairs, threshold).len() <= pairs.len(),
    decreases pairs.len(),
{
    if pairs.len() > 0 {
        lemma_matches_at_most_pairs(contacts, pairs.drop_last(), threshold);
    }
}

/// A match is among the results exactly if one of the pairs gives it.
pub proof fn lemma_matches_membership(
    contacts: Seq<Contact>,
    pairs: Seq<(usize, usize)>,
    threshold: int,
    found: SimilarityScore,
)
    ensures
        matches_among(contacts, pairs, threshold).contains(found) <==> exists|k: int|
            0 <= k < pairs.len() && #[trigger] pair_candidate(contacts, pairs[k], threshold)
                == Some(found),
    decreases pairs.len(),
{
    let all = matches_among(contacts, pairs, threshold);
    if pairs.len() > 0 {
        let front = pairs.drop_last();
        let earlier = matches_among(contacts, front, threshold);
        let last = pair_candidate(contacts, pairs.last(), threshold);
        lemma_matches_membership(contacts, front, threshold, found);
        if all.contains(found) {
            let i = choose|i: int| 0 <= i < all.len() && all[i] == found;
            if i < earlier.len() {
                assert(earlier[i] == found);
                let k = choose|k: int|
                    0 <= k < front.len() && #[trigger] pair_candidate(
                        contacts,
                        front[k],
                        threshold,
                    ) == Some(found);
                assert(pairs[k] == front[k]);
            } else {
                assert(last == Some(found));
                assert(pair_candidate(contacts, pairs[pairs.len() - 1], threshold) == Some(found));
            }
        }
        if exists|k: int|
            0 <= k < pairs.len() && #[trigger] pair_candidate(contacts, pairs[k], threshold)
                == Some(found) {
            let k = choose|k: int|
                0 <= k < pairs.len() && #[trigger] pair_candidate(contacts, pairs[k], threshold)
                    == Some(found);
            if k < front.len() {
                assert(front[k] == pairs[k]);
                let i = choose|i: int| 0 <= i < earlier.len() && earlier[i] == found;
                assert(all[i] == found);
            } else {
                assert(all[earlier.len() as int] == found);
            }
        }
    }
}

/// A higher threshold never lets more pairs through, and lets none through
/// that the lower one held back.
pub proof fn lemma_threshold_monotonic(
    contacts: Seq<Contact>,
    pairs: Seq<(usize, usize)>,
    lower: int,
    higher: int,
)
    requires
        lower <= higher,
    ensures
        matches_among(contacts, pairs, higher).len() <= matches_among(contacts, pairs, lower).len(),
        forall|found: SimilarityScore|
            matches_among(contacts, pairs, higher).contains(found) ==> matches_among(
                contacts,
                pairs,
                lower,
            ).contains(found),
    decreases pairs.len(),
{
    if pairs.len() > 0 {
        lemma_threshold_monotonic(contacts, pairs.drop_last(), lower, higher);
    }
    assert forall|found: SimilarityScore|
        matches_among(contacts, pairs, higher).contains(found) implies matches_among(
        contacts,
        pairs,
        lower,
    ).contains(found) by {
        lemma_matches_membership(contacts, pairs, higher, found);
        lemma_matches_membership(contacts, pairs, lower, found);
        let k = choose|k: int|
            0 <= k < pairs.len() && #[trigger] pair_candidate(contacts, pairs[k], higher) == Some(
                found,
            );
        assert(pair_candidate(contacts, pairs[k], lower) == Some(found));
    }
}

/// A higher threshold never lets more pairs of a list through.
pub proof fn lemma_similarity_scores_monotonic(contacts: Seq<Contact>, lower: int, higher: int)
    requires
        lower <= higher,
    ensures
        similarity_scores(contacts, higher).len() <= similarity_scores(contacts, lower).len(),
{
    lemma_threshold_monotonic(contacts, index_pairs(contacts.len() as usize), lower, higher);
}

/// Scores two records and reports them as a match exactly if the score
/// reaches the threshold.
pub fn match_pair(contact1: &Contact, contact2: &Contact, threshold: i32) -> (found: Option<
    SimilarityScore,
>)
    ensures
        found == candidate(*contact1, *contact2, threshold as int),
        found matches Some(m) ==> threshold <= m.score <= MAX_SCORE,
{
    let score = calculate_match_score(contact1, contact2);
    if score >= threshold {
        Some(SimilarityScore { contact_id1: contact1.id, contact_id2: contact2.id, score })
    } else {
        None
    }
}

/// Scores every pair of records of the list and returns those whose score
/// reaches the threshold, in the order of the pairs.
pub fn calculate_similarity_scores(contacts: &[Contact], threshold: i32) -> (scores: Vec<
    SimilarityScore,
>)
    ensures
        scores@ == similarity_scores(contacts@, threshold as int),
        scores.len() <= contacts.len() * (contacts.len() - 1) / 2,
        forall|k: int|
            0 <= k < scores.len() ==> threshold <= (#[trigger] scores[k]).score <= MAX_SCORE,
{
    let n = contacts.len();
    let pairs = enumerate_pairs(n);
    let mut scores: Vec<SimilarityScore> = Vec::new();
    let mut at: usize = 0;
    while at < pairs.len()
        invariant
            n == contacts.len(),
            pairs@ == index_pairs(n),
            at <= pairs.len(),
            scores@ == matches_among(contacts@, pairs@.take(at as int), threshold as int),
            forall|k: int|
                0 <= k < scores.len() ==> threshold <= (#[trigger] scores[k]).score <= MAX_SCORE,
        decreases pairs.len() - at,
    {
        let (i, j) = pairs[at];
        proof {
            lemma_pairs_below_sound(n, n, at as int);
            assert(pairs@.take(at + 1).drop_last() == pairs@.take(at as int));
        }
        match match_pair(&contacts[i], &contacts[j], threshold) {
            Some(found) => {
                scores.push(found);
            },
            None => {},
        }
        at = at + 1;
    }
    proof {
        assert(pairs@.take(at as int) == pairs@);
        lemma_index_pairs_len(n);
        lemma_matches_at_most_pairs(contacts@, pairs@, threshold as int);
    }
    scores
}

} // verus!

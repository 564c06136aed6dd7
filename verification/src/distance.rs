//! Edit distance between two texts, counted in grapheme clusters.

use crate::segmentation::{
    extended_grapheme_clusters, grapheme_clusters, lemma_segmentation_count,
};
use vstd::prelude::*;

verus! {

/// The smallest of three numbers.
pub open spec fn min3(x: nat, y: nat, z: nat) -> nat {
    if x <= y && x <= z {
        x
    } else if y <= z {
        y
    } else {
        z
    }
}

/// What replacing one unit by another costs: nothing if they are equal.
pub open spec fn substitution_cost<T>(x: T, y: T) -> nat {
    if x == y {
        0
    } else {
        1
    }
}

/// The Levenshtein distance between `a` and `b`: the least number of
/// insertions, deletions and substitutions of single units that turns `a`
/// into `b`. It is given here by the recurrence over the last units; that
/// some script of so many edits leads from `a` to `b`, and none of fewer, is
/// proved in `edits`.
pub open spec fn edit_distance<T>(a: Seq<T>, b: Seq<T>) -> nat
    decreases a.len() + b.len(),
{
    if a.len() == 0 {
        b.len()
    } else if b.len() == 0 {
        a.len()
    } else {
        min3(
            edit_distance(a.drop_last(), b) + 1,
            edit_distance(a, b.drop_last()) + 1,
            edit_distance(a.drop_last(), b.drop_last()) + substitution_cost(a.last(), b.last()),
        )
    }
}

/// A sequence is at distance zero from itself.
pub proof fn lemma_edit_distance_identity<T>(s: Seq<T>)
    ensures
        edit_distance(s, s) == 0,
    decreases s.len(),
{
    if s.len() > 0 {
        lemma_edit_distance_identity(s.drop_last());
    }
}

/// The distance does not depend on the order of its arguments.
pub proof fn lemma_edit_distance_symmetric<T>(a: Seq<T>, b: Seq<T>)
    ensures
        edit_distance(a, b) == edit_distance(b, a),
    decreases a.len() + b.len(),
{
    if a.len() > 0 && b.len() > 0 {
        lemma_edit_distance_symmetric(a.drop_last(), b);
        lemma_edit_distance_symmetric(a, b.drop_last());
        lemma_edit_distance_symmetric(a.drop_last(), b.drop_last());
    }
}

/// From or to the empty sequence the distance is the length of the other
/// sequence.
pub proof fn lemma_edit_distance_empty<T>(s: Seq<T>)
    ensures
        edit_distance(Seq::<T>::empty(), s) == s.len(),
        edit_distance(s, Seq::<T>::empty()) == s.len(),
{
}

/// The distance is at most the length of the longer sequence and at least the
/// difference of the two lengths.
pub proof fn lemma_edit_distance_bounds<T>(a: Seq<T>, b: Seq<T>)
    ensures
        edit_distance(a, b) <= a.len() || edit_distance(a, b) <= b.len(),
        a.len() - b.len() <= edit_distance(a, b),
        b.len() - a.len() <= edit_distance(a, b),
    decreases a.len() + b.len(),
{
    if a.len() > 0 && b.len() > 0 {
        lemma_edit_distance_bounds(a.drop_last(), b);
        lemma_edit_distance_bounds(a, b.drop_last());
        lemma_edit_distance_bounds(a.drop_last(), b.drop_last());
    }
}

/// The way from `a` to `c` is never longer than the way over `b`.
pub proof fn lemma_edit_distance_triangle<T>(a: Seq<T>, b: Seq<T>, c: Seq<T>)
    ensures
        edit_distance(a, c) <= edit_distance(a, b) + edit_distance(b, c),
    decreases a.len() + b.len() + c.len(),
{
    lemma_edit_distance_bounds(a, b);
    lemma_edit_distance_bounds(b, c);
    lemma_edit_distance_bounds(a, c);
    if a.len() > 0 && b.len() > 0 && c.len() > 0 {
        lemma_edit_distance_triangle(a.drop_last(), b, c);
        lemma_edit_distance_triangle(a, b, c.drop_last());
        lemma_edit_distance_triangle(a, b.drop_last(), c);
        lemma_edit_distance_triangle(a, b.drop_last(), c.drop_last());
        lemma_edit_distance_triangle(a.drop_last(), b.drop_last(), c);
        lemma_edit_distance_triangle(a.drop_last(), b.drop_last(), c.drop_last());
    }
}

/// The first row of the table: the distances from the empty sequence to each
/// prefix of `b`.
fn first_row(a: &[String], b: &[String]) -> (row: Vec<usize>)
    ensures
        row.len() == b.len() + 1,
        forall|k: int|
            0 <= k <= b.len() ==> #[trigger] row[k] == edit_distance(
                a.deep_view().take(0),
                b.deep_view().take(k),
            ),
{
    let n = b.len();
    let mut row: Vec<usize> = Vec::new();
    row.push(0);
    let mut j: usize = 0;
    while j < n
        invariant
            n == b.len(),
            j <= n,
            row.len() == j + 1,
            forall|k: int|
                0 <= k <= j ==> #[trigger] row[k] == edit_distance(
                    a.deep_view().take(0),
                    b.deep_view().take(k),
                ),
        decreases n - j,
    {
        j = j + 1;
        row.push(j);
    }
    row
}

/// The row of the table after `prev`: the distances from the first `i + 1`
/// clusters of `a` to each prefix of `b`.
fn next_row(a: &[String], b: &[String], i: usize, prev: &Vec<usize>) -> (row: Vec<usize>)
    requires
        i < a.len(),
        prev.len() == b.len() + 1,
        forall|k: int|
            0 <= k <= b.len() ==> #[trigger] prev[k] == edit_distance(
                a.deep_view().take(i as int),
                b.deep_view().take(k),
            ),
    ensures
        row.len() == b.len() + 1,
        forall|k: int|
            0 <= k <= b.len() ==> #[trigger] row[k] == edit_distance(
                a.deep_view().take(i + 1),
                b.deep_view().take(k),
            ),
{
    let n = b.len();
    let ghost av = a.deep_view();
    let ghost bv = b.deep_view();
    let ghost upper = av.take(i + 1);
    let mut row: Vec<usize> = Vec::new();
    row.push(i + 1);
    let mut j: usize = 0;
    while j < n
        invariant
            n == b.len(),
            i < a.len(),
            av == a.deep_view(),
            bv == b.deep_view(),
            upper == av.take(i + 1),
            j <= n,
            prev.len() == n + 1,
            row.len() == j + 1,
            forall|k: int|
                0 <= k <= n ==> #[trigger] prev[k] == edit_distance(av.take(i as int), bv.take(k)),
            forall|k: int| 0 <= k <= j ==> #[trigger] row[k] == edit_distance(upper, bv.take(k)),
        decreases n - j,
    {
        let deletion = prev[j + 1];
        let insertion = row[j];
        let substitution = prev[j];
        let same = a[i] == b[j];
        proof {
            let left = bv.take(j + 1);
            assert(upper.drop_last() == av.take(i as int));
            assert(left.drop_last() == bv.take(j as int));
            assert(upper.last() == a[i as int]@);
            assert(left.last() == b[j as int]@);
            lemma_edit_distance_bounds(av.take(i as int), bv.take(j as int));
        }
        let cell = if same {
            if substitution <= deletion && substitution <= insertion {
                substitution
            } else if deletion <= insertion {
                deletion + 1
            } else {
                insertion + 1
            }
        } else if substitution <= deletion && substitution <= insertion {
            substitution + 1
        } else if deletion <= insertion {
            deletion + 1
        } else {
            insertion + 1
        };
        assert(cell == edit_distance(upper, bv.take(j + 1)));
        row.push(cell);
        j = j + 1;
    }
    row
}

/// The edit distance between two sequences of grapheme clusters, computed by
/// dynamic programming over the table of distances between their prefixes.
pub fn cluster_edit_distance(a: &[String], b: &[String]) -> (distance: usize)
    ensures
        distance == edit_distance(a.deep_view(), b.deep_view()),
{
    let m = a.len();
    let n = b.len();
    let mut prev = first_row(a, b);
    let mut i: usize = 0;
    while i < m
        invariant
            m == a.len(),
            n == b.len(),
            i <= m,
            prev.len() == n + 1,
            forall|k: int|
                0 <= k <= n ==> #[trigger] prev[k] == edit_distance(
                    a.deep_view().take(i as int),
                    b.deep_view().take(k),
                ),
        decreases m - i,
    {
        prev = next_row(a, b, i, &prev);
        i = i + 1;
    }
    proof {
        assert(a.deep_view().take(m as int) == a.deep_view());
        assert(b.deep_view().take(n as int) == b.deep_view());
    }
    prev[n]
}

/// The edit distance between two texts, where one edit inserts, deletes or
/// replaces one extended grapheme cluster.
pub fn levenshtein_distance(s1: &str, s2: &str) -> (distance: usize)
    ensures
        distance == edit_distance(extended_grapheme_clusters(s1@), extended_grapheme_clusters(s2@)),
        distance <= s1@.len() || distance <= s2@.len(),
        s1@.len() == 0 ==> distance == extended_grapheme_clusters(s2@).len(),
        s2@.len() == 0 ==> distance == extended_grapheme_clusters(s1@).len(),
{
    let clusters1 = grapheme_clusters(s1);
    let clusters2 = grapheme_clusters(s2);
    proof {
        lemma_segmentation_count(clusters1.deep_view(), s1@);
        lemma_segmentation_count(clusters2.deep_view(), s2@);
        lemma_edit_distance_bounds(clusters1.deep_view(), clusters2.deep_view());
    }
    cluster_edit_distance(clusters1.as_slice(), clusters2.as_slice())
}

} // verus!

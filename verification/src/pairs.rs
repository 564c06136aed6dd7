//! The unordered pairs of the records of a list.

use vstd::prelude::*;

verus! {

/// The pairs whose first record is `i`, by rising second record:
/// `(i, i + 1)` up to `(i, n - 1)`.
pub open spec fn pairs_from(i: usize, n: usize) -> Seq<(usize, usize)> {
    Seq::new((n - i - 1) as nat, |k: int| (i, (i + 1 + k) as usize))
}

/// The pairs whose first record is below `k`, by rising first record.
pub open spec fn pairs_below(k: usize, n: usize) -> Seq<(usize, usize)>
    decreases k,
{
    if k == 0 {
        Seq::empty()
    } else {
        pairs_below((k - 1) as usize, n) + pairs_from((k - 1) as usize, n)
    }
}

/// Every pair `(i, j)` of positions in a list of `n` records with `i < j`,
/// ordered by `i` and then by `j`.
pub open spec fn index_pairs(n: usize) -> Seq<(usize, usize)> {
    pairs_below(n, n)
}

/// Whether `p` comes before `q` in the order by first and then by second
/// position.
pub open spec fn pair_before(p: (usize, usize), q: (usize, usize)) -> bool {
    p.0 < q.0 || (p.0 == q.0 && p.1 < q.1)
}

/// How many pairs have a first record below `k`.
pub proof fn lemma_pairs_below_len(k: usize, n: usize)
    requires
        k <= n,
    ensures
        2 * pairs_below(k, n).len() == k * (2 * n - k - 1),
    decreases k,
{
    if k > 0 {
        let j = (k - 1) as usize;
        lemma_pairs_below_len(j, n);
        assert(j * (2 * n - j - 1) + 2 * (n - j - 1) == (j + 1) * (2 * n - (j + 1) - 1))
            by (nonlinear_arith);
    } else {
        assert(0 * (2 * n - 0 - 1) == 0);
    }
}

/// Each pair with a first record below `k` names two positions of the list,
/// the first before the second.
pub proof fn lemma_pairs_below_sound(k: usize, n: usize, at: int)
    requires
        k <= n,
        0 <= at < pairs_below(k, n).len(),
    ensures
        pairs_below(k, n)[at].0 < k,
        pairs_below(k, n)[at].0 < pairs_below(k, n)[at].1 < n,
    decreases k,
{
    if k > 0 {
        let j = (k - 1) as usize;
        if at < pairs_below(j, n).len() {
            lemma_pairs_below_sound(j, n, at);
        }
    }
}

/// The pairs with a first record below `k` come in strictly rising order.
pub proof fn lemma_pairs_below_rising(k: usize, n: usize, at1: int, at2: int)
    requires
        k <= n,
        0 <= at1 < at2 < pairs_below(k, n).len(),
    ensures
        pair_before(pairs_below(k, n)[at1], pairs_below(k, n)[at2]),
    decreases k,
{
    if k > 0 {
        let j = (k - 1) as usize;
        let before = pairs_below(j, n).len();
        if at2 < before {
            lemma_pairs_below_rising(j, n, at1, at2);
        } else if at1 < before {
            lemma_pairs_below_sound(j, n, at1);
        }
    }
}

/// The pair `(i, j)` stands among the pairs with a first record below `k`,
/// behind those with a first record below `i`.
pub proof fn lemma_pairs_below_complete(k: usize, n: usize, i: usize, j: usize)
    requires
        k <= n,
        i < k,
        i < j < n,
    ensures
        pairs_below(i, n).len() + (j - i - 1) < pairs_below(k, n).len(),
        pairs_below(k, n)[pairs_below(i, n).len() + (j - i - 1)] == (i, j),
    decreases k,
{
    let last = (k - 1) as usize;
    if i < last {
        lemma_pairs_below_complete(last, n, i, j);
    } else {
        assert(pairs_from(i, n)[j - i - 1] == (i, j));
    }
}

/// A list of `n` records has `n * (n - 1) / 2` pairs.
pub proof fn lemma_index_pairs_len(n: usize)
    ensures
        index_pairs(n).len() == n * (n - 1) / 2,
{
    lemma_pairs_below_len(n, n);
    assert(n * (2 * n - n - 1) == n * (n - 1)) by (nonlinear_arith);
}

/// Each pair names two different records of the list, the earlier one first,
/// and no pair comes twice, in this order or reversed.
pub proof fn lemma_index_pairs_distinct(n: usize)
    ensures
        forall|at: int|
            0 <= at < index_pairs(n).len() ==> (#[trigger] index_pairs(n)[at]).0 < index_pairs(
                n,
            )[at].1 < n,
        forall|at1: int, at2: int|
            0 <= at1 < index_pairs(n).len() && 0 <= at2 < index_pairs(n).len() && at1 != at2 ==> {
                let p = #[trigger] index_pairs(n)[at1];
                let q = #[trigger] index_pairs(n)[at2];
                p != q && p != (q.1, q.0)
            },
{
    assert forall|at: int| 0 <= at < index_pairs(n).len() implies (#[trigger] index_pairs(
        n,
    )[at]).0 < index_pairs(n)[at].1 < n by {
        lemma_pairs_below_sound(n, n, at);
    }
    assert forall|at1: int, at2: int|
        0 <= at1 < index_pairs(n).len() && 0 <= at2 < index_pairs(n).len() && at1 != at2 implies {
        let p = #[trigger] index_pairs(n)[at1];
        let q = #[trigger] index_pairs(n)[at2];
        p != q && p != (q.1, q.0)
    } by {
        lemma_pairs_below_sound(n, n, at1);
        lemma_pairs_below_sound(n, n, at2);
        if at1 < at2 {
            lemma_pairs_below_rising(n, n, at1, at2);
        } else {
            lemma_pairs_below_rising(n, n, at2, at1);
        }
    }
}

/// Every two different records of the list form one of its pairs.
pub proof fn lemma_index_pairs_complete(n: usize, i: usize, j: usize)
    requires
        i < j < n,
    ensures
        index_pairs(n).contains((i, j)),
{
    lemma_pairs_below_complete(n, n, i, j);
    let at = pairs_below(i, n).len() + (j - i - 1);
    assert(index_pairs(n)[at] == (i, j));
}

/// The pairs of positions in a list of `n` records: every `(i, j)` with
/// `i < j < n` once, ordered by `i` and then by `j`.
pub fn enumerate_pairs(n: usize) -> (pairs: Vec<(usize, usize)>)
    ensures
        pairs@ == index_pairs(n),
        pairs.len() == n * (n - 1) / 2,
{
    let mut pairs: Vec<(usize, usize)> = Vec::new();
    let mut i: usize = 0;
    while i < n
        invariant
            i <= n,
            pairs@ == pairs_below(i, n),
        decreases n - i,
    {
        let ghost before = pairs@;
        let mut j: usize = i + 1;
        while j < n
            invariant
                i < j <= n,
                before == pairs_below(i, n),
                pairs@ == before + pairs_from(i, n).take(j - i - 1),
            decreases n - j,
        {
            pairs.push((i, j));
            proof {
                let row = pairs_from(i, n);
                assert(row.take(j - i) == row.take(j - i - 1).push(row[j - i - 1]));
            }
            j = j + 1;
        }
        proof {
            assert(pairs_from(i, n).take(n - i - 1) == pairs_from(i, n));
        }
        i = i + 1;
    }
    proof {
        lemma_index_pairs_len(n);
    }
    pairs
}

} // verus!

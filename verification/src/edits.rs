//! Edit scripts: the single edits that the edit distance counts.
//!
//! The distance of `distance` is defined by the recurrence over prefixes.
//! This module says what that number means: some script of that many single
//! edits turns the one sequence into the other, and no shorter script does.

use crate::distance::{
    edit_distance, lemma_edit_distance_identity, lemma_edit_distance_symmetric,
    lemma_edit_distance_triangle,
};
use vstd::prelude::*;

verus! {

/// One edit of a sequence: a unit is put in, taken out, or replaced.
pub enum Edit<T> {
    /// Puts `unit` in front of position `at`, or at the end.
    Insert { at: int, unit: T },
    /// Takes the unit at position `at` out.
    Delete { at: int },
    /// Puts `unit` in place of the unit at position `at`.
    Substitute { at: int, unit: T },
}

impl<T> Edit<T> {
    /// The edit names a position of `s`.
    pub open spec fn applies_to(self, s: Seq<T>) -> bool {
        match self {
            Edit::Insert { at, unit } => 0 <= at <= s.len(),
            Edit::Delete { at } => 0 <= at < s.len(),
            Edit::Substitute { at, unit } => 0 <= at < s.len(),
        }
    }

    /// The sequence that the edit makes of `s`.
    pub open spec fn apply(self, s: Seq<T>) -> Seq<T> {
        match self {
            Edit::Insert { at, unit } => s.insert(at, unit),
            Edit::Delete { at } => s.remove(at),
            Edit::Substitute { at, unit } => s.update(at, unit),
        }
    }
}

/// The edits of `script`, made one after the other, turn `a` into `b`.
pub open spec fn transforms<T>(script: Seq<Edit<T>>, a: Seq<T>, b: Seq<T>) -> bool
    decreases script.len(),
{
    if script.len() == 0 {
        a == b
    } else {
        script.first().applies_to(a) && transforms(script.drop_first(), script.first().apply(a), b)
    }
}

/// A script of as many edits as the distance between `a` and `b`, which turns
/// `a` into `b`: it works from the last units to the first, and takes at each
/// step the cheapest of deleting, inserting and keeping or replacing.
pub open spec fn shortest_script<T>(a: Seq<T>, b: Seq<T>) -> Seq<Edit<T>>
    decreases a.len() + b.len(),
{
    if a.len() == 0 && b.len() == 0 {
        Seq::empty()
    } else if a.len() == 0 {
        shortest_script(a, b.drop_last()).push(Edit::Insert { at: b.len() - 1, unit: b.last() })
    } else if b.len() == 0 {
        seq![Edit::Delete { at: a.len() - 1 }] + shortest_script(a.drop_last(), b)
    } else {
        let deletion = edit_distance(a.drop_last(), b) + 1;
        let insertion = edit_distance(a, b.drop_last()) + 1;
        if deletion <= insertion && deletion <= edit_distance(a, b) {
            seq![Edit::Delete { at: a.len() - 1 }] + shortest_script(a.drop_last(), b)
        } else if insertion <= edit_distance(a, b) {
            shortest_script(a, b.drop_last()).push(
                Edit::Insert { at: b.len() - 1, unit: b.last() },
            )
        } else if a.last() == b.last() {
            shortest_script(a.drop_last(), b.drop_last())
        } else {
            seq![Edit::Substitute { at: a.len() - 1, unit: b.last() }] + shortest_script(
                a.drop_last(),
                b.drop_last(),
            )
        }
    }
}

/// Putting one unit in moves a sequence by at most one edit.
proof fn lemma_insert_distance<T>(s: Seq<T>, at: int, unit: T)
    requires
        0 <= at <= s.len(),
    ensures
        edit_distance(s, s.insert(at, unit)) <= 1,
    decreases s.len(),
{
    let t = s.insert(at, unit);
    if at == s.len() {
        assert(t.drop_last() == s);
        lemma_edit_distance_identity(s);
    } else {
        assert(t.last() == s.last());
        assert(t.drop_last() == s.drop_last().insert(at, unit));
        lemma_insert_distance(s.drop_last(), at, unit);
    }
}

/// Replacing one unit moves a sequence by at most one edit.
proof fn lemma_substitute_distance<T>(s: Seq<T>, at: int, unit: T)
    requires
        0 <= at < s.len(),
    ensures
        edit_distance(s, s.update(at, unit)) <= 1,
    decreases s.len(),
{
    let t = s.update(at, unit);
    if at == s.len() - 1 {
        assert(t.drop_last() == s.drop_last());
        lemma_edit_distance_identity(s.drop_last());
    } else {
        assert(t.last() == s.last());
        assert(t.drop_last() == s.drop_last().update(at, unit));
        lemma_substitute_distance(s.drop_last(), at, unit);
    }
}

/// One edit moves a sequence by a distance of at most one.
pub proof fn lemma_single_edit<T>(edit: Edit<T>, s: Seq<T>)
    requires
        edit.applies_to(s),
    ensures
        edit_distance(s, edit.apply(s)) <= 1,
{
    match edit {
        Edit::Insert { at, unit } => {
            lemma_insert_distance(s, at, unit);
        },
        Edit::Delete { at } => {
            let t = s.remove(at);
            assert(t.insert(at, s[at]) == s);
            lemma_insert_distance(t, at, s[at]);
            lemma_edit_distance_symmetric(s, t);
        },
        Edit::Substitute { at, unit } => {
            lemma_substitute_distance(s, at, unit);
        },
    }
}

/// No script that turns `a` into `b` has fewer edits than the distance
/// between them.
pub proof fn lemma_script_at_least_distance<T>(script: Seq<Edit<T>>, a: Seq<T>, b: Seq<T>)
    requires
        transforms(script, a, b),
    ensures
        edit_distance(a, b) <= script.len(),
    decreases script.len(),
{
    if script.len() == 0 {
        lemma_edit_distance_identity(a);
    } else {
        let next = script.first().apply(a);
        lemma_single_edit(script.first(), a);
        lemma_script_at_least_distance(script.drop_first(), next, b);
        lemma_edit_distance_triangle(a, next, b);
    }
}

/// A script that leads from `a` to `middle`, followed by one that leads from
/// `middle` to `b`, leads from `a` to `b`.
pub proof fn lemma_transforms_concat<T>(
    first: Seq<Edit<T>>,
    second: Seq<Edit<T>>,
    a: Seq<T>,
    middle: Seq<T>,
    b: Seq<T>,
)
    requires
        transforms(first, a, middle),
        transforms(second, middle, b),
    ensures
        transforms(first + second, a, b),
    decreases first.len(),
{
    if first.len() == 0 {
        assert(first + second == second);
    } else {
        assert((first + second).first() == first.first());
        assert((first + second).drop_first() == first.drop_first() + second);
        lemma_transforms_concat(first.drop_first(), second, first.first().apply(a), middle, b);
    }
}

/// A script works in front of a unit that stands at the end as it works
/// without it.
proof fn lemma_transforms_before_last<T>(script: Seq<Edit<T>>, a: Seq<T>, b: Seq<T>, unit: T)
    requires
        transforms(script, a, b),
    ensures
        transforms(script, a.push(unit), b.push(unit)),
    decreases script.len(),
{
    if script.len() > 0 {
        let edit = script.first();
        let next = edit.apply(a);
        match edit {
            Edit::Insert { at, unit: put } => {
                assert(a.push(unit).insert(at, put) == a.insert(at, put).push(unit));
            },
            Edit::Delete { at } => {
                assert(a.push(unit).remove(at) == a.remove(at).push(unit));
            },
            Edit::Substitute { at, unit: put } => {
                assert(a.push(unit).update(at, put) == a.update(at, put).push(unit));
            },
        }
        assert(edit.apply(a.push(unit)) == next.push(unit));
        lemma_transforms_before_last(script.drop_first(), next, b, unit);
    }
}

/// The distance between `a` and `b` is the length of a script that turns `a`
/// into `b`.
pub proof fn lemma_shortest_script<T>(a: Seq<T>, b: Seq<T>)
    ensures
        transforms(shortest_script(a, b), a, b),
        shortest_script(a, b).len() == edit_distance(a, b),
    decreases a.len() + b.len(),
{
    let script = shortest_script(a, b);
    if a.len() == 0 && b.len() == 0 {
        assert(a == b);
    } else if a.len() == 0 || (b.len() > 0 && !(edit_distance(a.drop_last(), b) + 1
        <= edit_distance(a, b.drop_last()) + 1 && edit_distance(a.drop_last(), b) + 1
        <= edit_distance(a, b)) && edit_distance(a, b.drop_last()) + 1 <= edit_distance(a, b)) {
        let rest = shortest_script(a, b.drop_last());
        let last = Edit::Insert { at: b.len() - 1, unit: b.last() };
        lemma_shortest_script(a, b.drop_last());
        assert(b.drop_last().insert(b.len() - 1, b.last()) == b);
        assert(transforms(seq![last], b.drop_last(), b)) by {
            reveal_with_fuel(transforms, 2);
            assert(seq![last].drop_first().len() == 0);
            assert(seq![last].first() == last);
        }
        lemma_transforms_concat(rest, seq![last], a, b.drop_last(), b);
        assert(rest + seq![last] == rest.push(last));
    } else if b.len() == 0 || (edit_distance(a.drop_last(), b) + 1 <= edit_distance(
        a,
        b.drop_last(),
    ) + 1 && edit_distance(a.drop_last(), b) + 1 <= edit_distance(a, b)) {
        let first = Edit::<T>::Delete { at: a.len() - 1 };
        lemma_shortest_script(a.drop_last(), b);
        assert(a.remove(a.len() - 1) == a.drop_last());
        assert(script.first() == first);
        assert(script.drop_first() == shortest_script(a.drop_last(), b));
    } else {
        let rest = shortest_script(a.drop_last(), b.drop_last());
        lemma_shortest_script(a.drop_last(), b.drop_last());
        lemma_transforms_before_last(rest, a.drop_last(), b.drop_last(), b.last());
        assert(b.drop_last().push(b.last()) == b);
        if a.last() == b.last() {
            assert(a.drop_last().push(b.last()) == a);
        } else {
            let first = Edit::Substitute { at: a.len() - 1, unit: b.last() };
            assert(a.update(a.len() - 1, b.last()) == a.drop_last().push(b.last()));
            assert(script.first() == first);
            assert(script.drop_first() == rest);
        }
    }
}

/// Two sequences at distance zero are equal.
pub proof fn lemma_edit_distance_zero<T>(a: Seq<T>, b: Seq<T>)
    requires
        edit_distance(a, b) == 0,
    ensures
        a == b,
{
    lemma_shortest_script(a, b);
}

} // verus!

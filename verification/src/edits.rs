//! What the Levenshtein distance counts: single-character edits. The
//! distance between two strings is the length of the shortest list of edits
//! that turns the one into the other.

use crate::distance::{
    lemma_levenshtein_at_least_length_difference, lemma_levenshtein_bounds,
    lemma_levenshtein_identity, levenshtein,
};
use vstd::prelude::*;

verus! {

/// One edit of a string.
pub enum Edit {
    /// Puts `c` in before the character at `at`, or at the end.
    Insert { at: int, c: char },
    /// Takes the character at `at` out.
    Delete { at: int },
    /// Puts `c` in the place of the character at `at`.
    Substitute { at: int, c: char },
}

/// Whether `edit` can be made on `s`: its place is in `s`.
pub open spec fn applies(edit: Edit, s: Seq<char>) -> bool {
    match edit {
        Edit::Insert { at, c } => 0 <= at <= s.len(),
        Edit::Delete { at } => 0 <= at < s.len(),
        Edit::Substitute { at, c } => 0 <= at < s.len(),
    }
}

/// `s` after `edit`.
pub open spec fn applied(edit: Edit, s: Seq<char>) -> Seq<char> {
    match edit {
        Edit::Insert { at, c } => s.insert(at, c),
        Edit::Delete { at } => s.remove(at),
        Edit::Substitute { at, c } => s.update(at, c),
    }
}

/// Whether the edits of `script`, made one after the other, turn `a` into `b`.
pub open spec fn turns_into(script: Seq<Edit>, a: Seq<char>, b: Seq<char>) -> bool
    decreases script.len(),
{
    if script.len() == 0 {
        a == b
    } else {
        applies(script[0], a) && turns_into(script.drop_first(), applied(script[0], a), b)
    }
}

/// The edit that puts `c` in at `at`.
pub open spec fn insertion(at: int, c: char) -> Edit {
    Edit::Insert { at, c }
}

/// The edit that takes the character at `at` out.
pub open spec fn deletion(at: int) -> Edit {
    Edit::Delete { at }
}

/// The edit that puts `c` in the place of the character at `at`.
pub open spec fn substitution(at: int, c: char) -> Edit {
    Edit::Substitute { at, c }
}

/// A shortest list of edits that turns `a` into `b`: it works from the ends
/// of the two strings backwards, as the distance is defined.
pub open spec fn shortest_script(a: Seq<char>, b: Seq<char>) -> Seq<Edit>
    decreases a.len() + b.len(),
{
    if a.len() == 0 && b.len() == 0 {
        Seq::empty()
    } else if a.len() == 0 {
        shortest_script(a, b.drop_last()).push(insertion(b.len() - 1, b.last()))
    } else if b.len() == 0 {
        seq![deletion(a.len() - 1)] + shortest_script(a.drop_last(), b)
    } else if levenshtein(a, b) == levenshtein(a.drop_last(), b) + 1 {
        seq![deletion(a.len() - 1)] + shortest_script(a.drop_last(), b)
    } else if levenshtein(a, b) == levenshtein(a, b.drop_last()) + 1 {
        shortest_script(a, b.drop_last()).push(insertion(b.len() - 1, b.last()))
    } else if a.last() == b.last() {
        shortest_script(a.drop_last(), b.drop_last())
    } else {
        seq![substitution(a.len() - 1, b.last())] + shortest_script(
            a.drop_last(),
            b.drop_last(),
        )
    }
}

/// Putting a character in changes the distance to any string by one at most.
proof fn lemma_after_insert(a: Seq<char>, at: int, c: char, b: Seq<char>)
    requires
        0 <= at <= a.len(),
    ensures
        levenshtein(a.insert(at, c), b) <= levenshtein(a, b) + 1,
    decreases a.len() + b.len(),
{
    let a1 = a.insert(at, c);
    lemma_levenshtein_bounds(a1, b);
    lemma_levenshtein_bounds(a, b);
    if b.len() == 0 {
    } else if a.len() == 0 {
    } else if at == a.len() {
        assert(a1.drop_last() =~= a);
    } else {
        assert(a1.drop_last() =~= a.drop_last().insert(at, c));
        assert(a1.last() == a.last());
        lemma_after_insert(a.drop_last(), at, c, b);
        lemma_after_insert(a, at, c, b.drop_last());
        lemma_after_insert(a.drop_last(), at, c, b.drop_last());
    }
}

/// Taking a character out changes the distance to any string by one at most.
proof fn lemma_after_remove(a: Seq<char>, at: int, b: Seq<char>)
    requires
        0 <= at < a.len(),
    ensures
        levenshtein(a.remove(at), b) <= levenshtein(a, b) + 1,
    decreases a.len() + b.len(),
{
    let a1 = a.remove(at);
    lemma_levenshtein_bounds(a1, b);
    lemma_levenshtein_bounds(a, b);
    lemma_levenshtein_at_least_length_difference(a, b);
    if b.len() == 0 {
    } else if a.len() == 1 {
    } else if at == a.len() - 1 {
        assert(a1 =~= a.drop_last());
        lemma_after_remove(a, at, b.drop_last());
        lemma_levenshtein_bounds(a.drop_last(), b.drop_last());
    } else {
        assert(a1.drop_last() =~= a.drop_last().remove(at));
        assert(a1.last() == a.last());
        lemma_after_remove(a.drop_last(), at, b);
        lemma_after_remove(a, at, b.drop_last());
        lemma_after_remove(a.drop_last(), at, b.drop_last());
    }
}

/// Changing a character changes the distance to any string by one at most.
proof fn lemma_after_update(a: Seq<char>, at: int, c: char, b: Seq<char>)
    requires
        0 <= at < a.len(),
    ensures
        levenshtein(a.update(at, c), b) <= levenshtein(a, b) + 1,
    decreases a.len() + b.len(),
{
    let a1 = a.update(at, c);
    lemma_levenshtein_bounds(a1, b);
    lemma_levenshtein_bounds(a, b);
    if b.len() == 0 {
    } else if at == a.len() - 1 {
        assert(a1.drop_last() =~= a.drop_last());
        lemma_after_update(a, at, c, b.drop_last());
        lemma_levenshtein_bounds(a.drop_last(), b.drop_last());
    } else {
        assert(a1.drop_last() =~= a.drop_last().update(at, c));
        assert(a1.last() == a.last());
        lemma_after_update(a.drop_last(), at, c, b);
        lemma_after_update(a, at, c, b.drop_last());
        lemma_after_update(a.drop_last(), at, c, b.drop_last());
    }
}

/// One edit brings a string nearer to any other by one at most.
pub proof fn lemma_one_edit(edit: Edit, a: Seq<char>, b: Seq<char>)
    requires
        applies(edit, a),
    ensures
        levenshtein(a, b) <= levenshtein(applied(edit, a), b) + 1,
{
    let a1 = applied(edit, a);
    match edit {
        Edit::Insert { at, c } => {
            assert(a1.remove(at) =~= a);
            lemma_after_remove(a1, at, b);
        },
        Edit::Delete { at } => {
            assert(a1.insert(at, a[at]) =~= a);
            lemma_after_insert(a1, at, a[at], b);
        },
        Edit::Substitute { at, c } => {
            assert(a1.update(at, a[at]) =~= a);
            lemma_after_update(a1, at, a[at], b);
        },
    }
}

/// No list of edits that turns `a` into `b` is shorter than the distance.
pub proof fn lemma_no_shorter_script(script: Seq<Edit>, a: Seq<char>, b: Seq<char>)
    requires
        turns_into(script, a, b),
    ensures
        script.len() >= levenshtein(a, b),
    decreases script.len(),
{
    if script.len() == 0 {
        lemma_levenshtein_identity(a);
    } else {
        lemma_no_shorter_script(script.drop_first(), applied(script[0], a), b);
        lemma_one_edit(script[0], a, b);
    }
}

/// Edits that turn `a` into `m`, followed by one that turns `m` into `b`,
/// turn `a` into `b`.
proof fn lemma_one_more_edit(script: Seq<Edit>, a: Seq<char>, m: Seq<char>, last: Edit)
    requires
        turns_into(script, a, m),
        applies(last, m),
    ensures
        turns_into(script.push(last), a, applied(last, m)),
    decreases script.len(),
{
    let longer = script.push(last);
    if script.len() == 0 {
        assert(longer.drop_first() =~= Seq::empty());
        assert(turns_into(longer.drop_first(), applied(last, m), applied(last, m)));
    } else {
        lemma_one_more_edit(script.drop_first(), applied(script[0], a), m, last);
        assert(longer.drop_first() =~= script.drop_first().push(last));
    }
}

/// Edits that turn `a` into `b` do the same before any further character.
proof fn lemma_edits_before(script: Seq<Edit>, a: Seq<char>, b: Seq<char>, x: char)
    requires
        turns_into(script, a, b),
    ensures
        turns_into(script, a.push(x), b.push(x)),
    decreases script.len(),
{
    if script.len() > 0 {
        let edit = script[0];
        match edit {
            Edit::Insert { at, c } => {
                assert(a.push(x).insert(at, c) =~= a.insert(at, c).push(x));
            },
            Edit::Delete { at } => {
                assert(a.push(x).remove(at) =~= a.remove(at).push(x));
            },
            Edit::Substitute { at, c } => {
                assert(a.push(x).update(at, c) =~= a.update(at, c).push(x));
            },
        }
        lemma_edits_before(script.drop_first(), applied(edit, a), b, x);
    }
}

/// The shortest script turns `a` into `b`, with as many edits as the
/// distance says.
pub proof fn lemma_shortest_script(a: Seq<char>, b: Seq<char>)
    ensures
        turns_into(shortest_script(a, b), a, b),
        shortest_script(a, b).len() == levenshtein(a, b),
    decreases a.len() + b.len(), 1nat,
{
    let script = shortest_script(a, b);
    if a.len() == 0 && b.len() == 0 {
        assert(a =~= b);
    } else if a.len() == 0 {
        lemma_put_in_last(a, b);
    } else if b.len() == 0 {
        lemma_take_out_last(a, b);
    } else if levenshtein(a, b) == levenshtein(a.drop_last(), b) + 1 {
        lemma_take_out_last(a, b);
    } else if levenshtein(a, b) == levenshtein(a, b.drop_last()) + 1 {
        lemma_put_in_last(a, b);
    } else {
        let rest = shortest_script(a.drop_last(), b.drop_last());
        lemma_shortest_script(a.drop_last(), b.drop_last());
        lemma_edits_before(rest, a.drop_last(), b.drop_last(), b.last());
        assert(b.drop_last().push(b.last()) =~= b);
        if a.last() == b.last() {
            assert(a.drop_last().push(b.last()) =~= a);
            assert(script == rest);
        } else {
            let first = substitution(a.len() - 1, b.last());
            assert(script[0] == first);
            assert(script.drop_first() =~= rest);
            assert(applied(first, a) =~= a.drop_last().push(b.last()));
        }
    }
}

/// The script that ends with putting in the last character of `b`.
proof fn lemma_put_in_last(a: Seq<char>, b: Seq<char>)
    requires
        b.len() > 0,
    ensures
        turns_into(
            shortest_script(a, b.drop_last()).push(insertion(b.len() - 1, b.last())),
            a,
            b,
        ),
        shortest_script(a, b.drop_last()).len() == levenshtein(a, b.drop_last()),
    decreases a.len() + b.len(), 0nat,
{
    let before = b.drop_last();
    let last = insertion(b.len() - 1, b.last());
    lemma_shortest_script(a, before);
    assert(before.insert(b.len() - 1, b.last()) =~= b);
    lemma_one_more_edit(shortest_script(a, before), a, before, last);
}

/// The script that begins with taking out the last character of `a`.
proof fn lemma_take_out_last(a: Seq<char>, b: Seq<char>)
    requires
        a.len() > 0,
    ensures
        turns_into(
            seq![deletion(a.len() - 1)] + shortest_script(a.drop_last(), b),
            a,
            b,
        ),
        shortest_script(a.drop_last(), b).len() == levenshtein(a.drop_last(), b),
    decreases a.len() + b.len(), 0nat,
{
    let first = deletion(a.len() - 1);
    let rest = shortest_script(a.drop_last(), b);
    let script = seq![first] + rest;
    lemma_shortest_script(a.drop_last(), b);
    assert(script[0] == first);
    assert(script.drop_first() =~= rest);
    assert(applied(first, a) =~= a.drop_last());
}

/// The distance is the least number of edits that turn `a` into `b`: some
/// list of that many edits does, and none that does is shorter.
pub proof fn lemma_distance_is_least_edits(a: Seq<char>, b: Seq<char>)
    ensures
        exists|script: Seq<Edit>|
            #[trigger] turns_into(script, a, b) && script.len() == levenshtein(a, b),
        forall|script: Seq<Edit>|
            #[trigger] turns_into(script, a, b) ==> script.len() >= levenshtein(a, b),
{
    lemma_shortest_script(a, b);
    assert(turns_into(shortest_script(a, b), a, b));
    assert forall|script: Seq<Edit>| #[trigger] turns_into(script, a, b) implies script.len()
        >= levenshtein(a, b) by {
        lemma_no_shorter_script(script, a, b);
    }
}

} // verus!

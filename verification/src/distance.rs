//! Edit distances between two strings, counted in Unicode scalar values.

use crate::text::chars_of;
use vstd::prelude::*;

verus! {

/// Smallest of three integers.
pub open spec fn min3(x: int, y: int, z: int) -> int {
    if x <= y && x <= z {
        x
    } else if y <= z {
        y
    } else {
        z
    }
}

/// Larger of two integers.
pub open spec fn max2(x: int, y: int) -> int {
    if x >= y {
        x
    } else {
        y
    }
}

/// What it costs to turn `x` into `y`: nothing when they are the same character.
pub open spec fn substitution_cost(x: char, y: char) -> int {
    if x == y {
        0
    } else {
        1
    }
}

/// Levenshtein distance: the least number of single-character insertions,
/// deletions and substitutions that turn `a` into `b`.
pub open spec fn levenshtein(a: Seq<char>, b: Seq<char>) -> int
    decreases a.len() + b.len(),
{
    if a.len() == 0 {
        b.len() as int
    } else if b.len() == 0 {
        a.len() as int
    } else {
        min3(
            levenshtein(a.drop_last(), b) + 1,
            levenshtein(a, b.drop_last()) + 1,
            levenshtein(a.drop_last(), b.drop_last()) + substitution_cost(a.last(), b.last()),
        )
    }
}

/// Whether the last two characters of `a` are the last two of `b`, swapped.
pub open spec fn ends_transposed(a: Seq<char>, b: Seq<char>) -> bool {
    &&& a.len() > 1
    &&& b.len() > 1
    &&& a[a.len() - 1] == b[b.len() - 2]
    &&& a[a.len() - 2] == b[b.len() - 1]
}

/// Damerau-Levenshtein distance in its restricted form: as `levenshtein`, and a
/// swap of two adjacent characters counts as one edit.
pub open spec fn damerau_levenshtein(a: Seq<char>, b: Seq<char>) -> int
    decreases a.len() + b.len(),
{
    if a.len() == 0 {
        b.len() as int
    } else if b.len() == 0 {
        a.len() as int
    } else {
        let plain = min3(
            damerau_levenshtein(a.drop_last(), b) + 1,
            damerau_levenshtein(a, b.drop_last()) + 1,
            damerau_levenshtein(a.drop_last(), b.drop_last()) + substitution_cost(
                a.last(),
                b.last(),
            ),
        );
        if ends_transposed(a, b) {
            let swapped = damerau_levenshtein(a.take(a.len() - 2), b.take(b.len() - 2)) + 1;
            if swapped < plain {
                swapped
            } else {
                plain
            }
        } else {
            plain
        }
    }
}

/// The distance is never negative and never more than the longer length.
pub proof fn lemma_levenshtein_bounds(a: Seq<char>, b: Seq<char>)
    ensures
        0 <= levenshtein(a, b) <= max2(a.len() as int, b.len() as int),
    decreases a.len() + b.len(),
{
    if a.len() != 0 && b.len() != 0 {
        lemma_levenshtein_bounds(a.drop_last(), b);
        lemma_levenshtein_bounds(a, b.drop_last());
        lemma_levenshtein_bounds(a.drop_last(), b.drop_last());
    }
}

/// Two strings are at least as far apart as their lengths are.
pub proof fn lemma_levenshtein_at_least_length_difference(a: Seq<char>, b: Seq<char>)
    ensures
        levenshtein(a, b) >= a.len() - b.len(),
        levenshtein(a, b) >= b.len() - a.len(),
    decreases a.len() + b.len(),
{
    if a.len() != 0 && b.len() != 0 {
        lemma_levenshtein_at_least_length_difference(a.drop_last(), b);
        lemma_levenshtein_at_least_length_difference(a, b.drop_last());
        lemma_levenshtein_at_least_length_difference(a.drop_last(), b.drop_last());
    }
}

/// The distance does not depend on the direction of the comparison.
pub proof fn lemma_levenshtein_symmetric(a: Seq<char>, b: Seq<char>)
    ensures
        levenshtein(a, b) == levenshtein(b, a),
    decreases a.len() + b.len(),
{
    if a.len() != 0 && b.len() != 0 {
        lemma_levenshtein_symmetric(a.drop_last(), b);
        lemma_levenshtein_symmetric(a, b.drop_last());
        lemma_levenshtein_symmetric(a.drop_last(), b.drop_last());
    }
}

/// A string is at distance zero from itself.
pub proof fn lemma_levenshtein_identity(x: Seq<char>)
    ensures
        levenshtein(x, x) == 0,
    decreases x.len(),
{
    if x.len() != 0 {
        lemma_levenshtein_identity(x.drop_last());
        lemma_levenshtein_bounds(x.drop_last(), x);
        lemma_levenshtein_bounds(x, x.drop_last());
    }
}

/// Only equal strings are at distance zero.
pub proof fn lemma_levenshtein_zero_iff_equal(a: Seq<char>, b: Seq<char>)
    ensures
        levenshtein(a, b) == 0 <==> a == b,
    decreases a.len() + b.len(),
{
    if a == b {
        lemma_levenshtein_identity(a);
    } else if a.len() == 0 || b.len() == 0 {
        assert(a.len() != b.len()) by {
            if a.len() == b.len() {
                assert(a =~= b);
            }
        }
    } else {
        lemma_levenshtein_bounds(a.drop_last(), b);
        lemma_levenshtein_bounds(a, b.drop_last());
        lemma_levenshtein_bounds(a.drop_last(), b.drop_last());
        lemma_levenshtein_zero_iff_equal(a.drop_last(), b.drop_last());
        if a.last() == b.last() && a.drop_last() == b.drop_last() {
            assert(a =~= a.drop_last().push(a.last()));
            assert(b =~= b.drop_last().push(b.last()));
        }
    }
}

/// The restricted Damerau-Levenshtein distance is never negative and never
/// more than the longer length.
pub proof fn lemma_damerau_levenshtein_bounds(a: Seq<char>, b: Seq<char>)
    ensures
        0 <= damerau_levenshtein(a, b) <= max2(a.len() as int, b.len() as int),
    decreases a.len() + b.len(),
{
    if a.len() != 0 && b.len() != 0 {
        lemma_damerau_levenshtein_bounds(a.drop_last(), b);
        lemma_damerau_levenshtein_bounds(a, b.drop_last());
        lemma_damerau_levenshtein_bounds(a.drop_last(), b.drop_last());
        if ends_transposed(a, b) {
            lemma_damerau_levenshtein_bounds(a.take(a.len() - 2), b.take(b.len() - 2));
        }
    }
}

/// The restricted Damerau-Levenshtein distance does not depend on the
/// direction of the comparison.
pub proof fn lemma_damerau_levenshtein_symmetric(a: Seq<char>, b: Seq<char>)
    ensures
        damerau_levenshtein(a, b) == damerau_levenshtein(b, a),
    decreases a.len() + b.len(),
{
    if a.len() != 0 && b.len() != 0 {
        lemma_damerau_levenshtein_symmetric(a.drop_last(), b);
        lemma_damerau_levenshtein_symmetric(a, b.drop_last());
        lemma_damerau_levenshtein_symmetric(a.drop_last(), b.drop_last());
        if ends_transposed(a, b) {
            lemma_damerau_levenshtein_symmetric(a.take(a.len() - 2), b.take(b.len() - 2));
        }
    }
}

/// A string is at restricted Damerau-Levenshtein distance zero from itself,
/// and from no other string.
pub proof fn lemma_damerau_levenshtein_zero_iff_equal(a: Seq<char>, b: Seq<char>)
    ensures
        damerau_levenshtein(a, b) == 0 <==> a == b,
    decreases a.len() + b.len(),
{
    if a.len() == 0 || b.len() == 0 {
        if a.len() == b.len() {
            assert(a =~= b);
        }
    } else {
        lemma_damerau_levenshtein_bounds(a.drop_last(), b);
        lemma_damerau_levenshtein_bounds(a, b.drop_last());
        lemma_damerau_levenshtein_bounds(a.drop_last(), b.drop_last());
        lemma_damerau_levenshtein_zero_iff_equal(a.drop_last(), b.drop_last());
        if ends_transposed(a, b) {
            lemma_damerau_levenshtein_bounds(a.take(a.len() - 2), b.take(b.len() - 2));
        }
        if a.last() == b.last() && a.drop_last() == b.drop_last() {
            assert(a =~= a.drop_last().push(a.last()));
            assert(b =~= b.drop_last().push(b.last()));
        }
        if a == b {
            assert(a.drop_last() == b.drop_last());
        }
    }
}

/// Counting a swap as one edit never makes two strings farther apart.
pub proof fn lemma_damerau_at_most_levenshtein(a: Seq<char>, b: Seq<char>)
    ensures
        damerau_levenshtein(a, b) <= levenshtein(a, b),
    decreases a.len() + b.len(),
{
    if a.len() != 0 && b.len() != 0 {
        lemma_damerau_at_most_levenshtein(a.drop_last(), b);
        lemma_damerau_at_most_levenshtein(a, b.drop_last());
        lemma_damerau_at_most_levenshtein(a.drop_last(), b.drop_last());
    }
}

/// One row of the distance table: the distances from each prefix of `a` to the
/// first `j` characters of `b`.
spec fn is_row(row: Seq<usize>, a: Seq<char>, b: Seq<char>, j: int, filled: int) -> bool {
    forall|i: int| 0 <= i < filled ==> #[trigger] row[i] == levenshtein(a.take(i), b.take(j))
}

proof fn lemma_levenshtein_cell(a: Seq<char>, b: Seq<char>, i: int, j: int)
    requires
        1 <= i <= a.len(),
        1 <= j <= b.len(),
    ensures
        levenshtein(a.take(i), b.take(j)) == min3(
            levenshtein(a.take(i - 1), b.take(j)) + 1,
            levenshtein(a.take(i), b.take(j - 1)) + 1,
            levenshtein(a.take(i - 1), b.take(j - 1)) + substitution_cost(a[i - 1], b[j - 1]),
        ),
{
    assert(a.take(i).drop_last() =~= a.take(i - 1));
    assert(b.take(j).drop_last() =~= b.take(j - 1));
}

/// Wagner-Fischer over two rows as wide as the shorter string.
fn distance_by_rows(short: &Vec<char>, long: &Vec<char>) -> (d: usize)
    requires
        short.len() <= long.len(),
    ensures
        d == levenshtein(short@, long@),
{
    let m = short.len();
    let n = long.len();
    let ghost a = short@;
    let ghost b = long@;
    let mut prev_row: Vec<usize> = Vec::new();
    prev_row.push(0);
    let mut k: usize = 0;
    while k < m
        invariant
            k <= m,
            prev_row.len() == k + 1,
            forall|i: int| 0 <= i <= k ==> #[trigger] prev_row[i] == i,
        decreases m - k,
    {
        k += 1;
        prev_row.push(k);
    }
    let width = prev_row.len();
    let mut curr_row: Vec<usize> = vec![0usize; width];
    assert(is_row(prev_row@, a, b, 0, m + 1));
    let mut j: usize = 0;
    while j < n
        invariant
            j <= n,
            m == a.len(),
            n == b.len(),
            m <= n,
            a == short@,
            b == long@,
            prev_row.len() == m + 1,
            curr_row.len() == m + 1,
            is_row(prev_row@, a, b, j as int, m + 1),
        decreases n - j,
    {
        j += 1;
        curr_row.set(0, j);
        let mut i: usize = 0;
        while i < m
            invariant
                i <= m,
                1 <= j <= n,
                m == a.len(),
                n == b.len(),
                m <= n,
                a == short@,
                b == long@,
                prev_row.len() == m + 1,
                curr_row.len() == m + 1,
                is_row(prev_row@, a, b, j - 1, m + 1),
                is_row(curr_row@, a, b, j as int, i + 1),
            decreases m - i,
        {
            i += 1;
            proof {
                lemma_levenshtein_cell(a, b, i as int, j as int);
                lemma_levenshtein_bounds(a.take(i - 1), b.take(j - 1));
                lemma_levenshtein_bounds(a.take(i as int), b.take(j - 1));
                lemma_levenshtein_bounds(a.take(i - 1), b.take(j as int));
                assert(prev_row@[i - 1] == levenshtein(a.take(i - 1), b.take(j - 1)));
                assert(prev_row@[i as int] == levenshtein(a.take(i as int), b.take(j - 1)));
                assert(curr_row@[i - 1] == levenshtein(a.take(i - 1), b.take(j as int)));
            }
            let cost: usize = if short[i - 1] == long[j - 1] {
                0
            } else {
                1
            };
            let mut best: usize = prev_row[i - 1] + cost;
            if prev_row[i] < best {
                best = prev_row[i] + 1;
            }
            if curr_row[i - 1] < best {
                best = curr_row[i - 1] + 1;
            }
            curr_row.set(i, best);
        }
        std::mem::swap(&mut prev_row, &mut curr_row);
    }
    proof {
        assert(a.take(m as int) =~= a);
        assert(b.take(n as int) =~= b);
    }
    prev_row[m]
}

/// Levenshtein distance between `a` and `b`, over their characters.
pub fn levenshtein_distance(a: &str, b: &str) -> (d: usize)
    ensures
        d == levenshtein(a@, b@),
{
    let a_chars = chars_of(a);
    let b_chars = chars_of(b);
    let m = a_chars.len();
    let n = b_chars.len();
    if m == 0 {
        return n;
    }
    if n == 0 {
        return m;
    }
    if m > n {
        proof {
            lemma_levenshtein_symmetric(a@, b@);
        }
        distance_by_rows(&b_chars, &a_chars)
    } else {
        distance_by_rows(&a_chars, &b_chars)
    }
}

/// The rows `0..rows` of the full table, each with its columns `0..=n` filled.
spec fn is_table(d: Seq<Vec<usize>>, a: Seq<char>, b: Seq<char>, rows: int) -> bool {
    &&& d.len() == rows
    &&& forall|i: int| 0 <= i < rows ==> #[trigger] d[i]@.len() == b.len() + 1
    &&& forall|i: int, j: int|
        0 <= i < rows && 0 <= j <= b.len() ==> #[trigger] d[i]@[j] == damerau_levenshtein(
            a.take(i),
            b.take(j),
        )
}

proof fn lemma_damerau_levenshtein_cell(a: Seq<char>, b: Seq<char>, i: int, j: int)
    requires
        1 <= i <= a.len(),
        1 <= j <= b.len(),
    ensures
        ends_transposed(a.take(i), b.take(j)) <==> (i > 1 && j > 1 && a[i - 1] == b[j - 2] && a[i
            - 2] == b[j - 1]),
        damerau_levenshtein(a.take(i), b.take(j)) == {
            let plain = min3(
                damerau_levenshtein(a.take(i - 1), b.take(j)) + 1,
                damerau_levenshtein(a.take(i), b.take(j - 1)) + 1,
                damerau_levenshtein(a.take(i - 1), b.take(j - 1)) + substitution_cost(
                    a[i - 1],
                    b[j - 1],
                ),
            );
            if ends_transposed(a.take(i), b.take(j)) {
                let swapped = damerau_levenshtein(a.take(i - 2), b.take(j - 2)) + 1;
                if swapped < plain {
                    swapped
                } else {
                    plain
                }
            } else {
                plain
            }
        },
{
    assert(a.take(i).drop_last() =~= a.take(i - 1));
    assert(b.take(j).drop_last() =~= b.take(j - 1));
    if i > 1 && j > 1 {
        assert(a.take(i).take(i - 2) =~= a.take(i - 2));
        assert(b.take(j).take(j - 2) =~= b.take(j - 2));
    }
}

/// Restricted Damerau-Levenshtein distance between `a` and `b`, over their
/// characters: a swap of two adjacent characters counts as one edit.
pub fn damerau_levenshtein_distance(a: &str, b: &str) -> (d: usize)
    ensures
        d == damerau_levenshtein(a@, b@),
{
    let a_chars = chars_of(a);
    let b_chars = chars_of(b);
    let m = a_chars.len();
    let n = b_chars.len();
    if m == 0 {
        return n;
    }
    if n == 0 {
        return m;
    }
    let ghost sa = a@;
    let ghost sb = b@;
    let mut first: Vec<usize> = Vec::new();
    first.push(0);
    let mut c: usize = 0;
    while c < n
        invariant
            c <= n,
            first.len() == c + 1,
            forall|j: int| 0 <= j <= c ==> #[trigger] first[j] == j,
        decreases n - c,
    {
        c += 1;
        first.push(c);
    }
    let mut table: Vec<Vec<usize>> = Vec::new();
    table.push(first);
    assert(is_table(table@, sa, sb, 1));
    let mut i: usize = 0;
    while i < m
        invariant
            i <= m,
            m == sa.len(),
            n == sb.len(),
            sa == a_chars@,
            sb == b_chars@,
            is_table(table@, sa, sb, i + 1),
        decreases m - i,
    {
        i += 1;
        let mut row: Vec<usize> = Vec::new();
        row.push(i);
        let mut j: usize = 0;
        while j < n
            invariant
                j <= n,
                1 <= i <= m,
                m == sa.len(),
                n == sb.len(),
                sa == a_chars@,
                sb == b_chars@,
                is_table(table@, sa, sb, i as int),
                row.len() == j + 1,
                forall|k: int|
                    0 <= k <= j ==> #[trigger] row[k] == damerau_levenshtein(
                        sa.take(i as int),
                        sb.take(k),
                    ),
            decreases n - j,
        {
            j += 1;
            proof {
                lemma_damerau_levenshtein_cell(sa, sb, i as int, j as int);
                lemma_damerau_levenshtein_bounds(sa.take(i - 1), sb.take(j - 1));
                lemma_damerau_levenshtein_bounds(sa.take(i - 1), sb.take(j as int));
                lemma_damerau_levenshtein_bounds(sa.take(i as int), sb.take(j - 1));
                assert(table@[i - 1]@[j - 1] == damerau_levenshtein(
                    sa.take(i - 1),
                    sb.take(j - 1),
                ));
                assert(table@[i - 1]@[j as int] == damerau_levenshtein(
                    sa.take(i - 1),
                    sb.take(j as int),
                ));
                assert(table@[i - 1]@.len() == n + 1);
            }
            let cost: usize = if a_chars[i - 1] == b_chars[j - 1] {
                0
            } else {
                1
            };
            let mut best: usize = table[i - 1][j - 1] + cost;
            if table[i - 1][j] < best {
                best = table[i - 1][j] + 1;
            }
            if row[j - 1] < best {
                best = row[j - 1] + 1;
            }
            if i > 1 && j > 1 && a_chars[i - 1] == b_chars[j - 2] && a_chars[i - 2] == b_chars[j
                - 1] {
                proof {
                    lemma_damerau_levenshtein_bounds(sa.take(i - 2), sb.take(j - 2));
                    assert(table@[i - 2]@[j - 2] == damerau_levenshtein(
                        sa.take(i - 2),
                        sb.take(j - 2),
                    ));
                    assert(table@[i - 2]@.len() == n + 1);
                }
                if table[i - 2][j - 2] < best {
                    best = table[i - 2][j - 2] + 1;
                }
            }
            row.push(best);
        }
        table.push(row);
    }
    proof {
        assert(sa.take(m as int) =~= sa);
        assert(sb.take(n as int) =~= sb);
        assert(table@[m as int]@[n as int] == damerau_levenshtein(
            sa.take(m as int),
            sb.take(n as int),
        ));
        assert(table@[m as int]@.len() == n + 1);
    }
    table[m][n]
}

} // verus!

//! The Damerau-Levenshtein engine: edit distance with insertions,
//! deletions, substitutions and transpositions.
//!
//! Two variants are offered.  The restricted variant (optimal string
//! alignment) only considers swapping the two characters just compared,
//! and never edits a substring twice.  The unrestricted variant allows
//! transpositions of characters arbitrarily far apart, charging one for
//! the swap plus one for every character skipped over.

use vstd::prelude::*;

use crate::helpers::char_cost;
use crate::helpers::chars_vec;
use crate::helpers::max2;
use crate::helpers::max_text_length;
use crate::helpers::min2;
use crate::helpers::min3;
use crate::helpers::min4;
use crate::helpers::min_of_3;
use crate::ratio::Ratio;

verus! {

/// The restricted Damerau-Levenshtein distance (optimal string alignment):
/// the Levenshtein recurrence, with one extra option when the two pairs of
/// trailing characters are each other's swap — take the distance of the
/// prefixes before the swapped pair, plus the substitution cost of the
/// current pair.
pub open spec fn osa_dist(s: Seq<char>, t: Seq<char>) -> int
    decreases s.len() + t.len(),
{
    if s.len() == 0 {
        t.len() as int
    } else if t.len() == 0 {
        s.len() as int
    } else {
        let c = char_cost(s.last(), t.last());
        let base = min3(
            osa_dist(s.drop_last(), t) + 1,
            osa_dist(s, t.drop_last()) + 1,
            osa_dist(s.drop_last(), t.drop_last()) + c,
        );
        if s.len() >= 2 && t.len() >= 2 && s.last() == t[t.len() - 2] && t.last() == s[s.len()
            - 2] {
            min2(base, osa_dist(s.take(s.len() - 2), t.take(t.len() - 2)) + c)
        } else {
            base
        }
    }
}

/// The restricted recurrence, restated over prefixes of the two full
/// sequences, as the cost table fills it in.
proof fn lemma_osa_dist_step(s: Seq<char>, t: Seq<char>, i: int, j: int)
    requires
        1 <= i <= s.len(),
        1 <= j <= t.len(),
    ensures
        osa_dist(s.take(i), t.take(j)) == ({
            let c = char_cost(s[i - 1], t[j - 1]);
            let base = min3(
                osa_dist(s.take(i - 1), t.take(j)) + 1,
                osa_dist(s.take(i), t.take(j - 1)) + 1,
                osa_dist(s.take(i - 1), t.take(j - 1)) + c,
            );
            if i >= 2 && j >= 2 && s[i - 1] == t[j - 2] && t[j - 1] == s[i - 2] {
                min2(base, osa_dist(s.take(i - 2), t.take(j - 2)) + c)
            } else {
                base
            }
        }),
{
    assert(s.take(i).drop_last() =~= s.take(i - 1));
    assert(t.take(j).drop_last() =~= t.take(j - 1));
    assert(s.take(i).last() == s[i - 1]);
    assert(t.take(j).last() == t[j - 1]);
    if i >= 2 && j >= 2 {
        assert(s.take(i).take(i - 2) =~= s.take(i - 2));
        assert(t.take(j).take(j - 2) =~= t.take(j - 2));
        assert(s.take(i)[i - 2] == s[i - 2]);
        assert(t.take(j)[j - 2] == t[j - 2]);
    }
}

/// The restricted distance is non-negative and never exceeds the longer
/// length.
pub proof fn lemma_osa_dist_bounds(s: Seq<char>, t: Seq<char>)
    ensures
        0 <= osa_dist(s, t) <= max2(s.len() as int, t.len() as int),
    decreases s.len() + t.len(),
{
    if s.len() != 0 && t.len() != 0 {
        lemma_osa_dist_bounds(s.drop_last(), t);
        lemma_osa_dist_bounds(s, t.drop_last());
        lemma_osa_dist_bounds(s.drop_last(), t.drop_last());
        if s.len() >= 2 && t.len() >= 2 {
            lemma_osa_dist_bounds(s.take(s.len() - 2), t.take(t.len() - 2));
        }
    }
}

/// A sequence is at restricted distance zero from itself.
pub proof fn lemma_osa_dist_self(s: Seq<char>)
    ensures
        osa_dist(s, s) == 0,
    decreases s.len(),
{
    if s.len() != 0 {
        lemma_osa_dist_self(s.drop_last());
        lemma_osa_dist_bounds(s, s);
    }
}

/// The restricted distance is symmetric in its two arguments.
pub proof fn lemma_osa_dist_symmetric(s: Seq<char>, t: Seq<char>)
    ensures
        osa_dist(s, t) == osa_dist(t, s),
    decreases s.len() + t.len(),
{
    if s.len() != 0 && t.len() != 0 {
        lemma_osa_dist_symmetric(s.drop_last(), t);
        lemma_osa_dist_symmetric(s, t.drop_last());
        lemma_osa_dist_symmetric(s.drop_last(), t.drop_last());
        if s.len() >= 2 && t.len() >= 2 {
            lemma_osa_dist_symmetric(s.take(s.len() - 2), t.take(t.len() - 2));
        }
    }
}

/// The most recent position before `bound` at which `u` holds the code
/// point `c`: the largest `p` with `1 <= p < bound` and `u[p - 1] == c`, or
/// `0` when there is none.  Positions are one-based, as in the unrestricted
/// cost table.
pub open spec fn dl_last_match(u: Seq<char>, c: char, bound: int) -> int
    decreases bound,
{
    if bound <= 1 {
        0
    } else if u[bound - 2] == c {
        bound - 1
    } else {
        dl_last_match(u, c, bound - 1)
    }
}

/// The last-match position lies below the bound.
pub proof fn lemma_dl_last_match_bounds(u: Seq<char>, c: char, bound: int)
    ensures
        0 <= dl_last_match(u, c, bound),
        bound >= 1 ==> dl_last_match(u, c, bound) <= bound - 1,
        bound < 1 ==> dl_last_match(u, c, bound) == 0,
    decreases bound,
{
    if bound > 1 {
        lemma_dl_last_match_bounds(u, c, bound - 1);
    }
}

/// One cell of the unrestricted cost table, whose rows and columns are
/// shifted by one against the prefix lengths: cell `(a, b)` is the distance
/// of the prefixes of lengths `a - 1` and `b - 1`.  Row and column `0` hold
/// the sentinel `|s| + |t|`, which exceeds every real distance, so that a
/// transposition can never be chosen across the border.  The transposition
/// option reaches back to the most recent row holding the current target
/// character and the most recent column holding the current source
/// character, charging one for the swap and one for every character skipped
/// over in between.
pub open spec fn dl_cell(s: Seq<char>, t: Seq<char>, a: int, b: int) -> int
    decreases a + b,
    when a >= 0 && b >= 0
    via dl_cell_decreases
{
    if a == 0 || b == 0 {
        s.len() as int + t.len() as int
    } else if b == 1 {
        a - 1
    } else if a == 1 {
        b - 1
    } else {
        let cost = char_cost(s[a - 2], t[b - 2]);
        let k = dl_last_match(s, t[b - 2], a - 1);
        let l = dl_last_match(t, s[a - 2], b - 1);
        min4(
            dl_cell(s, t, a - 1, b - 1) + cost,
            dl_cell(s, t, a, b - 1) + 1,
            dl_cell(s, t, a - 1, b) + 1,
            dl_cell(s, t, k, l) + (a - 2 - k) + 1 + (b - 2 - l),
        )
    }
}

#[via_fn]
proof fn dl_cell_decreases(s: Seq<char>, t: Seq<char>, a: int, b: int) {
    if a >= 2 && b >= 2 {
        lemma_dl_last_match_bounds(s, t[b - 2], a - 1);
        lemma_dl_last_match_bounds(t, s[a - 2], b - 1);
    }
}

/// The unrestricted Damerau-Levenshtein distance between two sequences of
/// code points: the bottom-right cell of the cost table.
pub open spec fn dl_dist(s: Seq<char>, t: Seq<char>) -> int {
    dl_cell(s, t, s.len() as int + 1, t.len() as int + 1)
}

/// Inner cells of the table are non-negative and bounded by the longer of
/// the two prefix lengths.
pub proof fn lemma_dl_cell_bounds(s: Seq<char>, t: Seq<char>, a: int, b: int)
    requires
        1 <= a <= s.len() + 1,
        1 <= b <= t.len() + 1,
    ensures
        0 <= dl_cell(s, t, a, b) <= max2(a - 1, b - 1),
    decreases a + b,
{
    if a >= 2 && b >= 2 {
        lemma_dl_last_match_bounds(s, t[b - 2], a - 1);
        lemma_dl_last_match_bounds(t, s[a - 2], b - 1);
        let k = dl_last_match(s, t[b - 2], a - 1);
        let l = dl_last_match(t, s[a - 2], b - 1);
        lemma_dl_cell_bounds(s, t, a - 1, b - 1);
        lemma_dl_cell_bounds(s, t, a, b - 1);
        lemma_dl_cell_bounds(s, t, a - 1, b);
        if k >= 1 && l >= 1 {
            lemma_dl_cell_bounds(s, t, k, l);
        }
    }
}

/// The unrestricted distance is non-negative and never exceeds the longer
/// length.
pub proof fn lemma_dl_dist_bounds(s: Seq<char>, t: Seq<char>)
    ensures
        0 <= dl_dist(s, t) <= max2(s.len() as int, t.len() as int),
{
    lemma_dl_cell_bounds(s, t, s.len() as int + 1, t.len() as int + 1);
}

/// Diagonal cells over a pair of equal sequences are zero.
proof fn lemma_dl_cell_self(s: Seq<char>, a: int)
    requires
        1 <= a <= s.len() + 1,
    ensures
        dl_cell(s, s, a, a) == 0,
    decreases a,
{
    if a >= 2 {
        lemma_dl_cell_self(s, a - 1);
        lemma_dl_cell_bounds(s, s, a, a);
    }
}

/// A sequence is at unrestricted distance zero from itself.
pub proof fn lemma_dl_dist_self(s: Seq<char>)
    ensures
        dl_dist(s, s) == 0,
{
    lemma_dl_cell_self(s, s.len() as int + 1);
}

/// Swapping the sequences transposes the cost table.
proof fn lemma_dl_cell_symmetric(s: Seq<char>, t: Seq<char>, a: int, b: int)
    requires
        0 <= a <= s.len() + 1,
        0 <= b <= t.len() + 1,
    ensures
        dl_cell(s, t, a, b) == dl_cell(t, s, b, a),
    decreases a + b,
{
    if a >= 2 && b >= 2 {
        lemma_dl_last_match_bounds(s, t[b - 2], a - 1);
        lemma_dl_last_match_bounds(t, s[a - 2], b - 1);
        let k = dl_last_match(s, t[b - 2], a - 1);
        let l = dl_last_match(t, s[a - 2], b - 1);
        lemma_dl_cell_symmetric(s, t, a - 1, b - 1);
        lemma_dl_cell_symmetric(s, t, a, b - 1);
        lemma_dl_cell_symmetric(s, t, a - 1, b);
        lemma_dl_cell_symmetric(s, t, k, l);
    }
}

/// The unrestricted distance is symmetric in its two arguments.
pub proof fn lemma_dl_dist_symmetric(s: Seq<char>, t: Seq<char>)
    ensures
        dl_dist(s, t) == dl_dist(t, s),
{
    lemma_dl_cell_symmetric(s, t, s.len() as int + 1, t.len() as int + 1);
}

/// Relates an inner cell of the unrestricted table to the restricted
/// distance of the matching prefixes: every edit the restricted recurrence
/// may charge is also available to the unrestricted one, so the cell never
/// costs more.
proof fn lemma_dl_cell_le_osa(s: Seq<char>, t: Seq<char>, i: int, j: int)
    requires
        0 <= i <= s.len(),
        0 <= j <= t.len(),
    ensures
        dl_cell(s, t, i + 1, j + 1) <= osa_dist(s.take(i), t.take(j)),
    decreases i + j,
{
    if i == 0 {
        assert(s.take(0) =~= Seq::<char>::empty());
        assert(t.take(j).len() == j);
    } else if j == 0 {
        assert(t.take(0) =~= Seq::<char>::empty());
        assert(s.take(i).len() == i);
    } else {
        lemma_osa_dist_step(s, t, i, j);
        lemma_dl_cell_le_osa(s, t, i - 1, j);
        lemma_dl_cell_le_osa(s, t, i, j - 1);
        lemma_dl_cell_le_osa(s, t, i - 1, j - 1);
        if i >= 2 && j >= 2 && s[i - 1] == t[j - 2] && t[j - 1] == s[i - 2] {
            lemma_dl_cell_le_osa(s, t, i - 2, j - 2);
            assert(dl_last_match(s, t[j - 1], i) == i - 1);
            assert(dl_last_match(t, s[i - 1], j) == j - 1);
            if s[i - 1] == t[j - 1] {
                lemma_osa_dist_step(s, t, i - 1, j - 1);
            }
        }
    }
}

/// The restricted transposition model is the weaker one: the restricted
/// distance is always at least the unrestricted distance of the same pair.
pub proof fn lemma_restricted_ge_unrestricted(s: Seq<char>, t: Seq<char>)
    ensures
        dl_dist(s, t) <= osa_dist(s, t),
{
    lemma_dl_cell_le_osa(s, t, s.len() as int, t.len() as int);
    assert(s.take(s.len() as int) =~= s);
    assert(t.take(t.len() as int) =~= t);
}

/// The distance is a pure function of the engine's fields: any two results
/// that `DamerauLevenshtein::distance` can return for the same engine are
/// equal, so repeated calls yield identical results.
pub proof fn lemma_distance_deterministic(e: &DamerauLevenshtein, r1: usize, r2: usize)
    requires
        call_ensures(DamerauLevenshtein::distance, (e,), r1),
        call_ensures(DamerauLevenshtein::distance, (e,), r2),
    ensures
        r1 == r2,
{
}

/// Comparing a string with itself gives distance zero, similarity equal
/// to the length, and normalized similarity exactly one, under either
/// variant.
pub proof fn lemma_self_comparison(e: &DamerauLevenshtein, d: usize, sim: usize, ns: Ratio)
    requires
        e.src@ == e.tar@,
        call_ensures(DamerauLevenshtein::distance, (e,), d),
        call_ensures(DamerauLevenshtein::similarity, (e,), sim),
        call_ensures(DamerauLevenshtein::normalized_similarity_ratio, (e,), ns),
    ensures
        d == 0,
        sim == e.src@.len(),
        ns.num == ns.den,
{
    lemma_osa_dist_self(e.src@);
    lemma_dl_dist_self(e.src@);
}

/// The distance is symmetric: engines of the same variant holding the same
/// strings in swapped roles return the same distance.
pub proof fn lemma_distance_symmetric(
    a: &DamerauLevenshtein,
    b: &DamerauLevenshtein,
    r1: usize,
    r2: usize,
)
    requires
        a.src@ == b.tar@,
        a.tar@ == b.src@,
        a.restricted == b.restricted,
        call_ensures(DamerauLevenshtein::distance, (a,), r1),
        call_ensures(DamerauLevenshtein::distance, (b,), r2),
    ensures
        r1 == r2,
{
    lemma_osa_dist_symmetric(a.src@, a.tar@);
    lemma_dl_dist_symmetric(a.src@, a.tar@);
}

/// On the same pair of strings, the restricted engine never reports a
/// smaller distance than the unrestricted one.
pub proof fn lemma_restricted_dominates(
    a: &DamerauLevenshtein,
    b: &DamerauLevenshtein,
    r1: usize,
    r2: usize,
)
    requires
        a.src@ == b.src@,
        a.tar@ == b.tar@,
        a.restricted,
        !b.restricted,
        call_ensures(DamerauLevenshtein::distance, (a,), r1),
        call_ensures(DamerauLevenshtein::distance, (b,), r2),
    ensures
        r2 <= r1,
{
    lemma_restricted_ge_unrestricted(a.src@, a.tar@);
}

/// Similarity and distance add up to the longer length.
pub proof fn lemma_similarity_distance_roundtrip(e: &DamerauLevenshtein, d: usize, sim: usize)
    requires
        call_ensures(DamerauLevenshtein::distance, (e,), d),
        call_ensures(DamerauLevenshtein::similarity, (e,), sim),
    ensures
        d + sim == max2(e.src@.len() as int, e.tar@.len() as int),
{
}

/// The Damerau-Levenshtein engine over a pair of strings.
pub struct DamerauLevenshtein {
    /// Source string.
    pub src: String,
    /// Target string.
    pub tar: String,
    /// Selects the restricted (optimal string alignment) variant instead of
    /// the unrestricted one.
    pub restricted: bool,
}

/// The distance the engine computes: the restricted or the unrestricted
/// variant, as selected by the mode flag.
pub open spec fn damerau_dist(s: Seq<char>, t: Seq<char>, restricted: bool) -> int {
    if restricted {
        osa_dist(s, t)
    } else {
        dl_dist(s, t)
    }
}

/// The part of the unrestricted cost table that a row-major fill has
/// already made correct: every cell of a finished row, and the two border
/// columns of every row.
spec fn dl_table_ok(mat: Seq<Vec<usize>>, s: Seq<char>, t: Seq<char>, rows_done: int) -> bool {
    forall|a: int, b: int|
        0 <= a <= s.len() + 1 && 0 <= b <= t.len() + 1 && (a <= rows_done || b <= 1)
            ==> (#[trigger] mat[a]@[b]) == dl_cell(s, t, a, b)
}

impl DamerauLevenshtein {
    /// The lengths are small enough for the cost tables and their entries to
    /// fit the machine's integers.
    pub open spec fn fits(self) -> bool {
        self.src@.len() + self.tar@.len() < usize::MAX / 2
    }

    /// The restricted (optimal string alignment) distance.
    pub fn restricted_distance(&self) -> (r: usize)
        requires
            self.fits(),
        ensures
            r == osa_dist(self.src@, self.tar@),
    {
        let ghost s = self.src@;
        let ghost t = self.tar@;
        let sv = chars_vec(self.src.as_str());
        let tv = chars_vec(self.tar.as_str());
        let n = sv.len();
        let m = tv.len();

        let mut matrix: Vec<Vec<usize>> = Vec::new();
        let mut i: usize = 0;
        while i < n + 1
            invariant
                i <= n + 1,
                n + m < usize::MAX / 2,
                matrix@.len() == i,
                forall|r: int| 0 <= r < i ==> (#[trigger] matrix@[r])@.len() == m + 1,
                forall|r: int, c: int|
                    0 <= r < i && 0 <= c <= m ==> (#[trigger] matrix@[r]@[c]) == 0,
            decreases n + 1 - i,
        {
            let row: Vec<usize> = vec![0usize; m + 1];
            matrix.push(row);
            i = i + 1;
        }

        let mut i: usize = 1;
        while i < n + 1
            invariant
                1 <= i <= n + 1,
                n + m < usize::MAX / 2,
                matrix@.len() == n + 1,
                forall|r: int| 0 <= r <= n ==> (#[trigger] matrix@[r])@.len() == m + 1,
                forall|r: int| 0 <= r < i ==> (#[trigger] matrix@[r]@[0]) == r,
                forall|r: int, c: int|
                    0 <= r <= n && 1 <= c <= m ==> (#[trigger] matrix@[r]@[c]) == 0,
            decreases n + 1 - i,
        {
            matrix[i][0] = i;
            i = i + 1;
        }

        let mut j: usize = 1;
        while j < m + 1
            invariant
                1 <= j <= m + 1,
                n + m < usize::MAX / 2,
                matrix@.len() == n + 1,
                forall|r: int| 0 <= r <= n ==> (#[trigger] matrix@[r])@.len() == m + 1,
                forall|r: int| 0 <= r <= n ==> (#[trigger] matrix@[r]@[0]) == r,
                forall|c: int| 1 <= c < j ==> (#[trigger] matrix@[0]@[c]) == c,
            decreases m + 1 - j,
        {
            matrix[0][j] = j;
            j = j + 1;
        }

        assert forall|r: int, c: int| (r == 0 && 0 <= c <= m) || (0 <= r <= n && c == 0)
            implies (#[trigger] matrix@[r]@[c]) == osa_dist(s.take(r), t.take(c)) by {
            assert(s.take(0) =~= Seq::<char>::empty());
            assert(t.take(0) =~= Seq::<char>::empty());
            assert(s.take(r).len() == r);
            assert(t.take(c).len() == c);
        }

        let mut i: usize = 0;
        while i < n
            invariant
                i <= n,
                n + m < usize::MAX / 2,
                n == s.len(),
                m == t.len(),
                sv@ == s,
                tv@ == t,
                matrix@.len() == n + 1,
                forall|r: int| 0 <= r <= n ==> (#[trigger] matrix@[r])@.len() == m + 1,
                forall|r: int| 0 <= r <= n ==> (#[trigger] matrix@[r]@[0]) == osa_dist(
                    s.take(r),
                    t.take(0),
                ),
                forall|r: int, c: int|
                    0 <= r <= i && 0 <= c <= m ==> (#[trigger] matrix@[r]@[c]) == osa_dist(
                        s.take(r),
                        t.take(c),
                    ),
            decreases n - i,
        {
            let mut j: usize = 0;
            while j < m
                invariant
                    i < n,
                    j <= m,
                    n + m < usize::MAX / 2,
                    n == s.len(),
                    m == t.len(),
                    sv@ == s,
                    tv@ == t,
                    matrix@.len() == n + 1,
                    forall|r: int| 0 <= r <= n ==> (#[trigger] matrix@[r])@.len() == m + 1,
                    forall|r: int| 0 <= r <= n ==> (#[trigger] matrix@[r]@[0]) == osa_dist(
                        s.take(r),
                        t.take(0),
                    ),
                    forall|r: int, c: int|
                        0 <= r <= i && 0 <= c <= m ==> (#[trigger] matrix@[r]@[c]) == osa_dist(
                            s.take(r),
                            t.take(c),
                        ),
                    forall|c: int|
                        0 <= c <= j ==> (#[trigger] matrix@[i + 1]@[c]) == osa_dist(
                            s.take(i + 1),
                            t.take(c),
                        ),
                decreases m - j,
            {
                let cost: usize = if sv[i] == tv[j] {
                    0
                } else {
                    1
                };
                proof {
                    lemma_osa_dist_step(s, t, i + 1, j + 1);
                    lemma_osa_dist_bounds(s.take(i as int), t.take(j + 1));
                    lemma_osa_dist_bounds(s.take(i + 1), t.take(j as int));
                    lemma_osa_dist_bounds(s.take(i as int), t.take(j as int));
                }
                let mut d = min_of_3(
                    matrix[i][j + 1] + 1,
                    matrix[i + 1][j] + 1,
                    matrix[i][j] + cost,
                );
                if i >= 1 && j >= 1 && sv[i] == tv[j - 1] && tv[j] == sv[i - 1] {
                    proof {
                        lemma_osa_dist_bounds(s.take(i - 1), t.take(j - 1));
                    }
                    let swap = matrix[i - 1][j - 1] + cost;
                    if swap < d {
                        d = swap;
                    }
                }
                matrix[i + 1][j + 1] = d;
                j = j + 1;
            }
            i = i + 1;
        }

        proof {
            assert(s.take(n as int) =~= s);
            assert(t.take(m as int) =~= t);
        }
        matrix[n][m]
    }

    /// The unrestricted Damerau-Levenshtein distance, allowing
    /// transpositions of characters arbitrarily far apart.
    pub fn unrestricted_distance(&self) -> (r: usize)
        requires
            self.fits(),
        ensures
            r == dl_dist(self.src@, self.tar@),
    {
        let ghost s = self.src@;
        let ghost t = self.tar@;
        let sv = chars_vec(self.src.as_str());
        let tv = chars_vec(self.tar.as_str());
        let n = sv.len();
        let m = tv.len();
        let max_dist = n + m;

        let mut matrix: Vec<Vec<usize>> = Vec::new();
        let mut i: usize = 0;
        while i < n + 2
            invariant
                i <= n + 2,
                n + m < usize::MAX / 2,
                matrix@.len() == i,
                forall|r: int| 0 <= r < i ==> (#[trigger] matrix@[r])@.len() == m + 2,
                forall|r: int, c: int|
                    0 <= r < i && 0 <= c <= m + 1 ==> (#[trigger] matrix@[r]@[c]) == 0,
            decreases n + 2 - i,
        {
            let row: Vec<usize> = vec![0usize; m + 2];
            matrix.push(row);
            i = i + 1;
        }

        matrix[0][0] = max_dist;
        let mut i: usize = 0;
        while i < n + 1
            invariant
                i <= n + 1,
                n + m < usize::MAX / 2,
                max_dist == n + m,
                matrix@.len() == n + 2,
                forall|r: int| 0 <= r <= n + 1 ==> (#[trigger] matrix@[r])@.len() == m + 2,
                matrix@[0]@[0] == n + m,
                forall|r: int| 1 <= r <= i ==> (#[trigger] matrix@[r]@[0]) == n + m,
                forall|r: int| 1 <= r <= i ==> (#[trigger] matrix@[r]@[1]) == r - 1,
                forall|c: int| 1 <= c <= m + 1 ==> (#[trigger] matrix@[0]@[c]) == 0,
                forall|r: int, c: int|
                    1 <= r <= n + 1 && 2 <= c <= m + 1 ==> (#[trigger] matrix@[r]@[c]) == 0,
            decreases n + 1 - i,
        {
            matrix[i + 1][0] = max_dist;
            matrix[i + 1][1] = i;
            i = i + 1;
        }

        let mut j: usize = 0;
        while j < m + 1
            invariant
                j <= m + 1,
                n + m < usize::MAX / 2,
                max_dist == n + m,
                matrix@.len() == n + 2,
                forall|r: int| 0 <= r <= n + 1 ==> (#[trigger] matrix@[r])@.len() == m + 2,
                matrix@[0]@[0] == n + m,
                forall|r: int| 1 <= r <= n + 1 ==> (#[trigger] matrix@[r]@[0]) == n + m,
                forall|r: int| 1 <= r <= n + 1 ==> (#[trigger] matrix@[r]@[1]) == r - 1,
                forall|c: int| 1 <= c <= j ==> (#[trigger] matrix@[0]@[c]) == n + m,
                forall|c: int| 1 <= c <= j ==> (#[trigger] matrix@[1]@[c]) == c - 1,
                forall|c: int| j < c <= m + 1 ==> (#[trigger] matrix@[0]@[c]) == 0,
                forall|r: int, c: int|
                    2 <= r <= n + 1 && 2 <= c <= m + 1 ==> (#[trigger] matrix@[r]@[c]) == 0,
                forall|c: int| j < c <= m + 1 && c >= 2 ==> (#[trigger] matrix@[1]@[c]) == 0,
            decreases m + 1 - j,
        {
            matrix[0][j + 1] = max_dist;
            matrix[1][j + 1] = j;
            j = j + 1;
        }

        assert(dl_table_ok(matrix@, s, t, 1)) by {
            assert forall|a: int, b: int|
                0 <= a <= n + 1 && 0 <= b <= m + 1 && (a <= 1 || b <= 1) implies (
            #[trigger] matrix@[a]@[b]) == dl_cell(s, t, a, b) by {
                assert(s.len() == n);
                assert(t.len() == m);
            }
        }

        let mut kvec: Vec<usize> = vec![0usize; m];
        let mut i: usize = 1;
        while i < n + 1
            invariant
                1 <= i <= n + 1,
                n + m < usize::MAX / 2,
                n == s.len(),
                m == t.len(),
                sv@ == s,
                tv@ == t,
                matrix@.len() == n + 2,
                forall|r: int| 0 <= r <= n + 1 ==> (#[trigger] matrix@[r])@.len() == m + 2,
                kvec@.len() == m,
                forall|x: int| 0 <= x < m ==> (#[trigger] kvec@[x]) == dl_last_match(s, t[x], i as int),
                dl_table_ok(matrix@, s, t, i as int),
            decreases n + 1 - i,
        {
            let mut db: usize = 0;
            let mut j: usize = 1;
            while j < m + 1
                invariant
                    1 <= i <= n,
                    1 <= j <= m + 1,
                    n + m < usize::MAX / 2,
                    n == s.len(),
                    m == t.len(),
                    sv@ == s,
                    tv@ == t,
                    matrix@.len() == n + 2,
                    forall|r: int| 0 <= r <= n + 1 ==> (#[trigger] matrix@[r])@.len() == m + 2,
                    kvec@.len() == m,
                    forall|x: int|
                        0 <= x < m ==> (#[trigger] kvec@[x]) == dl_last_match(s, t[x], i as int),
                    db == dl_last_match(t, s[i - 1], j as int),
                    dl_table_ok(matrix@, s, t, i as int),
                    forall|b: int|
                        0 <= b <= j ==> (#[trigger] matrix@[i + 1]@[b]) == dl_cell(s, t, i + 1, b),
                decreases m + 1 - j,
            {
                let k = kvec[j - 1];
                let l = db;
                let cost: usize = if sv[i - 1] == tv[j - 1] {
                    db = j;
                    0
                } else {
                    1
                };
                proof {
                    lemma_dl_last_match_bounds(s, t[j - 1], i as int);
                    lemma_dl_last_match_bounds(t, s[i - 1], j as int);
                    lemma_dl_cell_bounds(s, t, i as int, j as int);
                    lemma_dl_cell_bounds(s, t, i + 1, j as int);
                    lemma_dl_cell_bounds(s, t, i as int, j + 1);
                    if k >= 1 && l >= 1 {
                        lemma_dl_cell_bounds(s, t, k as int, l as int);
                    }
                }
                let sub = matrix[i][j] + cost;
                let ins = matrix[i + 1][j] + 1;
                let del = matrix[i][j + 1] + 1;
                let tra = matrix[k][l] + (i - k - 1) + 1 + (j - l - 1);
                let mut d = min_of_3(sub, ins, del);
                if tra < d {
                    d = tra;
                }
                matrix[i + 1][j + 1] = d;
                j = j + 1;
            }
            let mut jj: usize = 0;
            while jj < m
                invariant
                    1 <= i <= n,
                    jj <= m,
                    n + m < usize::MAX / 2,
                    n == s.len(),
                    m == t.len(),
                    sv@ == s,
                    tv@ == t,
                    matrix@.len() == n + 2,
                    forall|r: int| 0 <= r <= n + 1 ==> (#[trigger] matrix@[r])@.len() == m + 2,
                    dl_table_ok(matrix@, s, t, i + 1),
                    kvec@.len() == m,
                    forall|x: int|
                        0 <= x < jj ==> (#[trigger] kvec@[x]) == dl_last_match(s, t[x], i + 1),
                    forall|x: int|
                        jj <= x < m ==> (#[trigger] kvec@[x]) == dl_last_match(s, t[x], i as int),
                decreases m - jj,
            {
                if tv[jj] == sv[i - 1] {
                    kvec[jj] = i;
                }
                jj = jj + 1;
            }
            i = i + 1;
        }

        matrix[n + 1][m + 1]
    }

    /// The distance of the variant the mode flag selects.
    pub fn distance(&self) -> (r: usize)
        requires
            self.fits(),
        ensures
            r == damerau_dist(self.src@, self.tar@, self.restricted),
    {
        if self.restricted {
            self.restricted_distance()
        } else {
            self.unrestricted_distance()
        }
    }

    /// The similarity: the longer length minus the distance.  Similarity and
    /// distance always add up to the longer length.
    pub fn similarity(&self) -> (r: usize)
        requires
            self.fits(),
        ensures
            r + damerau_dist(self.src@, self.tar@, self.restricted) == max2(
                self.src@.len() as int,
                self.tar@.len() as int,
            ),
    {
        let maximum = max_text_length(self.src.clone(), self.tar.clone());
        let d = self.distance();
        proof {
            lemma_osa_dist_bounds(self.src@, self.tar@);
            lemma_dl_dist_bounds(self.src@, self.tar@);
        }
        maximum - d
    }

    /// The distance divided by the longer length, as an exact rational;
    /// `0/1` for a pair of empty strings.
    pub fn normalized_distance_ratio(&self) -> (r: Ratio)
        requires
            self.fits(),
        ensures
            self.src@.len() == 0 && self.tar@.len() == 0 ==> r == (Ratio { num: 0, den: 1 }),
            self.src@.len() + self.tar@.len() > 0 ==> r == (Ratio {
                num: damerau_dist(self.src@, self.tar@, self.restricted) as u128,
                den: max2(self.src@.len() as int, self.tar@.len() as int) as u128,
            }),
            r.wf(),
    {
        let maximum = max_text_length(self.src.clone(), self.tar.clone());
        let d = self.distance();
        proof {
            lemma_osa_dist_bounds(self.src@, self.tar@);
            lemma_dl_dist_bounds(self.src@, self.tar@);
        }
        if maximum == 0 {
            Ratio { num: 0, den: 1 }
        } else {
            Ratio { num: d as u128, den: maximum as u128 }
        }
    }

    /// One minus the normalized distance, over the same denominator.
    pub fn normalized_similarity_ratio(&self) -> (r: Ratio)
        requires
            self.fits(),
        ensures
            ({
                let nd = if self.src@.len() == 0 && self.tar@.len() == 0 {
                    Ratio { num: 0, den: 1 }
                } else {
                    Ratio {
                        num: damerau_dist(self.src@, self.tar@, self.restricted) as u128,
                        den: max2(self.src@.len() as int, self.tar@.len() as int) as u128,
                    }
                };
                r == nd.spec_complement() && r.wf()
            }),
    {
        let nd = self.normalized_distance_ratio();
        nd.complement()
    }
}

} // verus!

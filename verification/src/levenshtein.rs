//! The Levenshtein engine: edit distance with insertions, deletions and
//! substitutions, computed over a dynamic-programming cost table.

use vstd::prelude::*;

use crate::helpers::char_cost;
use crate::helpers::chars_vec;
use crate::helpers::max2;
use crate::helpers::max_text_length;
use crate::helpers::min3;
use crate::helpers::min_of_3;
use crate::ratio::Ratio;

verus! {

/// The Levenshtein distance between two sequences of code points: the least
/// number of single-character insertions, deletions and substitutions that
/// turns one into the other, defined by the classic recurrence on the last
/// characters.
pub open spec fn lev_dist(s: Seq<char>, t: Seq<char>) -> int
    decreases s.len() + t.len(),
{
    if s.len() == 0 {
        t.len() as int
    } else if t.len() == 0 {
        s.len() as int
    } else {
        min3(
            lev_dist(s.drop_last(), t) + 1,
            lev_dist(s, t.drop_last()) + 1,
            lev_dist(s.drop_last(), t.drop_last()) + char_cost(s.last(), t.last()),
        )
    }
}

/// The recurrence, restated over prefixes: the cost table cell for the
/// prefix pair `(i, j)` is the minimum over deletion, insertion and
/// substitution of its three predecessor cells.
proof fn lemma_lev_dist_step(s: Seq<char>, t: Seq<char>, i: int, j: int)
    requires
        1 <= i <= s.len(),
        1 <= j <= t.len(),
    ensures
        lev_dist(s.take(i), t.take(j)) == min3(
            lev_dist(s.take(i - 1), t.take(j)) + 1,
            lev_dist(s.take(i), t.take(j - 1)) + 1,
            lev_dist(s.take(i - 1), t.take(j - 1)) + char_cost(s[i - 1], t[j - 1]),
        ),
{
    assert(s.take(i).drop_last() =~= s.take(i - 1));
    assert(t.take(j).drop_last() =~= t.take(j - 1));
    assert(s.take(i).last() == s[i - 1]);
    assert(t.take(j).last() == t[j - 1]);
}

/// The distance is non-negative and never exceeds the longer length.
pub proof fn lemma_lev_dist_bounds(s: Seq<char>, t: Seq<char>)
    ensures
        0 <= lev_dist(s, t) <= max2(s.len() as int, t.len() as int),
    decreases s.len() + t.len(),
{
    if s.len() != 0 && t.len() != 0 {
        lemma_lev_dist_bounds(s.drop_last(), t);
        lemma_lev_dist_bounds(s, t.drop_last());
        lemma_lev_dist_bounds(s.drop_last(), t.drop_last());
    }
}

/// A sequence is at distance zero from itself.
pub proof fn lemma_lev_dist_self(s: Seq<char>)
    ensures
        lev_dist(s, s) == 0,
    decreases s.len(),
{
    if s.len() != 0 {
        lemma_lev_dist_self(s.drop_last());
        lemma_lev_dist_bounds(s.drop_last(), s);
        lemma_lev_dist_bounds(s, s.drop_last());
    }
}

/// The distance is symmetric in its two arguments.
pub proof fn lemma_lev_dist_symmetric(s: Seq<char>, t: Seq<char>)
    ensures
        lev_dist(s, t) == lev_dist(t, s),
    decreases s.len() + t.len(),
{
    if s.len() != 0 && t.len() != 0 {
        lemma_lev_dist_symmetric(s.drop_last(), t);
        lemma_lev_dist_symmetric(s, t.drop_last());
        lemma_lev_dist_symmetric(s.drop_last(), t.drop_last());
    }
}

/// The distance is a pure function of the engine's fields: any two results
/// that `Levenshtein::distance` can return for the same engine are equal,
/// so repeated calls yield identical results.
pub proof fn lemma_distance_deterministic(e: &Levenshtein, r1: usize, r2: usize)
    requires
        call_ensures(Levenshtein::distance, (e,), r1),
        call_ensures(Levenshtein::distance, (e,), r2),
    ensures
        r1 == r2,
{
}

/// Comparing a string with itself gives distance zero, similarity equal
/// to the length, and normalized similarity exactly one.
pub proof fn lemma_self_comparison(e: &Levenshtein, d: usize, sim: usize, ns: Ratio)
    requires
        e.src@ == e.tar@,
        call_ensures(Levenshtein::distance, (e,), d),
        call_ensures(Levenshtein::similarity, (e,), sim),
        call_ensures(Levenshtein::normalized_similarity_ratio, (e,), ns),
    ensures
        d == 0,
        sim == e.src@.len(),
        ns.num == ns.den,
{
    lemma_lev_dist_self(e.src@);
}

/// The distance is symmetric: engines holding the same strings in swapped
/// roles return the same distance.
pub proof fn lemma_distance_symmetric(a: &Levenshtein, b: &Levenshtein, r1: usize, r2: usize)
    requires
        a.src@ == b.tar@,
        a.tar@ == b.src@,
        call_ensures(Levenshtein::distance, (a,), r1),
        call_ensures(Levenshtein::distance, (b,), r2),
    ensures
        r1 == r2,
{
    lemma_lev_dist_symmetric(a.src@, a.tar@);
}

/// Similarity and distance add up to the longer length.
pub proof fn lemma_similarity_distance_roundtrip(e: &Levenshtein, d: usize, sim: usize)
    requires
        call_ensures(Levenshtein::distance, (e,), d),
        call_ensures(Levenshtein::similarity, (e,), sim),
    ensures
        d + sim == max2(e.src@.len() as int, e.tar@.len() as int),
{
}

/// The Levenshtein engine over a pair of strings.
pub struct Levenshtein {
    /// Source string.
    pub src: String,
    /// Target string.
    pub tar: String,
}

impl Levenshtein {
    /// The Levenshtein distance between the two strings: the least number of
    /// single-character insertions, deletions and substitutions turning the
    /// source into the target.
    pub fn distance(&self) -> (r: usize)
        requires
            self.src@.len() < usize::MAX,
            self.tar@.len() < usize::MAX,
        ensures
            r == lev_dist(self.src@, self.tar@),
    {
        let ghost s = self.src@;
        let ghost t = self.tar@;
        let sv = chars_vec(self.src.as_str());
        let tv = chars_vec(self.tar.as_str());
        let n = sv.len();
        let m = tv.len();

        let mut matrix: Vec<Vec<usize>> = Vec::new();
        let mut i: usize = 0;
        while i < n + 1
            invariant
                i <= n + 1,
                n < usize::MAX,
                m < usize::MAX,
                matrix@.len() == i,
                forall|r: int| 0 <= r < i ==> (#[trigger] matrix@[r])@.len() == m + 1,
                forall|r: int, c: int|
                    0 <= r < i && 0 <= c <= m ==> (#[trigger] matrix@[r]@[c]) == 0,
            decreases n + 1 - i,
        {
            let row: Vec<usize> = vec![0usize; m + 1];
            matrix.push(row);
            i = i + 1;
        }

        let mut i: usize = 1;
        while i < n + 1
            invariant
                1 <= i <= n + 1,
                n < usize::MAX,
                n == s.len(),
                m == t.len(),
                matrix@.len() == n + 1,
                forall|r: int| 0 <= r <= n ==> (#[trigger] matrix@[r])@.len() == m + 1,
                forall|r: int| 0 <= r < i ==> (#[trigger] matrix@[r]@[0]) == r,
                forall|r: int, c: int|
                    0 <= r <= n && 1 <= c <= m ==> (#[trigger] matrix@[r]@[c]) == 0,
            decreases n + 1 - i,
        {
            matrix[i][0] = i;
            i = i + 1;
        }

        let mut j: usize = 1;
        while j < m + 1
            invariant
                1 <= j <= m + 1,
                m < usize::MAX,
                n == s.len(),
                m == t.len(),
                matrix@.len() == n + 1,
                forall|r: int| 0 <= r <= n ==> (#[trigger] matrix@[r])@.len() == m + 1,
                forall|r: int| 0 <= r <= n ==> (#[trigger] matrix@[r]@[0]) == r,
                forall|c: int| 1 <= c < j ==> (#[trigger] matrix@[0]@[c]) == c,
            decreases m + 1 - j,
        {
            matrix[0][j] = j;
            j = j + 1;
        }

        assert forall|r: int, c: int| (0 <= r <= 0 && 0 <= c <= m) || (0 <= r <= n && c == 0)
            implies (#[trigger] matrix@[r]@[c]) == lev_dist(s.take(r), t.take(c)) by {
            assert(s.take(0) =~= Seq::<char>::empty());
            assert(t.take(0) =~= Seq::<char>::empty());
            assert(s.take(r).len() == r);
            assert(t.take(c).len() == c);
        }

        let mut i: usize = 0;
        while i < n
            invariant
                i <= n,
                n < usize::MAX,
                m < usize::MAX,
                n == s.len(),
                m == t.len(),
                sv@ == s,
                tv@ == t,
                matrix@.len() == n + 1,
                forall|r: int| 0 <= r <= n ==> (#[trigger] matrix@[r])@.len() == m + 1,
                forall|r: int| 0 <= r <= n ==> (#[trigger] matrix@[r]@[0]) == lev_dist(
                    s.take(r),
                    t.take(0),
                ),
                forall|r: int, c: int|
                    0 <= r <= i && 0 <= c <= m ==> (#[trigger] matrix@[r]@[c]) == lev_dist(
                        s.take(r),
                        t.take(c),
                    ),
            decreases n - i,
        {
            let mut j: usize = 0;
            while j < m
                invariant
                    i < n,
                    j <= m,
                    n < usize::MAX,
                    m < usize::MAX,
                    n == s.len(),
                    m == t.len(),
                    sv@ == s,
                    tv@ == t,
                    matrix@.len() == n + 1,
                    forall|r: int| 0 <= r <= n ==> (#[trigger] matrix@[r])@.len() == m + 1,
                    forall|r: int| 0 <= r <= n ==> (#[trigger] matrix@[r]@[0]) == lev_dist(
                        s.take(r),
                        t.take(0),
                    ),
                    forall|r: int, c: int|
                        0 <= r <= i && 0 <= c <= m ==> (#[trigger] matrix@[r]@[c]) == lev_dist(
                            s.take(r),
                            t.take(c),
                        ),
                    forall|c: int|
                        0 <= c <= j ==> (#[trigger] matrix@[i + 1]@[c]) == lev_dist(
                            s.take(i + 1),
                            t.take(c),
                        ),
                decreases m - j,
            {
                let cost: usize = if sv[i] == tv[j] {
                    0
                } else {
                    1
                };
                proof {
                    lemma_lev_dist_step(s, t, i + 1, j + 1);
                    lemma_lev_dist_bounds(s.take(i as int), t.take(j + 1));
                    lemma_lev_dist_bounds(s.take(i + 1), t.take(j as int));
                    lemma_lev_dist_bounds(s.take(i as int), t.take(j as int));
                }
                let d = min_of_3(matrix[i][j + 1] + 1, matrix[i + 1][j] + 1, matrix[i][j] + cost);
                matrix[i + 1][j + 1] = d;
                j = j + 1;
            }
            i = i + 1;
        }

        proof {
            assert(s.take(n as int) =~= s);
            assert(t.take(m as int) =~= t);
        }
        matrix[n][m]
    }

    /// The similarity: the longer length minus the distance.  Similarity and
    /// distance always add up to the longer length.
    pub fn similarity(&self) -> (r: usize)
        requires
            self.src@.len() < usize::MAX,
            self.tar@.len() < usize::MAX,
        ensures
            r + lev_dist(self.src@, self.tar@) == max2(
                self.src@.len() as int,
                self.tar@.len() as int,
            ),
    {
        let maximum = max_text_length(self.src.clone(), self.tar.clone());
        let d = self.distance();
        proof {
            lemma_lev_dist_bounds(self.src@, self.tar@);
        }
        maximum - d
    }

    /// The distance divided by the longer length, as an exact rational;
    /// `0/1` for a pair of empty strings.
    pub fn normalized_distance_ratio(&self) -> (r: Ratio)
        requires
            self.src@.len() < usize::MAX,
            self.tar@.len() < usize::MAX,
        ensures
            self.src@.len() == 0 && self.tar@.len() == 0 ==> r == (Ratio { num: 0, den: 1 }),
            self.src@.len() + self.tar@.len() > 0 ==> r == (Ratio {
                num: lev_dist(self.src@, self.tar@) as u128,
                den: max2(self.src@.len() as int, self.tar@.len() as int) as u128,
            }),
            r.wf(),
    {
        let maximum = max_text_length(self.src.clone(), self.tar.clone());
        let d = self.distance();
        proof {
            lemma_lev_dist_bounds(self.src@, self.tar@);
        }
        if maximum == 0 {
            Ratio { num: 0, den: 1 }
        } else {
            Ratio { num: d as u128, den: maximum as u128 }
        }
    }

    /// One minus the normalized distance, over the same denominator.
    pub fn normalized_similarity_ratio(&self) -> (r: Ratio)
        requires
            self.src@.len() < usize::MAX,
            self.tar@.len() < usize::MAX,
        ensures
            ({
                let nd = if self.src@.len() == 0 && self.tar@.len() == 0 {
                    Ratio { num: 0, den: 1 }
                } else {
                    Ratio {
                        num: lev_dist(self.src@, self.tar@) as u128,
                        den: max2(self.src@.len() as int, self.tar@.len() as int) as u128,
                    }
                };
                r == nd.spec_complement() && r.wf()
            }),
    {
        let nd = self.normalized_distance_ratio();
        nd.complement()
    }
}

} // verus!

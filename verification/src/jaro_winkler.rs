//! The Jaro / Jaro-Winkler engine: a bounded-window character matching
//! algorithm, a transposition count over the matched characters, and an
//! optional boost for a shared prefix.
//!
//! Characters are compared as decoded code points throughout, including the
//! transposition walk, so multi-byte characters are handled exactly.

use vstd::prelude::*;

use crate::helpers::char_cost;
use crate::helpers::chars_vec;
use crate::helpers::max2;
use crate::helpers::min2;
use crate::ratio::Ratio;

verus! {

/// The match window radius: half the longer length, less one, clamped so
/// that it can never fall below zero.
pub open spec fn jaro_radius(ls: int, lt: int) -> int {
    let mx = max2(ls, lt);
    if mx / 2 >= 1 {
        mx / 2 - 1
    } else {
        0
    }
}

/// The first position of the window for source position `i`.
pub open spec fn win_lo(i: int, r: int) -> int {
    if i > r {
        i - r
    } else {
        0
    }
}

/// One past the last position of the window for source position `i`.
pub open spec fn win_hi(i: int, r: int, lt: int) -> int {
    if i + r + 1 <= lt {
        i + r + 1
    } else {
        lt
    }
}

/// The first position in `[lo, hi)` holding `c` and not yet matched, if
/// any.
pub open spec fn find_match(c: char, t: Seq<char>, tm: Seq<bool>, lo: int, hi: int) -> Option<int>
    decreases hi - lo,
{
    if lo >= hi {
        None
    } else if t[lo] == c && !tm[lo] {
        Some(lo)
    } else {
        find_match(c, t, tm, lo + 1, hi)
    }
}

/// What a found position satisfies: it lies in the window, matches the
/// character, was unmatched, and nothing earlier in the window qualified.
pub proof fn lemma_find_match_props(c: char, t: Seq<char>, tm: Seq<bool>, lo: int, hi: int)
    requires
        find_match(c, t, tm, lo, hi) is Some,
    ensures
        ({
            let j = find_match(c, t, tm, lo, hi)->0;
            lo <= j < hi && t[j] == c && !tm[j] && (forall|x: int|
                lo <= x < j ==> !(t[x] == c && !(#[trigger] tm[x])))
        }),
    decreases hi - lo,
{
    if lo < hi && !(t[lo] == c && !tm[lo]) {
        lemma_find_match_props(c, t, tm, lo + 1, hi);
    }
}

/// The number of `true` flags.
pub open spec fn count_true(tm: Seq<bool>) -> int
    decreases tm.len(),
{
    if tm.len() == 0 {
        0
    } else {
        count_true(tm.drop_last()) + if tm.last() {
            1int
        } else {
            0int
        }
    }
}

/// The count lies between zero and the number of flags.
pub proof fn lemma_count_true_bounds(tm: Seq<bool>)
    ensures
        0 <= count_true(tm) <= tm.len(),
    decreases tm.len(),
{
    if tm.len() != 0 {
        lemma_count_true_bounds(tm.drop_last());
    }
}

/// A sequence of only `false` flags counts zero.
pub proof fn lemma_count_true_all_false(tm: Seq<bool>)
    requires
        forall|x: int| 0 <= x < tm.len() ==> !(#[trigger] tm[x]),
    ensures
        count_true(tm) == 0,
    decreases tm.len(),
{
    if tm.len() != 0 {
        lemma_count_true_all_false(tm.drop_last());
    }
}

/// Counting one more position adds that position's flag.
pub proof fn lemma_count_true_take_step(tm: Seq<bool>, k: int)
    requires
        0 <= k < tm.len(),
    ensures
        count_true(tm.take(k + 1)) == count_true(tm.take(k)) + if tm[k] {
            1int
        } else {
            0int
        },
{
    assert(tm.take(k + 1).drop_last() =~= tm.take(k));
    assert(tm.take(k + 1).last() == tm[k]);
}

/// Setting an unset flag raises the count by one.
pub proof fn lemma_count_true_update(tm: Seq<bool>, j: int)
    requires
        0 <= j < tm.len(),
        !tm[j],
    ensures
        count_true(tm.update(j, true)) == count_true(tm) + 1,
    decreases tm.len(),
{
    if j == tm.len() - 1 {
        assert(tm.update(j, true).drop_last() =~= tm.drop_last());
    } else {
        assert(tm.update(j, true).drop_last() =~= tm.drop_last().update(j, true));
        assert(tm.update(j, true).last() == tm.last());
        lemma_count_true_update(tm.drop_last(), j);
    }
}

/// The count over a prefix never drops as the prefix grows.
pub proof fn lemma_count_true_take_monotone(tm: Seq<bool>, a: int, b: int)
    requires
        0 <= a <= b <= tm.len(),
    ensures
        count_true(tm.take(a)) <= count_true(tm.take(b)),
    decreases b - a,
{
    if a < b {
        lemma_count_true_take_step(tm, b - 1);
        lemma_count_true_take_monotone(tm, a, b - 1);
    }
}

/// The target-side match flags after the first `i` source characters have
/// been processed: each source character claims the first unmatched equal
/// character inside its window, scanning the target left to right.
pub open spec fn tar_flags(s: Seq<char>, t: Seq<char>, r: int, i: int) -> Seq<bool>
    decreases i,
{
    if i <= 0 {
        Seq::new(t.len(), |x: int| false)
    } else {
        let tm = tar_flags(s, t, r, i - 1);
        match find_match(s[i - 1], t, tm, win_lo(i - 1, r), win_hi(i - 1, r, t.len() as int)) {
            Some(j) => tm.update(j, true),
            None => tm,
        }
    }
}

/// The flags always cover the whole target.
pub proof fn lemma_tar_flags_len(s: Seq<char>, t: Seq<char>, r: int, i: int)
    ensures
        tar_flags(s, t, r, i).len() == t.len(),
    decreases i,
{
    if i > 0 {
        lemma_tar_flags_len(s, t, r, i - 1);
        let tm = tar_flags(s, t, r, i - 1);
        if find_match(s[i - 1], t, tm, win_lo(i - 1, r), win_hi(i - 1, r, t.len() as int))
            is Some {
            lemma_find_match_props(
                s[i - 1],
                t,
                tm,
                win_lo(i - 1, r),
                win_hi(i - 1, r, t.len() as int),
            );
        }
    }
}

/// Whether source position `i` found a match, given the flags at its turn.
pub open spec fn src_flag(s: Seq<char>, t: Seq<char>, r: int, i: int) -> bool {
    find_match(s[i], t, tar_flags(s, t, r, i), win_lo(i, r), win_hi(i, r, t.len() as int)) is Some
}

/// The number of matched characters.
pub open spec fn jaro_matches(s: Seq<char>, t: Seq<char>, r: int) -> int {
    count_true(tar_flags(s, t, r, s.len() as int))
}

/// The matched source characters among the first `i`, in source order.
pub open spec fn matched_src_chars(s: Seq<char>, t: Seq<char>, r: int, i: int) -> Seq<char>
    decreases i,
{
    if i <= 0 {
        Seq::empty()
    } else if src_flag(s, t, r, i - 1) {
        matched_src_chars(s, t, r, i - 1).push(s[i - 1])
    } else {
        matched_src_chars(s, t, r, i - 1)
    }
}

/// The matched target characters among the first `j`, in target order.
pub open spec fn matched_tar_chars(t: Seq<char>, tm: Seq<bool>, j: int) -> Seq<char>
    decreases j,
{
    if j <= 0 {
        Seq::empty()
    } else if tm[j - 1] {
        matched_tar_chars(t, tm, j - 1).push(t[j - 1])
    } else {
        matched_tar_chars(t, tm, j - 1)
    }
}

/// There are as many matched target characters as `true` flags.
pub proof fn lemma_mtc_len(t: Seq<char>, tm: Seq<bool>, j: int)
    requires
        0 <= j <= tm.len(),
    ensures
        matched_tar_chars(t, tm, j).len() == count_true(tm.take(j)),
    decreases j,
{
    if j > 0 {
        lemma_mtc_len(t, tm, j - 1);
        lemma_count_true_take_step(tm, j - 1);
    }
}

/// Once every `true` flag lies below `k`, walking further right adds no
/// matched characters.
pub proof fn lemma_mtc_stable(t: Seq<char>, tm: Seq<bool>, k: int, j: int)
    requires
        0 <= k <= j <= tm.len(),
        count_true(tm.take(k)) == count_true(tm.take(j)),
    ensures
        matched_tar_chars(t, tm, j) == matched_tar_chars(t, tm, k),
    decreases j - k,
{
    if k < j {
        lemma_count_true_take_step(tm, j - 1);
        lemma_count_true_take_monotone(tm, k, j - 1);
        assert(!tm[j - 1]);
        lemma_mtc_stable(t, tm, k, j - 1);
    }
}

/// The number of positions below `n` where the two sequences differ.
pub open spec fn diff_count(a: Seq<char>, b: Seq<char>, n: int) -> int
    decreases n,
{
    if n <= 0 {
        0
    } else {
        diff_count(a, b, n - 1) + char_cost(a[n - 1], b[n - 1])
    }
}

/// The difference count lies between zero and `n`.
pub proof fn lemma_diff_count_bounds(a: Seq<char>, b: Seq<char>, n: int)
    ensures
        0 <= diff_count(a, b, n) <= max2(n, 0),
    decreases n,
{
    if n > 0 {
        lemma_diff_count_bounds(a, b, n - 1);
    }
}

/// The difference count only looks below `n`: sequences that agree there
/// give the same count.
pub proof fn lemma_diff_count_agree(a1: Seq<char>, b1: Seq<char>, a2: Seq<char>, b2: Seq<char>, n: int)
    requires
        forall|x: int| 0 <= x < n ==> a1[x] == a2[x],
        forall|x: int| 0 <= x < n ==> b1[x] == b2[x],
    ensures
        diff_count(a1, b1, n) == diff_count(a2, b2, n),
    decreases n,
{
    if n > 0 {
        lemma_diff_count_agree(a1, b1, a2, b2, n - 1);
    }
}

/// The number of transpositions: matched source characters and matched
/// target characters walked in step, counting the ranks where they differ.
pub open spec fn jaro_transpositions(s: Seq<char>, t: Seq<char>, r: int) -> int {
    let tm = tar_flags(s, t, r, s.len() as int);
    diff_count(
        matched_src_chars(s, t, r, s.len() as int),
        matched_tar_chars(t, tm, t.len() as int),
        count_true(tm),
    )
}

/// As many source characters have matched as flags are set.
pub proof fn lemma_matched_counts(s: Seq<char>, t: Seq<char>, r: int, i: int)
    requires
        0 <= i <= s.len(),
    ensures
        matched_src_chars(s, t, r, i).len() == count_true(tar_flags(s, t, r, i)),
        matched_src_chars(s, t, r, i).len() <= i,
    decreases i,
{
    if i == 0 {
        assert forall|x: int| 0 <= x < tar_flags(s, t, r, 0).len() implies !(#[trigger] tar_flags(
            s,
            t,
            r,
            0,
        )[x]) by {}
        lemma_count_true_all_false(tar_flags(s, t, r, 0));
    } else {
        lemma_matched_counts(s, t, r, i - 1);
        lemma_tar_flags_len(s, t, r, i - 1);
        let tm = tar_flags(s, t, r, i - 1);
        let fm = find_match(s[i - 1], t, tm, win_lo(i - 1, r), win_hi(i - 1, r, t.len() as int));
        if fm is Some {
            lemma_find_match_props(
                s[i - 1],
                t,
                tm,
                win_lo(i - 1, r),
                win_hi(i - 1, r, t.len() as int),
            );
            lemma_count_true_update(tm, fm->0);
        }
    }
}

/// The length of the longest common leading run of the two sequences.
pub open spec fn common_prefix(s: Seq<char>, t: Seq<char>) -> int
    decreases s.len(),
{
    if s.len() == 0 || t.len() == 0 {
        0
    } else if s[0] == t[0] {
        1 + common_prefix(s.drop_first(), t.drop_first())
    } else {
        0
    }
}

/// A position where the sequences first differ (or where one ends) pins the
/// common prefix length.
pub proof fn lemma_common_prefix_at(s: Seq<char>, t: Seq<char>, p: int)
    requires
        0 <= p <= s.len(),
        p <= t.len(),
        forall|x: int| 0 <= x < p ==> s[x] == #[trigger] t[x],
        p == s.len() || p == t.len() || s[p] != t[p],
    ensures
        common_prefix(s, t) == p,
    decreases p,
{
    if p > 0 {
        assert(s[0] == t[0]);
        assert forall|x: int| 0 <= x < p - 1 implies s.drop_first()[x] == (
        #[trigger] t.drop_first()[x]) by {
            assert(s[x + 1] == t[x + 1]);
        }
        lemma_common_prefix_at(s.drop_first(), t.drop_first(), p - 1);
    }
}

/// The prefix is never longer than either sequence, and never negative.
pub proof fn lemma_common_prefix_bounds(s: Seq<char>, t: Seq<char>)
    ensures
        0 <= common_prefix(s, t) <= s.len(),
        common_prefix(s, t) <= t.len(),
    decreases s.len(),
{
    if s.len() != 0 && t.len() != 0 && s[0] == t[0] {
        lemma_common_prefix_bounds(s.drop_first(), t.drop_first());
    }
}

/// The ingredients of the Jaro ratio are bounded: no more matches than
/// either length, and no more transpositions than matches.
pub proof fn lemma_jaro_ingredient_bounds(s: Seq<char>, t: Seq<char>)
    ensures
        ({
            let r = jaro_radius(s.len() as int, t.len() as int);
            &&& 0 <= jaro_matches(s, t, r) <= s.len()
            &&& jaro_matches(s, t, r) <= t.len()
            &&& 0 <= jaro_transpositions(s, t, r) <= jaro_matches(s, t, r)
        }),
{
    let r = jaro_radius(s.len() as int, t.len() as int);
    let tm = tar_flags(s, t, r, s.len() as int);
    lemma_tar_flags_len(s, t, r, s.len() as int);
    lemma_count_true_bounds(tm);
    lemma_matched_counts(s, t, r, s.len() as int);
    lemma_diff_count_bounds(
        matched_src_chars(s, t, r, s.len() as int),
        matched_tar_chars(t, tm, t.len() as int),
        count_true(tm),
    );
}

/// The product of bounded non-negative factors is bounded.
proof fn lemma_mul_le(a: int, b: int, x: int, y: int) by (nonlinear_arith)
    requires
        0 <= a <= x,
        0 <= b <= y,
    ensures
        0 <= a * b <= x * y,
{
}

/// The Jaro similarity as an exact rational pair `(numerator,
/// denominator)`: the mean of the three match ratios, or one of the
/// degenerate values — one for two empty or equal strings, zero when
/// exactly one string is empty or nothing matches.
pub open spec fn jaro_sim(s: Seq<char>, t: Seq<char>) -> (int, int) {
    let ls = s.len() as int;
    let lt = t.len() as int;
    if ls == 0 && lt == 0 {
        (1, 1)
    } else if ls == 0 || lt == 0 {
        (0, 1)
    } else if s == t {
        (1, 1)
    } else {
        let r = jaro_radius(ls, lt);
        let m = jaro_matches(s, t, r);
        if m == 0 {
            (0, 1)
        } else {
            let th = jaro_transpositions(s, t, r) / 2;
            (m * m * lt + m * m * ls + (m - th) * ls * lt, 3 * ls * lt * m)
        }
    }
}

/// The Jaro-Winkler similarity as an exact rational pair: the Jaro
/// similarity, boosted by the common prefix (capped at four) whenever the
/// Jaro similarity exceeds seven tenths.
pub open spec fn winkler_sim(s: Seq<char>, t: Seq<char>) -> (int, int) {
    let j = jaro_sim(s, t);
    if 10 * j.0 > 7 * j.1 {
        let p = min2(common_prefix(s, t), 4);
        ((10 - p) * j.0 + p * j.1, 10 * j.1)
    } else {
        j
    }
}

/// The similarity the engine computes: Jaro-Winkler or plain Jaro, as
/// selected by the mode flag.
pub open spec fn jw_sim(s: Seq<char>, t: Seq<char>, winklerize: bool) -> (int, int) {
    if winklerize {
        winkler_sim(s, t)
    } else {
        jaro_sim(s, t)
    }
}

/// The Jaro pair denotes a value in the unit interval.
pub proof fn lemma_jaro_sim_wf(s: Seq<char>, t: Seq<char>)
    ensures
        0 < jaro_sim(s, t).1,
        0 <= jaro_sim(s, t).0 <= jaro_sim(s, t).1,
{
    let ls = s.len() as int;
    let lt = t.len() as int;
    if ls != 0 && lt != 0 && s != t {
        let r = jaro_radius(ls, lt);
        let m = jaro_matches(s, t, r);
        lemma_jaro_ingredient_bounds(s, t);
        if m != 0 {
            let th = jaro_transpositions(s, t, r) / 2;
            assert(0 <= th <= m);
            assert(0 < 3 * ls * lt * m) by (nonlinear_arith)
                requires
                    1 <= ls,
                    1 <= lt,
                    1 <= m,
            ;
            assert(0 <= m * m * lt + m * m * ls + (m - th) * ls * lt <= 3 * ls * lt * m)
                by (nonlinear_arith)
                requires
                    1 <= m <= ls,
                    m <= lt,
                    0 <= th <= m,
            ;
        }
    }
}

/// The engine's pair denotes a value in the unit interval, whichever
/// variant is selected.
pub proof fn lemma_jw_sim_wf(s: Seq<char>, t: Seq<char>, winklerize: bool)
    ensures
        0 < jw_sim(s, t, winklerize).1,
        0 <= jw_sim(s, t, winklerize).0 <= jw_sim(s, t, winklerize).1,
{
    lemma_jaro_sim_wf(s, t);
    if winklerize {
        let j = jaro_sim(s, t);
        if 10 * j.0 > 7 * j.1 {
            lemma_common_prefix_bounds(s, t);
            let p = min2(common_prefix(s, t), 4);
            assert(0 < 10 * j.1 && 0 <= (10 - p) * j.0 + p * j.1 <= 10 * j.1)
                by (nonlinear_arith)
                requires
                    0 <= j.0 <= j.1,
                    0 < j.1,
                    0 <= p <= 4,
            ;
        }
    }
}

/// Whenever the prefix boost applies, the boosted similarity is at least
/// the plain Jaro similarity (so the boosted distance is at most the plain
/// one), comparing the two rationals by cross-multiplication.
pub proof fn lemma_winkler_boost_never_hurts(s: Seq<char>, t: Seq<char>)
    ensures
        ({
            let j = jaro_sim(s, t);
            let w = winkler_sim(s, t);
            10 * j.0 > 7 * j.1 ==> w.0 * j.1 >= j.0 * w.1
        }),
{
    let j = jaro_sim(s, t);
    if 10 * j.0 > 7 * j.1 {
        lemma_jaro_sim_wf(s, t);
        lemma_common_prefix_bounds(s, t);
        let p = min2(common_prefix(s, t), 4);
        assert(((10 - p) * j.0 + p * j.1) * j.1 >= j.0 * (10 * j.1)) by (nonlinear_arith)
            requires
                0 <= j.0 <= j.1,
                0 < j.1,
                0 <= p <= 4,
        ;
    }
}

/// A string compared with itself has similarity one, under either variant:
/// the pair's numerator equals its denominator.
pub proof fn lemma_jw_sim_self(s: Seq<char>, winklerize: bool)
    ensures
        jw_sim(s, s, winklerize).0 == jw_sim(s, s, winklerize).1,
        0 < jw_sim(s, s, winklerize).1,
{
}

/// Comparing a string with itself gives similarity one, under either
/// variant: the returned pair's numerator equals its denominator.
pub proof fn lemma_self_similarity_one(e: &JaroWinkler, r: Ratio)
    requires
        e.src@ == e.tar@,
        call_ensures(JaroWinkler::similarity_ratio, (e,), r),
    ensures
        r.num == r.den,
{
    lemma_jw_sim_self(e.src@, e.winklerize);
}

/// The similarity is a pure function of the engine's fields: any two
/// results that `JaroWinkler::similarity_ratio` can return for the same
/// engine are equal, so repeated calls yield identical results.
pub proof fn lemma_similarity_deterministic(e: &JaroWinkler, r1: Ratio, r2: Ratio)
    requires
        call_ensures(JaroWinkler::similarity_ratio, (e,), r1),
        call_ensures(JaroWinkler::similarity_ratio, (e,), r2),
    ensures
        r1 == r2,
{
}

/// The matched-source list only grows as more characters are processed.
pub proof fn lemma_msc_monotone(s: Seq<char>, t: Seq<char>, r: int, i1: int, i2: int)
    requires
        0 <= i1 <= i2,
    ensures
        matched_src_chars(s, t, r, i1).len() <= matched_src_chars(s, t, r, i2).len(),
    decreases i2,
{
    if i1 < i2 {
        lemma_msc_monotone(s, t, r, i1, i2 - 1);
    }
}

/// The first position in `[lo, hi)` of the target holding `c` and not yet
/// flagged in `tmv`, scanning left to right.
fn scan_window(c: char, tv: &Vec<char>, tmv: &Vec<bool>, lo: usize, hi: usize) -> (r: Option<
    usize,
>)
    requires
        hi <= tv@.len(),
        tmv@.len() == tv@.len(),
    ensures
        ({
            let fm = find_match(c, tv@, tmv@, lo as int, hi as int);
            match r {
                Some(j) => lo <= j < hi && fm == Some(j as int),
                None => fm is None,
            }
        }),
{
    if lo >= hi {
        return None;
    }
    let mut j = lo;
    while j < hi
        invariant
            lo <= j <= hi,
            hi <= tv@.len(),
            tmv@.len() == tv@.len(),
            find_match(c, tv@, tmv@, lo as int, hi as int) == find_match(
                c,
                tv@,
                tmv@,
                j as int,
                hi as int,
            ),
        decreases hi - j,
    {
        if tv[j] == c && !tmv[j] {
            return Some(j);
        }
        j = j + 1;
    }
    None
}

/// The integer outcome of the Jaro matching algorithm over a pair of
/// strings: the two lengths, the number of matched characters, the raw
/// transposition count (before halving), and the length of the common
/// leading prefix.
#[derive(Clone, Copy, Debug, PartialEq, Eq, Structural)]
pub struct JaroStats {
    /// Number of code points of the source string.
    pub src_len: usize,
    /// Number of code points of the target string.
    pub tar_len: usize,
    /// Number of matched characters.
    pub matches: usize,
    /// Number of matched ranks whose characters differ (the transposition
    /// count before it is halved).
    pub transpositions: usize,
    /// Length of the common leading prefix, uncapped.
    pub prefix_len: usize,
}

/// The Jaro-Winkler engine over a pair of strings.
pub struct JaroWinkler {
    /// Source string.
    pub src: String,
    /// Target string.
    pub tar: String,
    /// Selects the Jaro-Winkler prefix boost instead of the plain Jaro
    /// similarity.
    pub winklerize: bool,
}

impl JaroWinkler {
    /// The lengths are small enough for the window arithmetic to fit the
    /// machine's integers.
    pub open spec fn fits(self) -> bool {
        self.src@.len() + self.tar@.len() < usize::MAX / 2
    }

    /// Runs the matching algorithm and returns its integer outcome: match
    /// count, raw transposition count and common prefix length.
    pub fn match_stats(&self) -> (r: JaroStats)
        requires
            self.fits(),
        ensures
            r.src_len == self.src@.len(),
            r.tar_len == self.tar@.len(),
            r.matches == jaro_matches(
                self.src@,
                self.tar@,
                jaro_radius(self.src@.len() as int, self.tar@.len() as int),
            ),
            r.transpositions == jaro_transpositions(
                self.src@,
                self.tar@,
                jaro_radius(self.src@.len() as int, self.tar@.len() as int),
            ),
            r.prefix_len == common_prefix(self.src@, self.tar@),
    {
        let ghost s = self.src@;
        let ghost t = self.tar@;
        let sv = chars_vec(self.src.as_str());
        let tv = chars_vec(self.tar.as_str());
        let n = sv.len();
        let m = tv.len();
        let mx = if n >= m {
            n
        } else {
            m
        };
        let radius: usize = if mx / 2 >= 1 {
            mx / 2 - 1
        } else {
            0
        };
        let ghost rad = radius as int;
        assert(rad == jaro_radius(n as int, m as int));

        let mut tmv: Vec<bool> = vec![false; m];
        let mut smv: Vec<bool> = vec![false; n];
        proof {
            assert(tmv@ =~= tar_flags(s, t, rad, 0));
            lemma_count_true_all_false(tmv@);
        }
        let mut common: usize = 0;
        let mut i: usize = 0;
        while i < n
            invariant
                i <= n,
                n == s.len(),
                m == t.len(),
                sv@ == s,
                tv@ == t,
                n + m < usize::MAX / 2,
                rad == radius,
                rad == jaro_radius(n as int, m as int),
                tmv@ == tar_flags(s, t, rad, i as int),
                tmv@.len() == m,
                smv@.len() == n,
                forall|x: int| 0 <= x < i ==> smv@[x] == src_flag(s, t, rad, x),
                common == count_true(tmv@),
            decreases n - i,
        {
            let lo: usize = if i > radius {
                i - radius
            } else {
                0
            };
            let hi: usize = if i + radius + 1 <= m {
                i + radius + 1
            } else {
                m
            };
            let found = scan_window(sv[i], &tv, &tmv, lo, hi);
            proof {
                assert(lo as int == win_lo(i as int, rad));
                assert(hi as int == win_hi(i as int, rad, m as int));
            }
            match found {
                Some(j) => {
                    proof {
                        lemma_find_match_props(sv@[i as int], t, tmv@, lo as int, hi as int);
                        lemma_count_true_update(tmv@, j as int);
                        lemma_count_true_bounds(tmv@);
                    }
                    tmv[j] = true;
                    smv[i] = true;
                    common = common + 1;
                },
                None => {
                    smv[i] = false;
                },
            }
            i = i + 1;
        }

        let mut trans: usize = 0;
        let mut k: usize = 0;
        let mut w: usize = 0;
        proof {
            assert(tmv@.take(0) =~= Seq::<bool>::empty());
            lemma_matched_counts(s, t, rad, 0);
        }
        while w < n
            invariant
                w <= n,
                k <= m,
                n == s.len(),
                m == t.len(),
                sv@ == s,
                tv@ == t,
                rad == jaro_radius(n as int, m as int),
                tmv@ == tar_flags(s, t, rad, n as int),
                tmv@.len() == m,
                smv@.len() == n,
                forall|x: int| 0 <= x < n ==> smv@[x] == src_flag(s, t, rad, x),
                matched_src_chars(s, t, rad, w as int).len() == count_true(tmv@.take(k as int)),
                trans <= w,
                trans == diff_count(
                    matched_src_chars(s, t, rad, w as int),
                    matched_tar_chars(t, tmv@, k as int),
                    matched_src_chars(s, t, rad, w as int).len() as int,
                ),
            decreases n - w,
        {
            if smv[w] {
                let ghost p: int = matched_src_chars(s, t, rad, w as int).len() as int;
                proof {
                    lemma_msc_monotone(s, t, rad, w + 1, n as int);
                    lemma_matched_counts(s, t, rad, n as int);
                    assert(matched_src_chars(s, t, rad, w + 1).len() == p + 1);
                    assert(p + 1 <= count_true(tmv@));
                    assert(tmv@.take(m as int) =~= tmv@);
                    lemma_mtc_len(t, tmv@, k as int);
                }
                while k < m && !tmv[k]
                    invariant
                        k <= m,
                        m == t.len(),
                        tmv@.len() == m,
                        p + 1 <= count_true(tmv@),
                        count_true(tmv@.take(m as int)) == count_true(tmv@),
                        count_true(tmv@.take(k as int)) == p,
                        matched_tar_chars(t, tmv@, k as int).len() == p,
                        trans == diff_count(
                            matched_src_chars(s, t, rad, w as int),
                            matched_tar_chars(t, tmv@, k as int),
                            p,
                        ),
                    ensures
                        k < m,
                        tmv@[k as int],
                        count_true(tmv@.take(k as int)) == p,
                        matched_tar_chars(t, tmv@, k as int).len() == p,
                        trans == diff_count(
                            matched_src_chars(s, t, rad, w as int),
                            matched_tar_chars(t, tmv@, k as int),
                            p,
                        ),
                    decreases m - k,
                {
                    proof {
                        lemma_count_true_take_step(tmv@, k as int);
                    }
                    k = k + 1;
                }
                let ghost mtc_old = matched_tar_chars(t, tmv@, k as int);
                proof {
                    lemma_count_true_take_step(tmv@, k as int);
                    assert(matched_tar_chars(t, tmv@, k + 1) == mtc_old.push(t[k as int]));
                    assert(matched_src_chars(s, t, rad, w + 1) == matched_src_chars(
                        s,
                        t,
                        rad,
                        w as int,
                    ).push(s[w as int]));
                    lemma_diff_count_agree(
                        matched_src_chars(s, t, rad, w + 1),
                        matched_tar_chars(t, tmv@, k + 1),
                        matched_src_chars(s, t, rad, w as int),
                        mtc_old,
                        p,
                    );
                }
                if sv[w] != tv[k] {
                    trans = trans + 1;
                }
                k = k + 1;
            }
            w = w + 1;
        }
        proof {
            lemma_matched_counts(s, t, rad, n as int);
            assert(tmv@.take(m as int) =~= tmv@);
            lemma_count_true_take_monotone(tmv@, k as int, m as int);
            lemma_mtc_stable(t, tmv@, k as int, m as int);
        }

        let pmin = if n <= m {
            n
        } else {
            m
        };
        let mut pl: usize = 0;
        while pl < pmin && sv[pl] == tv[pl]
            invariant
                pl <= pmin,
                pmin == if n <= m {
                    n
                } else {
                    m
                },
                n == s.len(),
                m == t.len(),
                sv@ == s,
                tv@ == t,
                forall|x: int| 0 <= x < pl ==> s[x] == #[trigger] t[x],
            decreases pmin - pl,
        {
            pl = pl + 1;
        }
        proof {
            lemma_common_prefix_at(s, t, pl as int);
        }

        JaroStats {
            src_len: n,
            tar_len: m,
            matches: common,
            transpositions: trans,
            prefix_len: pl,
        }
    }

    /// The lengths are also small enough for the exact rational arithmetic
    /// to fit 128-bit integers.
    pub open spec fn fits_ratio(self) -> bool {
        self.fits() && self.src@.len() <= 0x1_0000_0000 && self.tar@.len() <= 0x1_0000_0000
    }

    /// The similarity of the selected variant, as an exact rational.
    pub fn similarity_ratio(&self) -> (r: Ratio)
        requires
            self.fits_ratio(),
        ensures
            r.num == jw_sim(self.src@, self.tar@, self.winklerize).0,
            r.den == jw_sim(self.src@, self.tar@, self.winklerize).1,
            r.wf(),
    {
        let ghost s = self.src@;
        let ghost t = self.tar@;
        let stats = self.match_stats();
        proof {
            lemma_jaro_ingredient_bounds(s, t);
            lemma_jaro_sim_wf(s, t);
            lemma_jw_sim_wf(s, t, self.winklerize);
        }
        let jaro: Ratio = if stats.src_len == 0 && stats.tar_len == 0 {
            Ratio { num: 1, den: 1 }
        } else if stats.src_len == 0 || stats.tar_len == 0 {
            Ratio { num: 0, den: 1 }
        } else if self.src == self.tar {
            Ratio { num: 1, den: 1 }
        } else if stats.matches == 0 {
            Ratio { num: 0, den: 1 }
        } else {
            let m = stats.matches as u128;
            let ls = stats.src_len as u128;
            let lt = stats.tar_len as u128;
            let th = (stats.transpositions / 2) as u128;
            proof {
                let big: int = 0x1_0000_0000;
                lemma_mul_le(m as int, m as int, big, big);
                lemma_mul_le(m as int * m as int, lt as int, big * big, big);
                lemma_mul_le(m as int * m as int, ls as int, big * big, big);
                lemma_mul_le((m - th) as int, ls as int, big, big);
                lemma_mul_le((m - th) as int * ls as int, lt as int, big * big, big);
                lemma_mul_le(ls as int, lt as int, big, big);
                lemma_mul_le(ls as int * lt as int, m as int, big * big, big);
            }
            Ratio { num: m * m * lt + m * m * ls + (m - th) * ls * lt, den: 3 * (ls * lt * m) }
        };
        proof {
            assert(3 * ((s.len() as int) * (t.len() as int) * jaro_matches(
                s,
                t,
                jaro_radius(s.len() as int, t.len() as int),
            )) == 3 * (s.len() as int) * (t.len() as int) * jaro_matches(
                s,
                t,
                jaro_radius(s.len() as int, t.len() as int),
            )) by (nonlinear_arith);
            assert(jaro.num == jaro_sim(s, t).0 && jaro.den == jaro_sim(s, t).1);
        }
        if self.winklerize {
            if 10 * jaro.num > 7 * jaro.den {
                let p: u128 = if stats.prefix_len > 4 {
                    4
                } else {
                    stats.prefix_len as u128
                };
                Ratio { num: (10 - p) * jaro.num + p * jaro.den, den: 10 * jaro.den }
            } else {
                jaro
            }
        } else {
            jaro
        }
    }

    /// The distance of the selected variant: one minus the similarity, over
    /// the same denominator.
    pub fn distance_ratio(&self) -> (r: Ratio)
        requires
            self.fits_ratio(),
        ensures
            ({
                let w = jw_sim(self.src@, self.tar@, self.winklerize);
                r.num == w.1 - w.0 && r.den == w.1 && r.wf()
            }),
    {
        let sim = self.similarity_ratio();
        sim.complement()
    }

    /// The normalized distance: the distance itself, whose denominator
    /// already normalizes it into the unit interval.
    pub fn normalized_distance_ratio(&self) -> (r: Ratio)
        requires
            self.fits_ratio(),
        ensures
            ({
                let w = jw_sim(self.src@, self.tar@, self.winklerize);
                r.num == w.1 - w.0 && r.den == w.1 && r.wf()
            }),
    {
        self.distance_ratio()
    }

    /// One minus the normalized distance, over the same denominator: the
    /// similarity again.
    pub fn normalized_similarity_ratio(&self) -> (r: Ratio)
        requires
            self.fits_ratio(),
        ensures
            ({
                let w = jw_sim(self.src@, self.tar@, self.winklerize);
                let nd = Ratio { num: (w.1 - w.0) as u128, den: w.1 as u128 };
                r == nd.spec_complement() && r.wf()
            }),
    {
        let nd = self.normalized_distance_ratio();
        nd.complement()
    }
}

} // verus!

//! The Jaccard engine: tokenize both strings into sets of words, characters
//! or q-grams, and compare the sets by intersection over union.
//!
//! Tokens are always whole code points.  With `qval >= 2` every token is a
//! window of `qval` consecutive code points of the text, so tokens are
//! well-formed text even when the input holds multi-byte characters.

use vstd::prelude::*;
use vstd::seq_lib::*;
use vstd::set_lib::*;

use crate::error::MetricError;
use crate::helpers::chars_vec;
use crate::helpers::string_of_range;
use crate::ratio::Ratio;

verus! {

broadcast use vstd::set::group_set_axioms, vstd::seq_lib::group_seq_lib_default, vstd::seq::group_seq_axioms;

/// Whether the code point has Unicode's White_Space property — the
/// separator that word tokenization splits on.
pub open spec fn is_wspace(c: char) -> bool {
    let u = c as u32;
    (0x9 <= u && u <= 0xD) || u == 0x20 || u == 0x85 || u == 0xA0 || u == 0x1680 || (0x2000 <= u
        && u <= 0x200A) || u == 0x2028 || u == 0x2029 || u == 0x202F || u == 0x205F || u == 0x3000
}

/// Whether the code point has Unicode's White_Space property.
pub fn is_whitespace_char(c: char) -> (r: bool)
    ensures
        r == is_wspace(c),
{
    let u = c as u32;
    (0x9 <= u && u <= 0xD) || u == 0x20 || u == 0x85 || u == 0xA0 || u == 0x1680 || (0x2000 <= u
        && u <= 0x200A) || u == 0x2028 || u == 0x2029 || u == 0x202F || u == 0x205F || u == 0x3000
}

/// The index of the first whitespace code point, or the length when there is
/// none.
pub open spec fn first_break(s: Seq<char>) -> nat
    decreases s.len(),
{
    if s.len() == 0 {
        0
    } else if is_wspace(s[0]) {
        0
    } else {
        1 + first_break(s.drop_first())
    }
}

/// The first break lies within the sequence; everything before it is
/// non-whitespace, and it points at whitespace unless it is the end.
pub proof fn lemma_first_break_bounds(s: Seq<char>)
    ensures
        first_break(s) <= s.len(),
        forall|x: int| 0 <= x < first_break(s) ==> !is_wspace(#[trigger] s[x]),
        first_break(s) < s.len() ==> is_wspace(s[first_break(s) as int]),
    decreases s.len(),
{
    if s.len() != 0 && !is_wspace(s[0]) {
        lemma_first_break_bounds(s.drop_first());
        assert forall|x: int| 0 <= x < first_break(s) implies !is_wspace(#[trigger] s[x]) by {
            if x >= 1 {
                assert(s.drop_first()[x - 1] == s[x]);
                assert(!is_wspace(s.drop_first()[x - 1]));
            }
        }
    }
}

/// A run of non-whitespace ending at the end or at whitespace is exactly
/// the leading token: the first break sits at its end.
proof fn lemma_first_break_at(s: Seq<char>, k: int)
    requires
        0 <= k <= s.len(),
        forall|x: int| 0 <= x < k ==> !is_wspace(#[trigger] s[x]),
        k == s.len() || is_wspace(s[k]),
    ensures
        first_break(s) == k,
    decreases k,
{
    if k > 0 {
        lemma_first_break_at(s.drop_first(), k - 1);
    }
}

/// The whitespace-separated words of a sequence, in order: maximal runs of
/// non-whitespace code points.
pub open spec fn words_of(s: Seq<char>) -> Seq<Seq<char>>
    decreases s.len(),
    when s.len() >= 0
    via words_of_decreases
{
    if s.len() == 0 {
        Seq::empty()
    } else if is_wspace(s[0]) {
        words_of(s.drop_first())
    } else {
        seq![s.take(first_break(s) as int)] + words_of(s.skip(first_break(s) as int))
    }
}

#[via_fn]
proof fn words_of_decreases(s: Seq<char>) {
    if s.len() != 0 && !is_wspace(s[0]) {
        lemma_first_break_bounds(s);
    }
}

/// The token list of a text for a granularity: its words for `qval == 0`,
/// and all windows of `qval` consecutive code points otherwise, in order of
/// their position.
pub open spec fn token_list(s: Seq<char>, qval: int) -> Seq<Seq<char>> {
    if qval == 0 {
        words_of(s)
    } else if s.len() + 1 >= qval {
        Seq::new((s.len() + 1 - qval) as nat, |i: int| s.subrange(i, i + qval))
    } else {
        Seq::empty()
    }
}

/// The token set of a text for a granularity: its token list, deduplicated
/// and unordered.
pub open spec fn token_set(s: Seq<char>, qval: int) -> Set<Seq<char>> {
    token_list(s, qval).to_set()
}

/// Whether the vector's strings are exactly the given token set, each one
/// appearing once.
pub open spec fn is_token_vec(toks: Seq<Seq<char>>, s: Seq<char>, qval: int) -> bool {
    &&& toks.no_duplicates()
    &&& toks.to_set() == token_set(s, qval)
}

/// Whether one of the strings of `v` has view `x`.
fn contains_string(v: &Vec<String>, x: &String) -> (r: bool)
    ensures
        r == v.deep_view().contains(x@),
{
    let mut i: usize = 0;
    while i < v.len()
        invariant
            i <= v@.len(),
            forall|k: int| 0 <= k < i ==> v.deep_view()[k] != x@,
        decreases v@.len() - i,
    {
        if v[i] == *x {
            proof {
                assert(v.deep_view()[i as int] == x@);
            }
            return true;
        }
        i = i + 1;
    }
    false
}

/// Pushes the string unless one with the same view is already there,
/// keeping the vector duplicate-free.
fn push_if_new(v: &mut Vec<String>, x: String)
    requires
        old(v).deep_view().no_duplicates(),
    ensures
        final (v).deep_view().no_duplicates(),
        final (v).deep_view().to_set() == old(v).deep_view().to_set().insert(x@),
{
    let ghost before = v.deep_view();
    if !contains_string(v, &x) {
        v.push(x);
        proof {
            assert(v.deep_view() =~= before.push(x@));
            before.lemma_push_to_set_commute(x@);
            assert(v.deep_view().to_set() =~= before.to_set().insert(x@));
        }
    } else {
        proof {
            assert(before.to_set().contains(x@));
            assert(v.deep_view().to_set() =~= before.to_set().insert(x@));
        }
    }
}

/// How many distinct tokens of `s` are also tokens of `t`.
pub open spec fn intersection_size(s: Seq<char>, t: Seq<char>, qval: int) -> nat {
    token_set(s, qval).intersect(token_set(t, qval)).len()
}

/// How many distinct tokens the two texts have between them.
pub open spec fn union_size(s: Seq<char>, t: Seq<char>, qval: int) -> nat {
    token_set(s, qval).union(token_set(t, qval)).len()
}

/// A pair of equal texts shares all its tokens: the intersection is the
/// union.
pub proof fn lemma_jaccard_self(s: Seq<char>, qval: int)
    ensures
        intersection_size(s, s, qval) == union_size(s, s, qval),
{
    assert(token_set(s, qval).intersect(token_set(s, qval)) =~= token_set(s, qval).union(
        token_set(s, qval),
    ));
}

/// Comparing a text with itself gives distance zero and similarity one,
/// whenever the granularity accepts the text at all.
pub proof fn lemma_self_distance_zero(e: &Jaccard, r: Result<Ratio, MetricError>)
    requires
        e.src@ == e.tar@,
        call_ensures(Jaccard::distance_ratio, (e,), r),
        r is Ok,
    ensures
        r->Ok_0.num == 0,
{
    lemma_jaccard_self(e.src@, e.qval as int);
}

/// How many strings of `a` also occur in `b`, each counted once.
fn count_common(a: &Vec<String>, b: &Vec<String>) -> (r: usize)
    requires
        a.deep_view().no_duplicates(),
    ensures
        r == a.deep_view().to_set().intersect(b.deep_view().to_set()).len(),
{
    let ghost av = a.deep_view();
    let ghost bset = b.deep_view().to_set();
    proof {
        assert(av.take(0).to_set() =~= Set::<Seq<char>>::empty());
        assert(av.take(0).to_set().intersect(bset) =~= Set::<Seq<char>>::empty());
    }
    let mut count: usize = 0;
    let mut i: usize = 0;
    while i < a.len()
        invariant
            i <= av.len(),
            av == a.deep_view(),
            bset == b.deep_view().to_set(),
            av.no_duplicates(),
            count <= i,
            count == av.take(i as int).to_set().intersect(bset).len(),
        decreases av.len() - i,
    {
        let in_b = contains_string(b, &a[i]);
        proof {
            let pre = av.take(i as int);
            assert(av.take(i + 1) =~= pre.push(av[i as int]));
            pre.lemma_push_to_set_commute(av[i as int]);
            if pre.contains(av[i as int]) {
                let k = pre.lemma_contains_to_index(av[i as int]);
                assert(av[k] == av[i as int]);
            }
            if bset.contains(av[i as int]) {
                assert(pre.to_set().insert(av[i as int]).intersect(bset) =~= pre.to_set().intersect(
                    bset,
                ).insert(av[i as int]));
            } else {
                assert(pre.to_set().insert(av[i as int]).intersect(bset) =~= pre.to_set().intersect(
                    bset,
                ));
            }
        }
        if in_b {
            count = count + 1;
        }
        i = i + 1;
    }
    proof {
        assert(av.take(av.len() as int) =~= av);
    }
    count
}

/// All strings of `a`, then those of `b` not already seen: the union of the
/// two collections, each string once.
fn merge_distinct(a: &Vec<String>, b: &Vec<String>) -> (r: Vec<String>)
    requires
        a.deep_view().no_duplicates(),
    ensures
        r.deep_view().no_duplicates(),
        r.deep_view().to_set() == a.deep_view().to_set().union(b.deep_view().to_set()),
{
    let ghost av = a.deep_view();
    let ghost bv = b.deep_view();
    let mut out: Vec<String> = Vec::new();
    proof {
        assert(av.take(0).to_set() =~= Set::<Seq<char>>::empty());
    }
    let mut i: usize = 0;
    while i < a.len()
        invariant
            i <= av.len(),
            av == a.deep_view(),
            out.deep_view().no_duplicates(),
            out.deep_view().to_set() == av.take(i as int).to_set(),
        decreases av.len() - i,
    {
        push_if_new(&mut out, a[i].clone());
        proof {
            let pre = av.take(i as int);
            assert(av.take(i + 1) =~= pre.push(av[i as int]));
            pre.lemma_push_to_set_commute(av[i as int]);
        }
        i = i + 1;
    }
    proof {
        assert(av.take(av.len() as int) =~= av);
        assert(bv.take(0).to_set() =~= Set::<Seq<char>>::empty());
        assert(av.to_set().union(bv.take(0).to_set()) =~= av.to_set());
    }
    let mut j: usize = 0;
    while j < b.len()
        invariant
            j <= bv.len(),
            bv == b.deep_view(),
            out.deep_view().no_duplicates(),
            out.deep_view().to_set() == av.to_set().union(bv.take(j as int).to_set()),
        decreases bv.len() - j,
    {
        push_if_new(&mut out, b[j].clone());
        proof {
            let pre = bv.take(j as int);
            assert(bv.take(j + 1) =~= pre.push(bv[j as int]));
            pre.lemma_push_to_set_commute(bv[j as int]);
            assert(av.to_set().union(pre.to_set().insert(bv[j as int])) =~= av.to_set().union(
                pre.to_set(),
            ).insert(bv[j as int]));
        }
        j = j + 1;
    }
    proof {
        assert(bv.take(bv.len() as int) =~= bv);
    }
    out
}

/// The sizes of the two token sets' overlap: how many distinct tokens the
/// texts share, and how many they have between them.
#[derive(Clone, Copy, Debug, PartialEq, Eq, Structural)]
pub struct TokenCounts {
    /// Number of distinct tokens occurring in both texts.
    pub intersection: usize,
    /// Number of distinct tokens occurring in either text.
    pub union_size: usize,
}

/// The token counts are a pure function of the engine's fields: any two
/// results that `Jaccard::token_counts` can return for the same engine are
/// equal, so repeated calls yield identical results.
pub proof fn lemma_token_counts_deterministic(
    e: &Jaccard,
    r1: Result<TokenCounts, MetricError>,
    r2: Result<TokenCounts, MetricError>,
)
    requires
        call_ensures(Jaccard::token_counts, (e,), r1),
        call_ensures(Jaccard::token_counts, (e,), r2),
    ensures
        r1 == r2,
{
}

/// The Jaccard engine over a pair of strings.
///
/// `qval` selects the tokenization granularity: `0` splits on whitespace
/// runs, `1` takes single code points, and any larger value takes sliding
/// windows of that many code points.
pub struct Jaccard {
    /// Source string.
    pub src: String,
    /// Target string.
    pub tar: String,
    /// Tokenization granularity.
    pub qval: usize,
}

impl Jaccard {
    /// A single text is long enough for the chosen granularity.
    pub open spec fn text_fits(text: Seq<char>, qval: int) -> bool {
        qval < 2 || text.len() >= qval
    }

    /// The distinct tokens of `text` under the engine's granularity, each
    /// exactly once, as a vector.
    ///
    /// Returns `SequenceTooShort` exactly when `qval >= 2` and the text has
    /// fewer than `qval` code points.
    pub fn tokenize(&self, text: &String) -> (r: Result<Vec<String>, MetricError>)
        ensures
            r is Ok <==> Self::text_fits(text@, self.qval as int),
            r is Ok ==> is_token_vec(r->Ok_0.deep_view(), text@, self.qval as int),
            r is Err ==> r->Err_0 == MetricError::SequenceTooShort,
    {
        let ghost s = text@;
        let q = self.qval;
        let v = chars_vec(text.as_str());
        let n = v.len();
        if q >= 2 && n < q {
            return Err(MetricError::SequenceTooShort);
        }
        let mut out: Vec<String> = Vec::new();
        if q == 0 {
            let ghost mut done: Seq<Seq<char>> = Seq::empty();
            proof {
                assert(s.skip(0) =~= s);
            }
            let mut i: usize = 0;
            while i < n
                invariant
                    i <= n,
                    n == s.len(),
                    v@ == s,
                    words_of(s) == done + words_of(s.skip(i as int)),
                    out.deep_view().no_duplicates(),
                    out.deep_view().to_set() == done.to_set(),
                decreases n - i,
            {
                if is_whitespace_char(v[i]) {
                    proof {
                        assert(s.skip(i as int).drop_first() =~= s.skip(i + 1));
                    }
                    i = i + 1;
                } else {
                    let mut j: usize = i + 1;
                    while j < n
                        invariant
                            i < j <= n,
                            n == s.len(),
                            v@ == s,
                            forall|x: int| i <= x < j ==> !is_wspace(#[trigger] s[x]),
                        ensures
                            i < j <= n,
                            forall|x: int| i <= x < j ==> !is_wspace(#[trigger] s[x]),
                            j == n || is_wspace(s[j as int]),
                        decreases n - j,
                    {
                        if is_whitespace_char(v[j]) {
                            break ;
                        }
                        j = j + 1;
                    }
                    let ghost rest = s.skip(i as int);
                    proof {
                        lemma_first_break_at(rest, j - i);
                        assert(rest.take(j - i) =~= s.subrange(i as int, j as int));
                        assert(rest.skip(j - i) =~= s.skip(j as int));
                        assert(words_of(rest) == seq![s.subrange(i as int, j as int)] + words_of(
                            s.skip(j as int),
                        ));
                    }
                    let tok = string_of_range(&v, i, j);
                    push_if_new(&mut out, tok);
                    proof {
                        let ghost w = s.subrange(i as int, j as int);
                        done.lemma_push_to_set_commute(w);
                        assert((done + seq![w]) =~= done.push(w));
                        assert((done + seq![w]) + words_of(s.skip(j as int)) =~= done + (seq![w]
                            + words_of(s.skip(j as int))));
                        done = done + seq![w];
                        assert(words_of(s) == done + words_of(s.skip(j as int)));
                        assert(out.deep_view().to_set() =~= done.to_set());
                    }
                    i = j;
                }
            }
            proof {
                assert(s.skip(n as int) =~= Seq::<char>::empty());
                assert(words_of(s) =~= done);
            }
        } else {
            let count = if n < q {
                0
            } else {
                n - q + 1
            };
            let mut i: usize = 0;
            while i < count
                invariant
                    i <= count,
                    q >= 1,
                    count == token_list(s, q as int).len(),
                    n == s.len(),
                    v@ == s,
                    out.deep_view().no_duplicates(),
                    out.deep_view().to_set() == token_list(s, q as int).take(i as int).to_set(),
                decreases count - i,
            {
                let tok = string_of_range(&v, i, i + q);
                push_if_new(&mut out, tok);
                proof {
                    assert(token_list(s, q as int).take(i + 1) =~= token_list(
                        s,
                        q as int,
                    ).take(i as int).push(s.subrange(i as int, i + q)));
                    token_list(s, q as int).take(i as int).lemma_push_to_set_commute(
                        s.subrange(i as int, i + q),
                    );
                }
                i = i + 1;
            }
            proof {
                assert(token_list(s, q as int).take(count as int) =~= token_list(s, q as int));
            }
        }
        Ok(out)
    }

    /// Both texts are long enough for the chosen granularity.
    pub open spec fn fits(self) -> bool {
        Self::text_fits(self.src@, self.qval as int) && Self::text_fits(
            self.tar@,
            self.qval as int,
        )
    }

    /// The sizes of the intersection and of the union of the two token
    /// sets.
    ///
    /// Returns `SequenceTooShort` exactly when `qval >= 2` and either text
    /// has fewer than `qval` code points.
    pub fn token_counts(&self) -> (r: Result<TokenCounts, MetricError>)
        ensures
            r is Ok <==> self.fits(),
            r is Ok ==> r->Ok_0.intersection == intersection_size(
                self.src@,
                self.tar@,
                self.qval as int,
            ),
            r is Ok ==> r->Ok_0.union_size == union_size(self.src@, self.tar@, self.qval as int),
            r is Err ==> r->Err_0 == MetricError::SequenceTooShort,
    {
        let a = self.tokenize(&self.src)?;
        let b = self.tokenize(&self.tar)?;
        let inter = count_common(&a, &b);
        let merged = merge_distinct(&a, &b);
        proof {
            merged.deep_view().unique_seq_to_set();
        }
        Ok(TokenCounts { intersection: inter, union_size: merged.len() })
    }

    /// The Jaccard distance, as an exact rational: one minus intersection
    /// over union.  When both token sets are empty the distance is `0/1` —
    /// two texts without tokens count as equal.
    ///
    /// Returns `SequenceTooShort` exactly when `qval >= 2` and either text
    /// has fewer than `qval` code points.
    pub fn distance_ratio(&self) -> (r: Result<Ratio, MetricError>)
        ensures
            r is Ok <==> self.fits(),
            r is Ok ==> ({
                let inter = intersection_size(self.src@, self.tar@, self.qval as int);
                let uni = union_size(self.src@, self.tar@, self.qval as int);
                if uni == 0 {
                    r->Ok_0 == (Ratio { num: 0, den: 1 })
                } else {
                    r->Ok_0 == (Ratio { num: (uni - inter) as u128, den: uni as u128 })
                }
            }),
            r is Ok ==> r->Ok_0.wf(),
            r is Err ==> r->Err_0 == MetricError::SequenceTooShort,
    {
        let c = self.token_counts()?;
        proof {
            let sa = token_set(self.src@, self.qval as int);
            let sb = token_set(self.tar@, self.qval as int);
            token_list(self.src@, self.qval as int).lemma_cardinality_of_set();
            token_list(self.tar@, self.qval as int).lemma_cardinality_of_set();
            lemma_len_subset(sa.intersect(sb), sa.union(sb));
        }
        if c.union_size == 0 {
            Ok(Ratio { num: 0, den: 1 })
        } else {
            Ok(Ratio { num: (c.union_size - c.intersection) as u128, den: c.union_size as u128 })
        }
    }

    /// The Jaccard similarity, as an exact rational: the complement of the
    /// distance over the same denominator, so intersection over union; `1/1`
    /// when both token sets are empty.
    ///
    /// Returns `SequenceTooShort` exactly when `qval >= 2` and either text
    /// has fewer than `qval` code points.
    pub fn similarity_ratio(&self) -> (r: Result<Ratio, MetricError>)
        ensures
            r is Ok <==> self.fits(),
            r is Ok ==> ({
                let inter = intersection_size(self.src@, self.tar@, self.qval as int);
                let uni = union_size(self.src@, self.tar@, self.qval as int);
                let nd = if uni == 0 {
                    Ratio { num: 0, den: 1 }
                } else {
                    Ratio { num: (uni - inter) as u128, den: uni as u128 }
                };
                r->Ok_0 == nd.spec_complement() && r->Ok_0.wf()
            }),
            r is Err ==> r->Err_0 == MetricError::SequenceTooShort,
    {
        let nd = self.distance_ratio()?;
        Ok(nd.complement())
    }

    /// The normalized distance: the distance itself, whose denominator
    /// already normalizes it into the unit interval.
    ///
    /// Returns `SequenceTooShort` exactly when `qval >= 2` and either text
    /// has fewer than `qval` code points.
    pub fn normalized_distance_ratio(&self) -> (r: Result<Ratio, MetricError>)
        ensures
            r is Ok <==> self.fits(),
            r is Ok ==> ({
                let inter = intersection_size(self.src@, self.tar@, self.qval as int);
                let uni = union_size(self.src@, self.tar@, self.qval as int);
                if uni == 0 {
                    r->Ok_0 == (Ratio { num: 0, den: 1 })
                } else {
                    r->Ok_0 == (Ratio { num: (uni - inter) as u128, den: uni as u128 })
                }
            }),
            r is Ok ==> r->Ok_0.wf(),
            r is Err ==> r->Err_0 == MetricError::SequenceTooShort,
    {
        self.distance_ratio()
    }

    /// One minus the normalized distance, over the same denominator: the
    /// similarity again.
    ///
    /// Returns `SequenceTooShort` exactly when `qval >= 2` and either text
    /// has fewer than `qval` code points.
    pub fn normalized_similarity_ratio(&self) -> (r: Result<Ratio, MetricError>)
        ensures
            r is Ok <==> self.fits(),
            r is Ok ==> ({
                let inter = intersection_size(self.src@, self.tar@, self.qval as int);
                let uni = union_size(self.src@, self.tar@, self.qval as int);
                let nd = if uni == 0 {
                    Ratio { num: 0, den: 1 }
                } else {
                    Ratio { num: (uni - inter) as u128, den: uni as u128 }
                };
                r->Ok_0 == nd.spec_complement() && r->Ok_0.wf()
            }),
            r is Err ==> r->Err_0 == MetricError::SequenceTooShort,
    {
        let nd = self.normalized_distance_ratio()?;
        Ok(nd.complement())
    }
}

} // verus!

//! The Hamming engine: positional mismatch count for equal-length strings.

use vstd::prelude::*;

use crate::error::MetricError;
use crate::helpers::char_cost;
use crate::helpers::chars_vec;
use crate::helpers::max2;
use crate::ratio::Ratio;

verus! {

/// Number of positions at which the two sequences hold different code
/// points.  Only the first `min(len)` positions are counted; the engine
/// itself insists on equal lengths.
pub open spec fn hamming_dist(s: Seq<char>, t: Seq<char>) -> int
    decreases s.len(),
{
    if s.len() == 0 || t.len() == 0 {
        0
    } else {
        hamming_dist(s.drop_last(), t.drop_last()) + char_cost(s.last(), t.last())
    }
}

/// One step of the mismatch count: extending both prefixes by one position
/// adds that position's substitution cost.
proof fn lemma_hamming_dist_step(s: Seq<char>, t: Seq<char>, i: int)
    requires
        0 < i <= s.len(),
        i <= t.len(),
    ensures
        hamming_dist(s.take(i), t.take(i)) == hamming_dist(s.take(i - 1), t.take(i - 1))
            + char_cost(s[i - 1], t[i - 1]),
{
    assert(s.take(i).drop_last() =~= s.take(i - 1));
    assert(t.take(i).drop_last() =~= t.take(i - 1));
    assert(s.take(i).last() == s[i - 1]);
    assert(t.take(i).last() == t[i - 1]);
}

/// The mismatch count never exceeds either length.
pub proof fn lemma_hamming_dist_bound(s: Seq<char>, t: Seq<char>)
    ensures
        0 <= hamming_dist(s, t) <= s.len(),
        hamming_dist(s, t) <= t.len(),
    decreases s.len(),
{
    if s.len() != 0 && t.len() != 0 {
        lemma_hamming_dist_bound(s.drop_last(), t.drop_last());
    }
}

/// A sequence never mismatches itself.
pub proof fn lemma_hamming_dist_self(s: Seq<char>)
    ensures
        hamming_dist(s, s) == 0,
    decreases s.len(),
{
    if s.len() != 0 {
        lemma_hamming_dist_self(s.drop_last());
    }
}

/// The mismatch count does not depend on the order of the two sequences.
pub proof fn lemma_hamming_dist_symmetric(s: Seq<char>, t: Seq<char>)
    ensures
        hamming_dist(s, t) == hamming_dist(t, s),
    decreases s.len(),
{
    if s.len() != 0 && t.len() != 0 {
        lemma_hamming_dist_symmetric(s.drop_last(), t.drop_last());
    }
}

/// The distance is a pure function of the engine's fields: any two results
/// that `Hamming::distance` can return for the same engine are equal, so
/// repeated calls yield identical results.
pub proof fn lemma_distance_deterministic(
    e: &Hamming,
    r1: Result<usize, MetricError>,
    r2: Result<usize, MetricError>,
)
    requires
        call_ensures(Hamming::distance, (e,), r1),
        call_ensures(Hamming::distance, (e,), r2),
    ensures
        r1 == r2,
{
}

/// Comparing a string with itself gives distance zero, similarity equal
/// to the length, and normalized similarity exactly one.
pub proof fn lemma_self_comparison(
    e: &Hamming,
    d: Result<usize, MetricError>,
    sim: Result<usize, MetricError>,
    ns: Result<Ratio, MetricError>,
)
    requires
        e.src@ == e.tar@,
        call_ensures(Hamming::distance, (e,), d),
        call_ensures(Hamming::similarity, (e,), sim),
        call_ensures(Hamming::normalized_similarity_ratio, (e,), ns),
    ensures
        d is Ok && d->Ok_0 == 0,
        sim is Ok && sim->Ok_0 == e.src@.len(),
        ns is Ok && ns->Ok_0.num == ns->Ok_0.den,
{
    lemma_hamming_dist_self(e.src@);
}

/// Similarity and distance add up to the shared length whenever the
/// lengths match.
pub proof fn lemma_similarity_distance_roundtrip(
    e: &Hamming,
    d: Result<usize, MetricError>,
    sim: Result<usize, MetricError>,
)
    requires
        d is Ok,
        call_ensures(Hamming::distance, (e,), d),
        call_ensures(Hamming::similarity, (e,), sim),
    ensures
        sim is Ok,
        d->Ok_0 + sim->Ok_0 == max2(e.src@.len() as int, e.tar@.len() as int),
{
}

/// The Hamming engine over a pair of strings.
///
/// The Hamming distance is the number of positions at which the two strings
/// differ; it is defined only when both strings have the same number of code
/// points, and an unequal pair is reported as `LengthMismatch`.
pub struct Hamming {
    /// Source string.
    pub src: String,
    /// Target string.
    pub tar: String,
}

impl Hamming {
    /// Both strings have the same number of code points.
    pub open spec fn lengths_match(self) -> bool {
        self.src@.len() == self.tar@.len()
    }

    /// The Hamming distance: how many positions differ.
    ///
    /// Returns `LengthMismatch` exactly when the two strings have different
    /// lengths.
    pub fn distance(&self) -> (r: Result<usize, MetricError>)
        ensures
            r is Ok <==> self.lengths_match(),
            r is Ok ==> r->Ok_0 == hamming_dist(self.src@, self.tar@),
            r is Err ==> r->Err_0 == MetricError::LengthMismatch,
    {
        let sv = chars_vec(self.src.as_str());
        let tv = chars_vec(self.tar.as_str());
        if sv.len() != tv.len() {
            return Err(MetricError::LengthMismatch);
        }
        let n = sv.len();
        let mut count: usize = 0;
        let mut i: usize = 0;
        while i < n
            invariant
                n == sv@.len() == tv@.len(),
                sv@ == self.src@,
                tv@ == self.tar@,
                i <= n,
                count <= i,
                count == hamming_dist(self.src@.take(i as int), self.tar@.take(i as int)),
            decreases n - i,
        {
            proof {
                lemma_hamming_dist_step(self.src@, self.tar@, i + 1);
            }
            if sv[i] != tv[i] {
                count = count + 1;
            }
            i = i + 1;
        }
        proof {
            assert(self.src@.take(n as int) =~= self.src@);
            assert(self.tar@.take(n as int) =~= self.tar@);
        }
        Ok(count)
    }

    /// The similarity: the shared length minus the distance, so that
    /// similarity and distance always add up to the length.
    ///
    /// Returns `LengthMismatch` exactly when the two strings have different
    /// lengths.
    pub fn similarity(&self) -> (r: Result<usize, MetricError>)
        ensures
            r is Ok <==> self.lengths_match(),
            r is Ok ==> r->Ok_0 + hamming_dist(self.src@, self.tar@) == max2(
                self.src@.len() as int,
                self.tar@.len() as int,
            ),
            r is Err ==> r->Err_0 == MetricError::LengthMismatch,
    {
        let maximum = crate::helpers::max_text_length(self.src.clone(), self.tar.clone());
        let d = self.distance()?;
        proof {
            lemma_hamming_dist_bound(self.src@, self.tar@);
        }
        Ok(maximum - d)
    }

    /// The distance divided by the shared length, as an exact rational; `0/1`
    /// for a pair of empty strings.
    ///
    /// Returns `LengthMismatch` exactly when the two strings have different
    /// lengths.
    pub fn normalized_distance_ratio(&self) -> (r: Result<Ratio, MetricError>)
        ensures
            r is Ok <==> self.lengths_match(),
            r is Ok && self.src@.len() == 0 ==> r->Ok_0 == (Ratio { num: 0, den: 1 }),
            r is Ok && self.src@.len() > 0 ==> r->Ok_0 == (Ratio {
                num: hamming_dist(self.src@, self.tar@) as u128,
                den: self.src@.len() as u128,
            }),
            r is Ok ==> r->Ok_0.wf(),
            r is Err ==> r->Err_0 == MetricError::LengthMismatch,
    {
        let d = self.distance()?;
        let n = chars_vec(self.src.as_str()).len();
        proof {
            lemma_hamming_dist_bound(self.src@, self.tar@);
        }
        if n == 0 {
            Ok(Ratio { num: 0, den: 1 })
        } else {
            Ok(Ratio { num: d as u128, den: n as u128 })
        }
    }

    /// One minus the normalized distance, over the same denominator.
    ///
    /// Returns `LengthMismatch` exactly when the two strings have different
    /// lengths.
    pub fn normalized_similarity_ratio(&self) -> (r: Result<Ratio, MetricError>)
        ensures
            r is Ok <==> self.lengths_match(),
            r is Ok ==> {
                let nd = if self.src@.len() == 0 {
                    Ratio { num: 0, den: 1 }
                } else {
                    Ratio {
                        num: hamming_dist(self.src@, self.tar@) as u128,
                        den: self.src@.len() as u128,
                    }
                };
                r->Ok_0 == nd.spec_complement() && r->Ok_0.wf()
            },
            r is Err ==> r->Err_0 == MetricError::LengthMismatch,
    {
        let nd = self.normalized_distance_ratio()?;
        Ok(nd.complement())
    }
}

} // verus!

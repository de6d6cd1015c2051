//! Small shared helpers: integer minima and maxima, and materializing the
//! code points of a string as a vector, so that the engines can index into
//! the text in constant time.

use vstd::prelude::*;
use vstd::std_specs::iter::IteratorSpec;
use vstd::string::StrSliceExecFns;

verus! {

broadcast use vstd::string::group_string_axioms;

/// Smaller of two integers.
pub open spec fn min2(a: int, b: int) -> int {
    if a <= b {
        a
    } else {
        b
    }
}

/// Smallest of three integers.
pub open spec fn min3(a: int, b: int, c: int) -> int {
    min2(min2(a, b), c)
}

/// Smallest of four integers.
pub open spec fn min4(a: int, b: int, c: int, d: int) -> int {
    min2(min3(a, b, c), d)
}

/// Larger of two integers.
pub open spec fn max2(a: int, b: int) -> int {
    if a >= b {
        a
    } else {
        b
    }
}

/// Substitution cost of a pair of code points: 0 when equal, 1 otherwise.
pub open spec fn char_cost(a: char, b: char) -> int {
    if a == b {
        0
    } else {
        1
    }
}

/// Smallest of three values.
pub fn min_of_3(a: usize, b: usize, c: usize) -> (r: usize)
    ensures
        r == min3(a as int, b as int, c as int),
{
    let ab = if a <= b {
        a
    } else {
        b
    };
    if ab <= c {
        ab
    } else {
        c
    }
}

/// Number of code points of the longer of the two strings.
pub fn max_text_length(a: String, b: String) -> (r: usize)
    ensures
        r == max2(a@.len() as int, b@.len() as int),
{
    let la = a.as_str().unicode_len();
    let lb = b.as_str().unicode_len();
    if la >= lb {
        la
    } else {
        lb
    }
}

/// Relies on `String::push`: appends exactly the given character at the end
/// of the string.
#[verifier::external_body]
pub(crate) fn push_char(s: &mut String, c: char)
    ensures
        final (s)@ == old(s)@.push(c),
{
    s.push(c);
}

/// A `String` holding the given range of `v`.
pub(crate) fn string_of_range(v: &Vec<char>, from: usize, to: usize) -> (r: String)
    requires
        from <= to <= v@.len(),
    ensures
        r@ == v@.subrange(from as int, to as int),
{
    let mut out = String::new();
    let mut k: usize = from;
    while k < to
        invariant
            from <= k <= to <= v@.len(),
            out@ == v@.subrange(from as int, k as int),
        decreases to - k,
    {
        push_char(&mut out, v[k]);
        proof {
            assert(v@.subrange(from as int, k as int).push(v@[k as int]) =~= v@.subrange(
                from as int,
                k + 1,
            ));
        }
        k = k + 1;
    }
    out
}

/// The code points of `s`, in order, as a vector.
pub(crate) fn chars_vec(s: &str) -> (r: Vec<char>)
    ensures
        r@ == s@,
{
    let mut it = s.chars();
    let mut v: Vec<char> = Vec::new();
    loop
        invariant
            IteratorSpec::obeys_prophetic_iter_laws(&it),
            IteratorSpec::decrease(&it) is Some,
            v@ + IteratorSpec::remaining(&it) == s@,
        ensures
            v@ == s@,
        decreases IteratorSpec::decrease(&it)->0,
    {
        match it.next() {
            Some(c) => {
                v.push(c);
            },
            None => {
                proof {
                    assert(v@ + IteratorSpec::remaining(&it) == s@);
                    assert(v@ =~= s@);
                }
                break ;
            },
        }
    }
    v
}

} // verus!

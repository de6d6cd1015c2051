use text_distance::DamerauLevenshtein;
use text_distance::Hamming;
use text_distance::Jaccard;
use text_distance::JaroWinkler;
use text_distance::Levenshtein;
use text_distance::MetricError;
use text_distance::Ratio;
use text_distance::max_text_length;
use text_distance::min_of_3;

fn jw(src: &str, tar: &str, winklerize: bool) -> JaroWinkler {
    JaroWinkler { src: src.to_string(), tar: tar.to_string(), winklerize }
}

// Identical inputs are at distance zero, at similarity equal to their
// length, and at normalized similarity exactly one, for every count-based
// engine.
#[test]
fn prop_self_comparison() {
    for s in ["", "a", "tower", "käsekuchen"] {
        let lev = Levenshtein { src: s.to_string(), tar: s.to_string() };
        assert_eq!(0, lev.distance());
        assert_eq!(s.chars().count(), lev.similarity());
        let ns = lev.normalized_similarity_ratio();
        assert_eq!(ns.num, ns.den);

        for restricted in [true, false] {
            let dl = DamerauLevenshtein { src: s.to_string(), tar: s.to_string(), restricted };
            assert_eq!(0, dl.distance());
            assert_eq!(s.chars().count(), dl.similarity());
            let ns = dl.normalized_similarity_ratio();
            assert_eq!(ns.num, ns.den);
        }

        let ham = Hamming { src: s.to_string(), tar: s.to_string() };
        assert_eq!(0, ham.distance().unwrap());
        assert_eq!(s.chars().count(), ham.similarity().unwrap());
        let ns = ham.normalized_similarity_ratio().unwrap();
        assert_eq!(ns.num, ns.den);
    }
}

// Identical inputs have similarity one under the ratio-based engines too.
#[test]
fn prop_self_comparison_ratio_engines() {
    for s in ["", "a", "tower"] {
        for qval in [0usize, 1, 2, 3] {
            let jac = Jaccard { src: s.to_string(), tar: s.to_string(), qval };
            if let Ok(d) = jac.distance_ratio() {
                assert_eq!(0, d.num);
                let sim = jac.similarity_ratio().unwrap();
                assert_eq!(sim.num, sim.den);
            }
        }
        for winklerize in [true, false] {
            let sim = jw(s, s, winklerize).similarity_ratio();
            assert_eq!(sim.num, sim.den);
            assert_eq!(0, jw(s, s, winklerize).distance_ratio().num);
        }
    }
}

// The normalized similarity is exactly one minus the normalized distance:
// the two share a denominator and their numerators add up to it.
#[test]
fn prop_normalized_complement() {
    let pairs = [("karolin", "kathrin"), ("", "abc"), ("ca", "abc"), ("", "")];
    for (a, b) in pairs {
        let lev = Levenshtein { src: a.to_string(), tar: b.to_string() };
        let nd = lev.normalized_distance_ratio();
        let ns = lev.normalized_similarity_ratio();
        assert_eq!(nd.den, ns.den);
        assert_eq!(nd.num + ns.num, nd.den);

        for restricted in [true, false] {
            let dl = DamerauLevenshtein { src: a.to_string(), tar: b.to_string(), restricted };
            let nd = dl.normalized_distance_ratio();
            let ns = dl.normalized_similarity_ratio();
            assert_eq!(nd.den, ns.den);
            assert_eq!(nd.num + ns.num, nd.den);
        }

        for winklerize in [true, false] {
            let e1 = jw(a, b, winklerize);
            let nd = e1.normalized_distance_ratio();
            let ns = e1.normalized_similarity_ratio();
            assert_eq!(nd.den, ns.den);
            assert_eq!(nd.num + ns.num, nd.den);
        }
    }
    let ham = Hamming { src: "karolin".to_string(), tar: "kathrin".to_string() };
    let nd = ham.normalized_distance_ratio().unwrap();
    let ns = ham.normalized_similarity_ratio().unwrap();
    assert_eq!(nd.den, ns.den);
    assert_eq!(nd.num + ns.num, nd.den);

    let jac = Jaccard { src: "nelson".to_string(), tar: "neilsen".to_string(), qval: 1 };
    let nd = jac.distance_ratio().unwrap();
    let ns = jac.similarity_ratio().unwrap();
    assert_eq!(nd.den, ns.den);
    assert_eq!(nd.num + ns.num, nd.den);
}

// Edit distances are symmetric in their two arguments.
#[test]
fn prop_symmetry() {
    let pairs = [("ca", "abc"), ("karolin", "kathrin"), ("", "xy"), ("book", "back")];
    for (a, b) in pairs {
        let fwd = Levenshtein { src: a.to_string(), tar: b.to_string() }.distance();
        let bwd = Levenshtein { src: b.to_string(), tar: a.to_string() }.distance();
        assert_eq!(fwd, bwd);
        for restricted in [true, false] {
            let fwd = DamerauLevenshtein { src: a.to_string(), tar: b.to_string(), restricted }
                .distance();
            let bwd = DamerauLevenshtein { src: b.to_string(), tar: a.to_string(), restricted }
                .distance();
            assert_eq!(fwd, bwd);
        }
    }
}

// The restricted variant never beats the unrestricted one.
#[test]
fn prop_restricted_ge_unrestricted() {
    let pairs = [("ca", "abc"), ("abcdef", "axb123"), ("a cat", "an abct"), ("", "x")];
    for (a, b) in pairs {
        let r = DamerauLevenshtein { src: a.to_string(), tar: b.to_string(), restricted: true }
            .distance();
        let u = DamerauLevenshtein { src: a.to_string(), tar: b.to_string(), restricted: false }
            .distance();
        assert!(r >= u);
    }
    let r = DamerauLevenshtein { src: "ca".to_string(), tar: "abc".to_string(), restricted: true };
    let u = DamerauLevenshtein { src: "ca".to_string(), tar: "abc".to_string(), restricted: false };
    assert_eq!(3, r.distance());
    assert_eq!(2, u.distance());
}

// The example from the classic pair: Levenshtein("karolin", "kathrin").
#[test]
fn prop_karolin_kathrin() {
    let lev = Levenshtein { src: "karolin".to_string(), tar: "kathrin".to_string() };
    assert_eq!(3, lev.distance());
    let nd = lev.normalized_distance_ratio();
    assert_eq!(3, nd.num);
    assert_eq!(7, nd.den);
    assert_eq!(0.42857142857142855, nd.num as f64 / nd.den as f64);
    assert_eq!(4, lev.similarity());
}

// The Hamming engine rejects unequal lengths with its own error value.
#[test]
fn prop_hamming_length_mismatch() {
    let ham = Hamming { src: "test".to_string(), tar: "textt".to_string() };
    assert_eq!(Err(MetricError::LengthMismatch), ham.distance());
    assert_eq!(Err(MetricError::LengthMismatch), ham.similarity());
    assert!(ham.normalized_distance_ratio().is_err());
    assert_eq!(2, Hamming { src: "ijk".to_string(), tar: "kji".to_string() }.distance().unwrap());
}

// The Jaccard engine rejects texts shorter than the n-gram length with its
// own error value; shorter granularities accept everything.
#[test]
fn prop_jaccard_sequence_too_short() {
    let jac = Jaccard { src: "ab".to_string(), tar: "abcd".to_string(), qval: 3 };
    assert_eq!(Err(MetricError::SequenceTooShort), jac.token_counts());
    assert_eq!(Err(MetricError::SequenceTooShort), jac.distance_ratio());
    let ok = Jaccard { src: "ab".to_string(), tar: "abcd".to_string(), qval: 1 };
    assert!(ok.token_counts().is_ok());
}

// Two texts without any tokens count as equal: distance zero, similarity
// one.
#[test]
fn prop_jaccard_empty_union() {
    for qval in [0usize, 1] {
        let jac = Jaccard { src: "".to_string(), tar: "".to_string(), qval };
        let d = jac.distance_ratio().unwrap();
        assert_eq!(Ratio { num: 0, den: 1 }, d);
        let s = jac.similarity_ratio().unwrap();
        assert_eq!(Ratio { num: 1, den: 1 }, s);
    }
    let jac = Jaccard { src: "  ".to_string(), tar: " ".to_string(), qval: 0 };
    assert_eq!(Ratio { num: 0, den: 1 }, jac.distance_ratio().unwrap());
}

// Tokenization yields each distinct token exactly once.
#[test]
fn prop_tokenize_contents() {
    let jac = Jaccard { src: "a b a".to_string(), tar: "".to_string(), qval: 0 };
    let toks = jac.tokenize(&"a b a".to_string()).unwrap();
    assert_eq!(2, toks.len());
    assert!(toks.contains(&"a".to_string()));
    assert!(toks.contains(&"b".to_string()));

    let jac = Jaccard { src: "nelson".to_string(), tar: "".to_string(), qval: 1 };
    let toks = jac.tokenize(&"nelson".to_string()).unwrap();
    assert_eq!(5, toks.len());
    assert!(toks.contains(&"n".to_string()));
    assert!(toks.contains(&"o".to_string()));

    let jac = Jaccard { src: "banana".to_string(), tar: "".to_string(), qval: 2 };
    let toks = jac.tokenize(&"banana".to_string()).unwrap();
    assert_eq!(3, toks.len());
    assert!(toks.contains(&"ba".to_string()));
    assert!(toks.contains(&"an".to_string()));
    assert!(toks.contains(&"na".to_string()));
}

// Tokens are windows of whole code points, so multi-byte characters stay
// intact.
#[test]
fn prop_jaccard_multibyte_tokens() {
    let jac = Jaccard { src: "héllo".to_string(), tar: "héllo".to_string(), qval: 2 };
    let toks = jac.tokenize(&"héllo".to_string()).unwrap();
    assert_eq!(4, toks.len());
    assert!(toks.contains(&"hé".to_string()));
    assert!(toks.contains(&"él".to_string()));
    let d = jac.distance_ratio().unwrap();
    assert_eq!(0, d.num);
}

// The transposition walk compares decoded code points, so multi-byte
// characters are matched and counted exactly.
#[test]
fn prop_jaro_multibyte_transpositions() {
    let stats = jw("éabc", "aébc", false).match_stats();
    assert_eq!(4, stats.src_len);
    assert_eq!(4, stats.tar_len);
    assert_eq!(4, stats.matches);
    assert_eq!(2, stats.transpositions);
    assert_eq!(0, stats.prefix_len);
}

// Hamming compares code points, not bytes.
#[test]
fn prop_hamming_multibyte() {
    let ham = Hamming { src: "é".to_string(), tar: "e".to_string() };
    assert_eq!(1, ham.distance().unwrap());
}

// Similarity and distance add up to the longer length for the count-based
// engines.
#[test]
fn prop_similarity_distance_roundtrip() {
    let pairs = [("person", "human"), ("", "abc"), ("test", "test"), ("ca", "abc")];
    for (a, b) in pairs {
        let max_len = a.chars().count().max(b.chars().count());
        let lev = Levenshtein { src: a.to_string(), tar: b.to_string() };
        assert_eq!(max_len, lev.distance() + lev.similarity());
        for restricted in [true, false] {
            let dl = DamerauLevenshtein { src: a.to_string(), tar: b.to_string(), restricted };
            assert_eq!(max_len, dl.distance() + dl.similarity());
        }
    }
    let ham = Hamming { src: "karolin".to_string(), tar: "kathrin".to_string() };
    assert_eq!(7, ham.distance().unwrap() + ham.similarity().unwrap());
}

// Repeated calls with identical inputs yield identical results.
#[test]
fn prop_idempotence() {
    let lev = Levenshtein { src: "karolin".to_string(), tar: "kathrin".to_string() };
    assert_eq!(lev.distance(), lev.distance());
    assert_eq!(lev.normalized_distance_ratio(), lev.normalized_distance_ratio());

    let dl = DamerauLevenshtein { src: "ca".to_string(), tar: "abc".to_string(), restricted: false };
    assert_eq!(dl.distance(), dl.distance());

    let ham = Hamming { src: "ijk".to_string(), tar: "kji".to_string() };
    assert_eq!(ham.distance(), ham.distance());

    let jac = Jaccard { src: "nelson".to_string(), tar: "neilsen".to_string(), qval: 1 };
    assert_eq!(jac.token_counts(), jac.token_counts());
    assert_eq!(jac.distance_ratio(), jac.distance_ratio());

    let e = jw("frog", "fog", true);
    assert_eq!(e.match_stats(), e.match_stats());
    assert_eq!(e.similarity_ratio(), e.similarity_ratio());
}

// Whenever the boost applies, the winklerized distance is at most the
// plain Jaro distance.
#[test]
fn prop_winkler_boost_never_hurts() {
    for (a, b) in [("frog", "fog"), ("faremviel", "farmville"), ("karolin", "kathrin")] {
        let plain = jw(a, b, false).distance_ratio();
        let boosted = jw(a, b, true).distance_ratio();
        // boosted <= plain, compared by cross-multiplication
        assert!(boosted.num * plain.den <= plain.num * boosted.den);
    }
    // exact rational for frog/fog: the boosted distance is 9/120 = 0.075
    let d = jw("frog", "fog", true).distance_ratio();
    assert_eq!(d.num * 40, d.den * 3);
}

// The Jaro match statistics of a known example.
#[test]
fn prop_jaro_stats_frog_fog() {
    let stats = jw("frog", "fog", true).match_stats();
    assert_eq!(4, stats.src_len);
    assert_eq!(3, stats.tar_len);
    assert_eq!(3, stats.matches);
    assert_eq!(0, stats.transpositions);
    assert_eq!(1, stats.prefix_len);
}

// The helpers compute the minimum of three values and the longer length in
// code points.
#[test]
fn prop_helpers() {
    assert_eq!(1, min_of_3(3, 1, 2));
    assert_eq!(0, min_of_3(5, 7, 0));
    assert_eq!(4, min_of_3(4, 4, 4));
    assert_eq!(3, max_text_length("ab".to_string(), "xyz".to_string()));
    assert_eq!(2, max_text_length("éé".to_string(), "a".to_string()));
    assert_eq!(0, max_text_length("".to_string(), "".to_string()));
}

// The error values carry the message of the violated precondition.
#[test]
fn prop_error_messages() {
    assert_eq!(
        "Hamming distance is only defined for strings of equal length",
        MetricError::LengthMismatch.message(),
    );
    assert_eq!(
        "Can't create n-grams from text shorter than n-gram length",
        MetricError::SequenceTooShort.message(),
    );
}

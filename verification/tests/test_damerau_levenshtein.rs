use text_distance::DamerauLevenshtein;

fn restricted(src: &str, tar: &str) -> DamerauLevenshtein {
    DamerauLevenshtein { src: src.to_string(), tar: tar.to_string(), restricted: true }
}

fn unrestricted(src: &str, tar: &str) -> DamerauLevenshtein {
    DamerauLevenshtein { src: src.to_string(), tar: tar.to_string(), restricted: false }
}

fn normalized_distance(e: &DamerauLevenshtein) -> f64 {
    let r = e.normalized_distance_ratio();
    r.num as f64 / r.den as f64
}

// restricted
#[test]
fn test_damerau_levenshtein_test_distance() {
    assert_eq!(0, restricted("", "").distance());
    assert_eq!(4, restricted("test", "").distance());
    assert_eq!(5, restricted("abcdef", "axb123").distance());
    assert_eq!(3, restricted("ca", "abc").distance());
}

#[test]
fn test_damerau_levenshtein_test_normalized_distance() {
    assert_eq!(0.0, normalized_distance(&restricted("", "")));
    assert_eq!(1.0, normalized_distance(&restricted("test", "")));
    assert_eq!(0.8333333333333334, normalized_distance(&restricted("abcdef", "axb123")));
    assert_eq!(1.0, normalized_distance(&restricted("ca", "abc")));
}

#[test]
fn test_damerau_levenshtein_test_similarity() {
    assert_eq!(0, restricted("", "").similarity());
    assert_eq!(0, restricted("test", "").similarity());
    assert_eq!(1, restricted("abcdef", "axb123").similarity());
    assert_eq!(0, restricted("ca", "abc").similarity());
}

#[test]
fn test_damerau_levenshtein_test_normalized_similarity() {
    assert_eq!(1.0, 1.0 - normalized_distance(&restricted("", "")));
    assert_eq!(0.0, 1.0 - normalized_distance(&restricted("test", "")));
    assert_eq!(0.16666666666666663, 1.0 - normalized_distance(&restricted("abcdef", "axb123")));
    assert_eq!(0.0, 1.0 - normalized_distance(&restricted("ca", "abc")));
}

// Unrestricted
#[test]
fn test_unrestricted_distance() {
    assert_eq!(0, unrestricted("", "").distance());
    assert_eq!(4, unrestricted("test", "").distance());
    assert_eq!(5, unrestricted("abcdef", "axb123").distance());
    assert_eq!(2, unrestricted("ca", "abc").distance());
}

#[test]
fn test_unrestricted_normalized_distance() {
    assert_eq!(0.0, normalized_distance(&unrestricted("", "")));
    assert_eq!(1.0, normalized_distance(&unrestricted("test", "")));
    assert_eq!(0.8333333333333334, normalized_distance(&unrestricted("abcdef", "axb123")));
    assert_eq!(0.6666666666666666, normalized_distance(&unrestricted("ca", "abc")));
}

#[test]
fn test_unrestricted_similarity() {
    assert_eq!(0, unrestricted("", "").similarity());
    assert_eq!(0, unrestricted("test", "").similarity());
    assert_eq!(1, unrestricted("abcdef", "axb123").similarity());
    assert_eq!(1, unrestricted("ca", "abc").similarity());
}

#[test]
fn test_unrestricted_normalized_similarity() {
    assert_eq!(1.0, 1.0 - normalized_distance(&unrestricted("", "")));
    assert_eq!(0.0, 1.0 - normalized_distance(&unrestricted("test", "")));
    assert_eq!(0.16666666666666663, 1.0 - normalized_distance(&unrestricted("abcdef", "axb123")));
    assert_eq!(0.33333333333333337, 1.0 - normalized_distance(&unrestricted("ca", "abc")));
}

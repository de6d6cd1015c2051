use text_distance::Levenshtein;

fn lev(src: &str, tar: &str) -> Levenshtein {
    Levenshtein { src: src.to_string(), tar: tar.to_string() }
}

fn lev_normalized_distance(src: &str, tar: &str) -> f64 {
    let r = lev(src, tar).normalized_distance_ratio();
    r.num as f64 / r.den as f64
}

#[test]
fn test_levenshtein_test_distance() {
    assert_eq!(1, lev("test", "text").distance());
    assert_eq!(2, lev("book", "back").distance());
    assert_eq!(5, lev("person", "human").distance());

    assert_eq!(0, lev("test", "test").distance());
    assert_eq!(0, lev("t", "t").distance());

    assert_eq!(1, lev("Test", "Text").distance());
    assert_eq!(2, lev("test", "Text").distance());

    assert_eq!(4, lev("test", "").distance());
    assert_eq!(4, lev("", "text").distance());
    assert_eq!(0, lev("", "").distance());
}

#[test]
fn test_levenshtein_test_normalized_distance() {
    assert_eq!(0.0, lev_normalized_distance("test", "test"));
    assert_eq!(0.25, lev_normalized_distance("test", "text"));
    assert_eq!(0.5, lev_normalized_distance("book", "back"));
    assert_eq!(0.8333333333333334, lev_normalized_distance("person", "human"));
    assert_eq!(1.0, lev_normalized_distance("test", "book"));
}

#[test]
fn test_levenshtein_test_similarity() {
    assert_eq!(4, lev("test", "test").similarity());
    assert_eq!(3, lev("test", "text").similarity());
    assert_eq!(2, lev("book", "back").similarity());
    assert_eq!(1, lev("person", "human").similarity());
    assert_eq!(0, lev("test", "book").similarity());
}

#[test]
fn test_levenshtein_test_normalized_similarity() {
    assert_eq!(1.0, 1.0 - lev_normalized_distance("test", "test"));
    assert_eq!(0.75, 1.0 - lev_normalized_distance("test", "text"));
    assert_eq!(0.5, 1.0 - lev_normalized_distance("book", "back"));
    assert_eq!(0.16666666666666663, 1.0 - lev_normalized_distance("person", "human"));
    assert_eq!(0.0, 1.0 - lev_normalized_distance("test", "book"));
}

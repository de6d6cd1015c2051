use text_distance::Jaccard;

fn jac(src: &str, tar: &str, qval: usize) -> Jaccard {
    Jaccard { src: src.to_string(), tar: tar.to_string(), qval }
}

fn jac_distance(src: &str, tar: &str, qval: usize) -> f64 {
    let c = jac(src, tar, qval).token_counts().unwrap();
    1.0 - (c.intersection as f64 / c.union_size as f64)
}

#[test]
fn test_jaccard_test_distance() {
    assert_eq!(
        0.5555555555555556,
        jac_distance("data is the new oil of the digital economy", "data is a new oil", 0),
    );
    assert_eq!(0.33333333333333337, jac_distance("nelson", "neilsen", 1));
    assert_eq!(0.44999999999999996, jac_distance("nelson has a car", "neilsen has a cat", 2));
    assert_eq!(0.6190476190476191, jac_distance("nelson has a car", "neilsen has a cat", 3));
}

#[test]
fn test_jaccard_test_normalized_distance() {
    assert_eq!(
        0.5555555555555556,
        jac_distance("data is the new oil of the digital economy", "data is a new oil", 0) / 1.0,
    );
    assert_eq!(0.33333333333333337, jac_distance("nelson", "neilsen", 1) / 1.0);
    assert_eq!(0.44999999999999996, jac_distance("nelson has a car", "neilsen has a cat", 2) / 1.0);
    assert_eq!(0.6190476190476191, jac_distance("nelson has a car", "neilsen has a cat", 3) / 1.0);
}

#[test]
fn test_jaccard_test_similarity() {
    assert_eq!(
        0.4444444444444444,
        1.0 - jac_distance("data is the new oil of the digital economy", "data is a new oil", 0),
    );
    assert_eq!(0.6666666666666666, 1.0 - jac_distance("nelson", "neilsen", 1));
    assert_eq!(0.55, 1.0 - jac_distance("nelson has a car", "neilsen has a cat", 2));
    assert_eq!(
        0.38095238095238093,
        1.0 - jac_distance("nelson has a car", "neilsen has a cat", 3),
    );
}

#[test]
fn test_jaccard_test_normalized_similarity() {
    assert_eq!(
        0.4444444444444444,
        1.0 - jac_distance("data is the new oil of the digital economy", "data is a new oil", 0)
            / 1.0,
    );
    assert_eq!(0.6666666666666666, 1.0 - jac_distance("nelson", "neilsen", 1) / 1.0);
    assert_eq!(0.55, 1.0 - jac_distance("nelson has a car", "neilsen has a cat", 2) / 1.0);
    assert_eq!(
        0.38095238095238093,
        1.0 - jac_distance("nelson has a car", "neilsen has a cat", 3) / 1.0,
    );
}

#[test]
#[should_panic(expected = "Can't create n-grams from text shorter than n-gram length")]
fn test_jaccard_panic() {
    match jac("nelson", "neilsen", 100).token_counts() {
        Ok(_) => {},
        Err(e) => panic!("{}", e.message()),
    }
}

use text_distance::Hamming;

fn ham(src: &str, tar: &str) -> Hamming {
    Hamming { src: src.to_string(), tar: tar.to_string() }
}

fn ham_normalized_distance(src: &str, tar: &str) -> f64 {
    let r = ham(src, tar).normalized_distance_ratio().unwrap();
    r.num as f64 / r.den as f64
}

#[test]
fn test_hamming_test_distance() {
    assert_eq!(0, ham("", "").distance().unwrap());
    assert_eq!(0, ham("test", "test").distance().unwrap());
    assert_eq!(2, ham("ijk", "kji").distance().unwrap());
    assert_eq!(3, ham("karolin", "kathrin").distance().unwrap());
}

#[test]
fn test_hamming_test_normalized_distance() {
    assert_eq!(0.0, ham_normalized_distance("", ""));
    assert_eq!(0.0, ham_normalized_distance("test", "test"));
    assert_eq!(0.6666666666666666, ham_normalized_distance("ijk", "kji"));
    assert_eq!(0.42857142857142855, ham_normalized_distance("karolin", "kathrin"));
}

#[test]
fn test_hamming_test_similarity() {
    assert_eq!(0, ham("", "").similarity().unwrap());
    assert_eq!(4, ham("test", "test").similarity().unwrap());
    assert_eq!(1, ham("ijk", "kji").similarity().unwrap());
    assert_eq!(4, ham("karolin", "kathrin").similarity().unwrap());
}

#[test]
fn test_hamming_test_normalized_similarity() {
    assert_eq!(1.0, 1.0 - ham_normalized_distance("", ""));
    assert_eq!(1.0, 1.0 - ham_normalized_distance("test", "test"));
    assert_eq!(0.33333333333333337, 1.0 - ham_normalized_distance("ijk", "kji"));
    assert_eq!(0.5714285714285714, 1.0 - ham_normalized_distance("karolin", "kathrin"));
}

#[test]
#[should_panic(expected = "Hamming distance is only defined for strings of equal length")]
fn test_hamming_panic() {
    match ham("test", "textt").distance() {
        Ok(_) => {},
        Err(e) => panic!("{}", e.message()),
    }
}

use text_distance::Hamming;
use text_distance::Levenshtein;

fn edit_lev_nd(s: &str, t: &str) -> f64 {
    let r = Levenshtein { src: s.to_string(), tar: t.to_string() }.normalized_distance_ratio();
    r.num as f64 / r.den as f64
}

fn edit_ham_nd(s: &str, t: &str) -> f64 {
    let e = Hamming { src: s.to_string(), tar: t.to_string() };
    let r = e.normalized_distance_ratio().unwrap();
    r.num as f64 / r.den as f64
}

#[test]
fn test_levenshtein() {
    // Distance
    assert_eq!(1, Levenshtein { src: "test".to_owned(), tar: "text".to_owned() }.distance());
    assert_eq!(2, Levenshtein { src: "book".to_owned(), tar: "back".to_owned() }.distance());
    assert_eq!(5, Levenshtein { src: "person".to_owned(), tar: "human".to_owned() }.distance());

    assert_eq!(0, Levenshtein { src: "test".to_owned(), tar: "test".to_owned() }.distance());
    assert_eq!(0, Levenshtein { src: "t".to_owned(), tar: "t".to_owned() }.distance());

    assert_eq!(1, Levenshtein { src: "Test".to_owned(), tar: "Text".to_owned() }.distance());
    assert_eq!(2, Levenshtein { src: "test".to_owned(), tar: "Text".to_owned() }.distance());

    assert_eq!(4, Levenshtein { src: "test".to_owned(), tar: "".to_owned() }.distance());
    assert_eq!(4, Levenshtein { src: "".to_owned(), tar: "text".to_owned() }.distance());
    assert_eq!(0, Levenshtein { src: "".to_owned(), tar: "".to_owned() }.distance());

    // Normalized Distance
    assert_eq!(0.0, edit_lev_nd("test", "test"));
    assert_eq!(0.25, edit_lev_nd("test", "text"));
    assert_eq!(0.5, edit_lev_nd("book", "back"));
    assert_eq!(0.8333333333333334, edit_lev_nd("person", "human"));
    assert_eq!(1.0, edit_lev_nd("test", "book"));

    // Similarity
    assert_eq!(4, Levenshtein { src: "test".to_owned(), tar: "test".to_owned() }.similarity());
    assert_eq!(3, Levenshtein { src: "test".to_owned(), tar: "text".to_owned() }.similarity());
    assert_eq!(2, Levenshtein { src: "book".to_owned(), tar: "back".to_owned() }.similarity());
    assert_eq!(1, Levenshtein { src: "person".to_owned(), tar: "human".to_owned() }.similarity());
    assert_eq!(0, Levenshtein { src: "test".to_owned(), tar: "book".to_owned() }.similarity());

    // Normalized Similarity
    assert_eq!(1.0, 1.0 - edit_lev_nd("test", "test"));
    assert_eq!(0.75, 1.0 - edit_lev_nd("test", "text"));
    assert_eq!(0.5, 1.0 - edit_lev_nd("book", "back"));
    assert_eq!(0.16666666666666663, 1.0 - edit_lev_nd("person", "human"));
    assert_eq!(0.0, 1.0 - edit_lev_nd("test", "book"));
}

#[test]
fn test_hamming() {
    // Distance
    assert_eq!(0.0, edit_ham_nd("test", "test"));
    assert_eq!(
        1,
        Hamming { src: "test".to_owned(), tar: "text".to_owned() }.distance().unwrap(),
    );

    // Normalized Distance
    assert_eq!(0.0, edit_ham_nd("test", "test"));
    assert_eq!(0.25, edit_ham_nd("test", "text"));

    // Similarity
    assert_eq!(
        4,
        Hamming { src: "test".to_owned(), tar: "test".to_owned() }.similarity().unwrap(),
    );
    assert_eq!(
        3,
        Hamming { src: "test".to_owned(), tar: "text".to_owned() }.similarity().unwrap(),
    );

    // Normalized Similarity
    assert_eq!(1.0, 1.0 - edit_ham_nd("test", "test"));
    assert_eq!(0.75, 1.0 - edit_ham_nd("test", "text"));
}

#[test]
#[should_panic]
fn test_panics() {
    Hamming { src: "test".to_owned(), tar: "textt".to_owned() }.distance().unwrap();
}

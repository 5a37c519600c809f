use decster::globs::{GlobError, Globs};

fn pats(v: &[&str]) -> Vec<String> {
    v.iter().map(|s| s.to_string()).collect()
}

#[test]
fn strict_and_permissive() {
    let strict = Globs::strict(&vec![]).unwrap();
    assert!(!strict.is_match("anything"));
    let permissive = Globs::permissive(&vec![]).unwrap();
    assert!(permissive.is_match("anything"));
    assert!(!Globs::empty().is_match("x"));
}

#[test]
fn star_stops_at_slash() {
    let globs = Globs::strict(&pats(&["a*"])).unwrap();
    assert!(globs.is_match("abc"));
    assert!(!globs.is_match("a/b"));
    assert!(!globs.is_match("ba"));
}

#[test]
fn invalid_glob() {
    match Globs::strict(&pats(&["ok", "a[", "b["])) {
        Err(GlobError::InvalidPattern { index, .. }) => assert_eq!(index, 1),
        Err(other) => panic!("unexpected {other:?}"),
        Ok(_) => panic!("expected an error"),
    }
}

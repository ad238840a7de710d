use dirtree::pattern::Pattern;

#[test]
fn a_valid_expression_is_accepted_and_keeps_its_text() {
    let p = Pattern::new(r"\.rs$").unwrap();
    assert_eq!(p.as_str(), r"\.rs$");
}

#[test]
fn an_unclosed_group_is_rejected_with_its_text_and_a_reason() {
    let e = Pattern::new("foo(bar").unwrap_err();
    assert_eq!(e.pattern, "foo(bar");
    assert!(!e.reason.is_empty());
}

#[test]
fn an_oversized_expression_is_rejected() {
    let e = Pattern::new(r"\w{1000}").unwrap_err();
    assert_eq!(e.pattern, r"\w{1000}");
    assert!(!e.reason.is_empty());
}

#[test]
fn a_pattern_matches_anywhere_in_the_text() {
    let p = Pattern::new("ell").unwrap();
    assert!(p.is_match("hello"));
    assert!(p.is_match("ell"));
    assert!(!p.is_match("help"));
    assert!(!p.is_match(""));
}

#[test]
fn anchors_and_classes_are_the_engines() {
    let p = Pattern::new(r"^[a-c]+\.txt$").unwrap();
    assert!(p.is_match("abc.txt"));
    assert!(!p.is_match("abd.txt"));
    assert!(!p.is_match("abc.txt.bak"));
    assert!(!p.is_match("xabc.txt"));
}

#[test]
fn the_empty_expression_matches_everything() {
    let p = Pattern::new("").unwrap();
    assert_eq!(p.as_str(), "");
    assert!(p.is_match(""));
    assert!(p.is_match("anything"));
}

#[test]
fn the_answer_depends_on_the_text_and_on_the_pattern() {
    let rs = Pattern::new(r"\.rs$").unwrap();
    let md = Pattern::new(r"\.md$").unwrap();
    assert!(rs.is_match("lib.rs"));
    assert!(!rs.is_match("lib.md"));
    assert!(md.is_match("lib.md"));
    assert!(!md.is_match("lib.rs"));
}

use dirtree::name::{bytes_at_or_before, is_hidden, name_at_or_before, name_before};

#[test]
fn hidden_needs_a_dot_and_one_more_character() {
    assert!(is_hidden(".a"));
    assert!(is_hidden(".gitignore"));
    assert!(is_hidden(".."));
    assert!(is_hidden(".\u{e9}"));
    assert!(is_hidden(". "));
}

#[test]
fn bare_dot_and_empty_name_are_not_hidden() {
    assert!(!is_hidden("."));
    assert!(!is_hidden(""));
}

#[test]
fn dot_elsewhere_does_not_hide() {
    assert!(!is_hidden("a"));
    assert!(!is_hidden("a.b"));
    assert!(!is_hidden("ab."));
    assert!(!is_hidden("\u{e9}.x"));
}

#[test]
fn bytes_order_is_lexicographic() {
    assert!(bytes_at_or_before(b"", b""));
    assert!(bytes_at_or_before(b"", b"a"));
    assert!(!bytes_at_or_before(b"a", b""));
    assert!(bytes_at_or_before(b"a", b"a"));
    assert!(bytes_at_or_before(b"a", b"ab"));
    assert!(!bytes_at_or_before(b"ab", b"a"));
    assert!(bytes_at_or_before(b"ab", b"b"));
    assert!(!bytes_at_or_before(b"b", b"ab"));
    assert!(bytes_at_or_before(&[1, 2, 3], &[1, 2, 4]));
    assert!(!bytes_at_or_before(&[1, 2, 255], &[1, 2, 4]));
}

#[test]
fn names_order_by_bytes_not_by_letters() {
    assert!(name_before("B", "a"));
    assert!(!name_before("a", "B"));
    assert!(name_before("Z", "a"));
    assert!(name_before("a10", "a2"));
    assert!(name_before(".z", "a"));
    assert!(name_before("z", "\u{e9}"));
    assert!(!name_before("\u{e9}", "z"));
}

#[test]
fn equal_names_are_at_each_other_but_not_before() {
    assert!(name_at_or_before("same", "same"));
    assert!(!name_before("same", "same"));
    assert!(name_at_or_before("", ""));
}

#[test]
fn name_order_agrees_with_the_order_of_str() {
    let names = [
        "", "a", "A", "ab", "b", ".a", "..", "a.b", "\u{e9}", "z", "\u{4e2d}", "\u{1f600}", "a\u{e9}",
        "a\u{4e2d}", "~", "_", "0", "10", "9",
    ];
    for a in names.iter() {
        for b in names.iter() {
            assert_eq!(name_at_or_before(a, b), a <= b);
            assert_eq!(name_before(a, b), a < b);
        }
    }
}

#[test]
fn of_two_names_one_is_at_or_before_the_other() {
    let names = ["x", "xy", "", "X", ".x", "\u{e9}"];
    for a in names.iter() {
        for b in names.iter() {
            assert!(name_at_or_before(a, b) || name_at_or_before(b, a));
            if name_at_or_before(a, b) && name_at_or_before(b, a) {
                assert_eq!(a, b);
            }
        }
    }
}

use netidx::text::{escape, str_find_char, str_slice, str_starts_with, str_tail};

#[test]
fn prefixes() {
    assert!(str_starts_with("ADD|/a", "ADD|"));
    assert!(str_starts_with("abc", ""));
    assert!(str_starts_with("abc", "abc"));
    assert!(!str_starts_with("ab", "abc"));
    assert!(!str_starts_with("abd", "abc"));
}

#[test]
fn finding_characters() {
    assert_eq!(str_find_char("a|b|c", '|'), Some(1));
    assert_eq!(str_find_char("éé|", '|'), Some(2));
    assert_eq!(str_find_char("abc", '|'), None);
    assert_eq!(str_find_char("", '|'), None);
}

#[test]
fn slicing_by_characters() {
    assert_eq!(str_tail("héllo", 2), "llo");
    assert_eq!(str_tail("abc", 3), "");
    assert_eq!(str_slice("héllo", 1, 3), "él");
}

#[test]
fn escaping() {
    assert_eq!(escape("a|b||c", '|'), "a\\|b\\|\\|c");
    assert_eq!(escape("", '|'), "");
    assert_eq!(escape("né", '|'), "né");
}

use agni::text::{
    contains_text, ends_with_text, parse_number, replace_text, split_text, trim_text,
};

#[test]
fn texts_are_searched() {
    assert!(contains_text("abcabd", "abd"));
    assert!(contains_text("x", ""));
    assert!(!contains_text("ab", "abc"));
    assert!(ends_with_text("film.mkv", ".mkv"));
    assert!(!ends_with_text("mkv", ".mkv"));
}

#[test]
fn texts_are_replaced_from_the_left() {
    assert_eq!(replace_text("aaa", "aa", "b"), "ba");
    assert_eq!(replace_text("äxä", "ä", "ää"), "ääxää");
    assert_eq!(replace_text("abc", "d", "e"), "abc");
}

#[test]
fn texts_are_split_and_trimmed() {
    assert_eq!(split_text("a#b##", '#'), vec!["a", "b", "", ""]);
    assert_eq!(split_text("", '#'), vec![""]);
    assert_eq!(trim_text("\"\"a\"b\"", '"'), "a\"b");
    assert_eq!(trim_text("\"\"", '"'), "");
}

#[test]
fn numbers_are_read() {
    assert_eq!(parse_number("0012", 255), Some(12));
    assert_eq!(parse_number("+255", 255), Some(255));
    assert_eq!(parse_number("256", 255), None);
    assert_eq!(parse_number("+", 255), None);
    assert_eq!(parse_number("", 255), None);
    assert_eq!(parse_number("-1", 255), None);
    assert_eq!(parse_number("1 ", 255), None);
    assert_eq!(
        parse_number("340282366920938463463374607431768211455", u128::MAX),
        Some(u128::MAX)
    );
    assert_eq!(parse_number("340282366920938463463374607431768211456", u128::MAX), None);
}

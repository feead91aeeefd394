use agni::natural::{compare_token_lists, natural_order_strings, tokenize, Rank};
use std::cmp::Ordering;

fn order(a: &str, b: &str) -> Ordering {
    natural_order_strings(a.to_string(), b.to_string())
}

fn key(parts: &[&str]) -> Vec<String> {
    parts.iter().map(|p| p.to_string()).collect()
}

#[test]
fn tokens_are_lowered_runs() {
    assert_eq!(tokenize("Episode 10b.MKV"), key(&["episode ", "10", "b.mkv"]));
    assert_eq!(tokenize("007"), key(&["007"]));
    assert_eq!(tokenize(""), key(&[]));
    assert_eq!(tokenize("ÀÉ9Ж"), key(&["àé", "9", "ж"]));
}

#[test]
fn numbers_behind_a_name_decide() {
    assert_eq!(order("Episode 9", "Episode 10"), Ordering::Less);
    assert_eq!(order("Episode 10", "Episode 9"), Ordering::Greater);
    assert_eq!(order("episode 2", "EPISODE 10"), Ordering::Less);
    assert_eq!(order("a009", "a10"), Ordering::Less);
}

#[test]
fn texts_are_compared_by_bytes() {
    assert_eq!(order("abc", "abd"), Ordering::Less);
    assert_eq!(order("b", "a"), Ordering::Greater);
    assert_eq!(order("ab", "abc"), Ordering::Less);
    assert_eq!(order("z", "é"), Ordering::Less);
    assert_eq!(order("a", "1"), Ordering::Greater);
}

#[test]
fn no_two_texts_are_equal() {
    assert_eq!(order("same", "same"), Ordering::Greater);
    assert_eq!(order("", ""), Ordering::Greater);
    assert_eq!(order("a1", "a01"), Ordering::Greater);
    assert_eq!(order("a01", "a1"), Ordering::Greater);
}

#[test]
fn a_beginning_is_never_less() {
    assert_eq!(order("Foo", "Foo2"), Ordering::Greater);
    assert_eq!(order("Foo2", "Foo"), Ordering::Greater);
}

#[test]
fn numbers_of_more_than_128_bits_are_text() {
    let big = "340282366920938463463374607431768211456";
    assert_eq!(order(big, "9"), Ordering::Less);
    assert_eq!(order("340282366920938463463374607431768211455", "9"), Ordering::Greater);
}

#[test]
fn order_is_asymmetric_and_transitive() {
    let names = ["a1", "a2", "a10", "b", "b 3 c", "c"];
    for i in 0..names.len() {
        for j in 0..names.len() {
            if i < j {
                assert_eq!(order(names[i], names[j]), Ordering::Less);
                assert_eq!(order(names[j], names[i]), Ordering::Greater);
            }
        }
    }
}

#[test]
fn token_lists_are_ranked() {
    assert_eq!(compare_token_lists(&key(&["a", "2"]), &key(&["a", "10"])), Rank::Less);
    assert_eq!(compare_token_lists(&key(&["+5"]), &key(&["4"])), Rank::Greater);
    assert_eq!(compare_token_lists(&key(&[]), &key(&["x"])), Rank::Greater);
}

#[test]
fn case_is_ignored() {
    assert_eq!(order("ABC 2", "abc 10"), Ordering::Less);
    assert_eq!(order("abc 2", "ABC 10"), Ordering::Less);
    assert_eq!(order("Am\u{e9}lie 2", "AM\u{c9}LIE 10"), Ordering::Less);
}

#[test]
fn no_letter_becomes_a_digit() {
    let text: String = ('\0'..=char::MAX).filter(|c| !c.is_ascii_digit()).collect();
    let tokens = tokenize(&text);
    assert_eq!(tokens.len(), 1);
    assert!(!tokens[0].chars().any(|c| c.is_ascii_digit()));
    for c in text.chars() {
        assert!(!c.to_string().to_lowercase().is_empty());
    }
}

#[test]
fn order_is_transitive_beyond_ascii() {
    let names = ["1\u{439}", "1\u{7b2c}", "2\u{439}", "2\u{43e}\u{439}", "10\u{c9}", "\u{7b2c}9", "\u{7b2c}10"];
    for i in 0..names.len() {
        for j in i + 1..names.len() {
            assert_eq!(order(names[i], names[j]), Ordering::Less);
            assert_eq!(order(names[j], names[i]), Ordering::Greater);
        }
    }
}

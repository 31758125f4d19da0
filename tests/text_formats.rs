use estate_harvest::text::{chars_of, contains_text, decimal_text, find, parse_u32, same_texts, text_less};

#[test]
fn parse_u32_reads_digits() {
    assert_eq!(parse_u32("3"), Some(3));
    assert_eq!(parse_u32("0"), Some(0));
    assert_eq!(parse_u32("250000"), Some(250000));
    assert_eq!(parse_u32("4294967295"), Some(u32::MAX));
}

#[test]
fn parse_u32_rejects_non_numbers() {
    assert_eq!(parse_u32(""), None);
    assert_eq!(parse_u32("12a"), None);
    assert_eq!(parse_u32("-1"), None);
    assert_eq!(parse_u32(" 3"), None);
    assert_eq!(parse_u32("4294967296"), None);
    assert_eq!(parse_u32("99999999999999999999"), None);
}

#[test]
fn decimal_text_spells_numbers() {
    assert_eq!(decimal_text(0), "0");
    assert_eq!(decimal_text(7), "7");
    assert_eq!(decimal_text(10), "10");
    assert_eq!(decimal_text(4294967295), "4294967295");
    assert_eq!(parse_u32(&decimal_text(123456)), Some(123456));
}

#[test]
fn find_gives_first_occurrence() {
    let s = chars_of("a|:|b|:|c");
    let sep = chars_of("|:|");
    assert_eq!(find(&s, &sep), Some(1));
    assert_eq!(find(&chars_of("abc"), &sep), None);
    assert_eq!(find(&chars_of("abc"), &chars_of("")), Some(0));
}

#[test]
fn contains_text_finds_substrings() {
    assert!(contains_text("/usr/bin/chromedriver", "chromedriver"));
    assert!(!contains_text("/usr/bin/geckodriver", "chromedriver"));
    assert!(contains_text("não", "ão"));
}

#[test]
fn same_texts_compares_in_order() {
    let a = vec!["x".to_string(), "y".to_string()];
    let b = vec!["x".to_string(), "y".to_string()];
    let c = vec!["y".to_string(), "x".to_string()];
    assert!(same_texts(&a, &b));
    assert!(!same_texts(&a, &c));
    assert!(!same_texts(&a, &vec![]));
}

#[test]
fn text_less_is_lexicographic() {
    let s = |x: &str| x.to_string();
    assert!(text_less(&s("a"), &s("b")));
    assert!(text_less(&s("a"), &s("ab")));
    assert!(!text_less(&s("ab"), &s("a")));
    assert!(!text_less(&s("a"), &s("a")));
    assert!(text_less(&s(""), &s("a")));
    assert!(text_less(&s("Z"), &s("a")));
}

use gitswitch::order::text_less;
use gitswitch::text::{lines_of, split_chars, string_of, trimmed, words_of};

fn chars(s: &str) -> Vec<char> {
    s.chars().collect()
}

fn texts(v: Vec<Vec<char>>) -> Vec<String> {
    v.into_iter().map(|w| w.into_iter().collect()).collect()
}

#[test]
fn trimming_unicode_whitespace() {
    assert_eq!(trimmed("  a b \t\n"), "a b");
    assert_eq!(trimmed("\u{3000}x\u{a0}"), "x");
    assert_eq!(trimmed("   "), "");
}

#[test]
fn words_and_lines() {
    assert_eq!(texts(words_of(&chars("  a  bc\td "))), vec!["a", "bc", "d"]);
    assert_eq!(texts(lines_of(&chars("a\r\nb\n\nc"))), vec!["a", "b", "", "c"]);
    assert_eq!(texts(lines_of(&chars("a\n"))), vec!["a"]);
    assert_eq!(texts(lines_of(&chars("x\r"))), vec!["x\r"]);
    assert!(lines_of(&chars("")).is_empty());
    assert_eq!(texts(split_chars(&chars("a//b"), '/')), vec!["a", "", "b"]);
    assert_eq!(string_of(&chars("héllo")), "héllo");
}

#[test]
fn string_order_is_byte_order() {
    assert!(text_less(&"a".to_string(), &"b".to_string()));
    assert!(text_less(&"ab".to_string(), &"abc".to_string()));
    assert!(!text_less(&"b".to_string(), &"B".to_string()));
    assert!(text_less(&"Z".to_string(), &"a".to_string()));
    assert!(!text_less(&"x".to_string(), &"x".to_string()));
    assert!(text_less(&"z".to_string(), &"é".to_string()));
}

use xybrid::sorted::{contains_text_of, insert_ascending};
use xybrid::text::{chars_of, compare_bytes, compare_text, contains_text, text_equals, LexOrder};

#[test]
fn compare_text_orders_like_str() {
    assert_eq!(compare_text("abc", "abd"), LexOrder::Less);
    assert_eq!(compare_text("abc", "ab"), LexOrder::Greater);
    assert_eq!(compare_text("", ""), LexOrder::Equal);
    assert_eq!(compare_text("Z", "a"), LexOrder::Less);
    assert_eq!(compare_text("é", "z"), LexOrder::Greater);
    assert_eq!(compare_text("日本", "日本"), LexOrder::Equal);
}

#[test]
fn compare_bytes_orders_prefix_first() {
    assert_eq!(compare_bytes(&[1, 2], &[1, 2, 0]), LexOrder::Less);
    assert_eq!(compare_bytes(&[2], &[1, 9]), LexOrder::Greater);
    assert_eq!(compare_bytes(&[], &[]), LexOrder::Equal);
}

#[test]
fn text_equals_compares_contents() {
    assert!(text_equals("model", "model"));
    assert!(!text_equals("model", "Model"));
    assert!(!text_equals("a", "ab"));
}

#[test]
fn chars_of_lists_characters() {
    assert_eq!(chars_of("añb"), vec!['a', 'ñ', 'b']);
    assert!(chars_of("").is_empty());
}

#[test]
fn contains_text_finds_substrings() {
    assert!(contains_text("text-to-speech", "to-s"));
    assert!(contains_text("abc", ""));
    assert!(contains_text("", ""));
    assert!(!contains_text("", "a"));
    assert!(!contains_text("ab", "abc"));
    assert!(contains_text("aaab", "aab"));
    assert!(!contains_text("tts", "TTS"));
}

#[test]
fn insert_ascending_keeps_order_without_repeats() {
    let mut v: Vec<String> = Vec::new();
    for s in ["b", "a", "c", "b", "a"] {
        insert_ascending(&mut v, s.to_string());
    }
    assert_eq!(v, vec!["a".to_string(), "b".to_string(), "c".to_string()]);
    assert!(contains_text_of(&v, &"c".to_string()));
    assert!(!contains_text_of(&v, &"d".to_string()));
}

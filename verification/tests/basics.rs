use git_ai::path::join_path;
use git_ai::string_map::StringMap;
use git_ai::text::{contains_text, is_blank, same_text, split_words};

#[test]
fn paths_are_joined() {
    assert_eq!(join_path("/w", "src/a.rs"), "/w/src/a.rs");
    assert_eq!(join_path("/w/", "a"), "/w/a");
    assert_eq!(join_path("/w", "/abs"), "/abs");
    assert_eq!(join_path("", "a"), "a");
    assert_eq!(join_path("/w", ""), "/w/");
}

#[test]
fn blank_texts() {
    assert!(is_blank(""));
    assert!(is_blank(" \t\n\u{b}\u{c}\r\u{85}\u{a0}\u{1680}\u{2003}\u{2028}\u{202f}\u{205f}\u{3000}"));
    assert!(!is_blank(" x "));
    assert!(!is_blank("\u{200b}"));
    for code in 0..0x110000u32 {
        if let Some(c) = char::from_u32(code) {
            assert_eq!(is_blank(&c.to_string()), c.is_whitespace(), "{code:x}");
        }
    }
}

#[test]
fn texts_in_texts() {
    assert!(contains_text("abcabd", "abd"));
    assert!(contains_text("abc", ""));
    assert!(contains_text("", ""));
    assert!(!contains_text("ab", "abc"));
    assert!(!contains_text("aab", "ba"));
    assert!(same_text("x", "x"));
    assert!(!same_text("x", "y"));
}

#[test]
fn words_are_split_at_white_space() {
    assert_eq!(split_words("  one two\n\nthree\t"), vec!["one", "two", "three"]);
    assert_eq!(split_words("one"), vec!["one"]);
}

#[test]
fn maps_keep_one_value_for_a_key() {
    let mut map: StringMap<String> = StringMap::new();
    assert!(map.is_empty());
    map.insert("a".to_string(), "1".to_string());
    map.insert("b".to_string(), "2".to_string());
    map.insert("a".to_string(), "3".to_string());
    assert_eq!(map.len(), 2);
    assert_eq!(map.key_at(0), "a");
    assert_eq!(map.value_at(0), "3");
    assert_eq!(map.get("b").map(|v| v.as_str()), Some("2"));
    assert!(map.get("c").is_none());
    assert!(map.contains_key("a"));

    let mut other: StringMap<String> = StringMap::new();
    other.insert("a".to_string(), "x".to_string());
    other.insert("c".to_string(), "y".to_string());
    map.add_missing(&other);
    assert_eq!(map.get("a").map(|v| v.as_str()), Some("3"));
    assert_eq!(map.get("c").map(|v| v.as_str()), Some("y"));

    assert_eq!(map.remove("b").as_deref(), Some("2"));
    assert!(map.remove("b").is_none());
    other.remove("a");
    let kept = map.retain_keys_of(&other);
    assert_eq!(kept.len(), 1);
    assert_eq!(kept.key_at(0), "c");
}

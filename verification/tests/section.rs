use style_conf::text::{char_is_whitespace, chars_of};
use style_conf::Section;

#[test]
fn new_section_is_empty() {
    let s = Section::new();
    assert!(s.is_empty());
    assert_eq!(s.len(), 0);
    assert!(s.entry(0).is_none());
    assert!(s.get("A").is_none());
    assert!(!s.contains_key("A"));
}

#[test]
fn insert_adds_at_the_end() {
    let mut s = Section::new();
    s.insert("B".to_string(), "1".to_string());
    s.insert("A".to_string(), "2".to_string());
    assert_eq!(s.len(), 2);
    assert!(!s.is_empty());
    let first = s.entry(0).unwrap();
    assert_eq!((first.0.as_str(), first.1.as_str()), ("B", "1"));
    let second = s.entry(1).unwrap();
    assert_eq!((second.0.as_str(), second.1.as_str()), ("A", "2"));
    assert!(s.entry(2).is_none());
}

#[test]
fn insert_replaces_the_value_of_a_known_key() {
    let mut s = Section::new();
    s.insert("A".to_string(), "1".to_string());
    s.insert("B".to_string(), "2".to_string());
    s.insert("A".to_string(), "3".to_string());
    assert_eq!(s.len(), 2);
    assert_eq!(s.get("A").map(|v| v.as_str()), Some("3"));
    assert_eq!(s.get("B").map(|v| v.as_str()), Some("2"));
    let first = s.entry(0).unwrap();
    assert_eq!((first.0.as_str(), first.1.as_str()), ("A", "3"));
}

#[test]
fn keys_are_case_sensitive() {
    let mut s = Section::new();
    s.insert("a".to_string(), "1".to_string());
    s.insert("A".to_string(), "2".to_string());
    assert_eq!(s.len(), 2);
    assert!(s.contains_key("a"));
    assert!(s.contains_key("A"));
    assert!(!s.contains_key("b"));
    assert_eq!(s.get("a").map(|v| v.as_str()), Some("1"));
}

#[test]
fn whitespace_is_the_unicode_white_space_property() {
    let mut code: u32 = 0;
    while code <= 0x10FFFF {
        if let Some(c) = char::from_u32(code) {
            assert_eq!(char_is_whitespace(c), c.is_whitespace(), "U+{:04X}", code);
        }
        code += 1;
    }
}

#[test]
fn chars_of_gives_every_character() {
    assert_eq!(chars_of(""), Vec::<char>::new());
    assert_eq!(chars_of("aé設\n"), vec!['a', 'é', '設', '\n']);
}

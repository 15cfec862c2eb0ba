use cinnabar::lexical::{precedes, same_text};
use cinnabar::vnode::{Attributes, Classes};
use cinnabar::words::{is_space_char, split_words};

#[test]
fn strings_are_ordered_as_std_orders_them() {
    let samples = ["", "a", "A", "ab", "b", "aa", "é", "z", "zz", "日本", "\u{10FFFF}", "~", " "];
    for a in samples.iter() {
        for b in samples.iter() {
            assert_eq!(precedes(a, b), a < b);
            assert_eq!(same_text(a, b), a == b);
        }
    }
}

#[test]
fn white_space_is_what_std_calls_so() {
    let mut c = 0u32;
    while c <= 0x3100 {
        if let Some(ch) = char::from_u32(c) {
            assert_eq!(is_space_char(ch), ch.is_whitespace());
        }
        c += 1;
    }
    assert!(!is_space_char('\u{10FFFF}'));
}

#[test]
fn words_are_split_as_std_splits_them() {
    let samples = [
        "",
        " ",
        "a",
        " a",
        "a ",
        "a b",
        "  wide  primary\taccent\n",
        "\u{3000}日本\u{2003}語 x",
        "one",
        "a\u{a0}b",
    ];
    for s in samples.iter() {
        let expected: Vec<String> = s.split_whitespace().map(|w| w.to_string()).collect();
        assert_eq!(split_words(s), expected);
    }
}

#[test]
fn classes_are_a_set_in_ascending_order() {
    let mut classes = Classes::new();
    assert!(classes.is_empty());
    assert!(classes.insert("m".to_string()));
    assert!(classes.insert("z".to_string()));
    assert!(classes.insert("a".to_string()));
    assert!(!classes.insert("m".to_string()));
    assert!(classes.insert("B".to_string()));
    assert_eq!(classes.len(), 4);
    assert!(!classes.is_empty());
    let listed: Vec<&str> = (0..classes.len()).map(|i| classes.get(i)).collect();
    assert_eq!(listed, vec!["B", "a", "m", "z"]);
    assert!(classes.contains("a"));
    assert!(!classes.contains("b"));
}

#[test]
fn attributes_are_a_map_in_ascending_order_of_names() {
    let mut attributes = Attributes::new();
    assert!(attributes.is_empty());
    assert_eq!(attributes.insert("n".to_string(), "1".to_string()), None);
    assert_eq!(attributes.insert("a".to_string(), "2".to_string()), None);
    assert_eq!(attributes.insert("z".to_string(), "".to_string()), None);
    assert_eq!(attributes.insert("n".to_string(), "3".to_string()), Some("1".to_string()));
    assert_eq!(attributes.len(), 3);
    assert!(!attributes.is_empty());
    let listed: Vec<(&str, &str)> = (0..attributes.len()).map(|i| attributes.entry(i)).collect();
    assert_eq!(listed, vec![("a", "2"), ("n", "3"), ("z", "")]);
    assert_eq!(attributes.get("n"), Some("3"));
    assert_eq!(attributes.get("q"), None);
    assert!(attributes.contains_key("z"));
    assert!(!attributes.contains_key(""));
}

use pve_meta_nvidia::table::Table;
use pve_meta_nvidia::text;
use pve_meta_nvidia::yaml::{self, Node};

#[test]
fn white_space_is_what_unicode_says() {
    for c in (0..=0x10ffffu32).filter_map(char::from_u32) {
        assert_eq!(text::is_white(c), c.is_whitespace(), "{c:?}");
    }
    assert_eq!(text::trimmed("\u{3000} a b\u{85}\n"), "a b");
    assert_eq!(text::trimmed_start(" \ta "), "a ");
    assert_eq!(text::trimmed_end(" a\r\n"), " a");
    assert!(text::is_blank(" \u{2028}"));
    assert!(!text::is_blank(" x"));
}

#[test]
fn lines_words_and_fields_are_cut_where_they_should_be() {
    assert_eq!(text::lines_of("a\n\nb\r\nc"), ["a", "", "b\r", "c"]);
    assert_eq!(text::lines_of("a\n"), ["a"]);
    assert!(text::lines_of("").is_empty());
    assert_eq!(text::lines_of("\n"), [""]);
    assert_eq!(text::words_of("  a\tbé  c "), ["a", "bé", "c"]);
    assert!(text::words_of(" \n").is_empty());
    assert_eq!(text::fields_of("a,,b,", ','), ["a", "", "b", ""]);
    assert_eq!(text::fields_of("", ','), [""]);
    assert_eq!(text::split_at_first("a:b:c", ':'), Some(("a", "b:c")));
    assert_eq!(text::split_at_first("abc", ':'), None);
    assert_eq!(text::joined(&["a", "b", "c"], ", "), "a, b, c");
    assert_eq!(text::joined(&[], ", "), "");
    assert!(text::contains("xé/dev/nvidia0", "/dev/nvidia"));
    assert!(text::contains("x", ""));
    assert!(!text::contains("/dev/nvidi", "/dev/nvidia"));
    assert_eq!(text::before_suffix("a/command", "/command"), Some("a"));
    assert_eq!(text::after_prefix("ab", "abc"), None);
}

#[test]
fn numbers_are_read_and_spelled() {
    assert_eq!(text::u32_of("0"), Some(0));
    assert_eq!(text::u32_of("+007"), Some(7));
    assert_eq!(text::u32_of("4294967295"), Some(u32::MAX));
    assert_eq!(text::u32_of("4294967296"), None);
    assert_eq!(text::u64_of("18446744073709551615"), Some(u64::MAX));
    assert_eq!(text::u64_of("18446744073709551616"), None);
    assert_eq!(text::u64_of("99999999999999999999999"), None);
    for s in ["", "+", "-1", " 1", "1 ", "1.0", "0x1", "++1", "١"] {
        assert_eq!(text::u32_of(s), s.parse::<u32>().ok(), "{s}");
        assert_eq!(text::u32_of(s), None, "{s}");
    }
    for n in [0, 9, 10, 195, 1000, u64::MAX] {
        assert_eq!(text::decimal_of(n), n.to_string());
    }
    for n in [0, -1, 7, i32::MAX, i32::MIN] {
        assert_eq!(text::signed_of(n), n.to_string());
    }
    assert_eq!(text::padded_of("é", 3), "é  ");
    assert_eq!(text::padded_of("abcd", 3), "abcd");
}

#[test]
fn a_table_keeps_its_order() {
    let mut t: Table<u32> = Table::new();
    t.insert("b", 1);
    t.insert("a", 2);
    t.insert("b", 3);
    assert_eq!(t.len(), 2);
    assert_eq!((t.key(0), *t.value(0)), ("b", 3));
    assert_eq!((t.key(1), *t.value(1)), ("a", 2));
    assert_eq!(t.get("c"), None);
}

#[test]
fn yaml_is_read_into_plain_values() {
    let Ok(Node::Mapping(m)) = yaml::read("a: [1, 1.5, -3, ~, x]\n2: !t {b: true}\n") else {
        panic!("expected a mapping");
    };
    assert_eq!(m.len(), 2);
    assert_eq!(m[0].0.as_str(), Some("a"));
    let Node::Sequence(s) = &m[0].1 else {
        panic!("expected a sequence");
    };
    assert!(matches!(&s[0], Node::Number(Some(1), t) if t == "1"));
    assert!(matches!(&s[1], Node::Number(None, t) if t == "1.5"));
    assert!(matches!(&s[2], Node::Number(Some(-3), t) if t == "-3"));
    assert!(matches!(&s[3], Node::Null));
    assert!(matches!(&s[4], Node::Text(t) if t == "x"));
    assert!(matches!(&m[1].0, Node::Number(Some(2), _)));
    assert!(matches!(&m[1].1, Node::Tagged(t, _) if t == "!t"));
    let inner = m[1].1.as_mapping().unwrap();
    assert!(matches!(inner[0].1, Node::Bool(true)));
    assert!(yaml::read("a: 1\na: 2\n").is_err());
    assert!(yaml::read("{").is_err());
}

use howmuchiai::collections::StrMap;
use howmuchiai::json::parse_json;
use howmuchiai::ledger::Ledger;
use howmuchiai::tally::{sort_texts, Tally};
use howmuchiai::text::{
    blank, contains, decimal_i64, decimal_u64, distinct_texts, ends_with, join, lines_of,
    parse_count, parse_number, same, starts_with, trim,
};

#[test]
fn white_space_is_cut_off() {
    assert_eq!(trim("  a b\t\u{a0}\n"), "a b");
    assert_eq!(trim(" \u{3000} "), "");
    assert!(blank("\u{2003}\r\n"));
    assert!(!blank(" x "));
    for c in (0..=0x3100u32).filter_map(char::from_u32) {
        assert_eq!(blank(&c.to_string()), c.is_whitespace(), "{:x}", c as u32);
    }
}

#[test]
fn parts_are_found() {
    assert!(contains("abcabd", "abd"));
    assert!(contains("x", ""));
    assert!(!contains("ab", "abc"));
    assert!(starts_with("abc", "ab") && !starts_with("abc", "bc"));
    assert!(ends_with("abc", "bc") && !ends_with("abc", "ab"));
    assert!(same("ä", "ä") && !same("a", "ab"));
}

#[test]
fn lines_end_with_feeds() {
    let check = |s: &str| {
        let expected: Vec<String> = s.lines().map(|l| l.to_string()).collect();
        assert_eq!(lines_of(s), expected, "{s:?}");
    };
    for s in ["", "\n", "a", "a\n", "a\nb", "a\r\nb\r\n", "a\r", "\r\n\r", "a\n\n\nb\r"] {
        check(s);
    }
}

#[test]
fn numbers_are_written_and_read() {
    assert_eq!(decimal_u64(0), "0");
    assert_eq!(decimal_u64(u64::MAX), u64::MAX.to_string());
    assert_eq!(decimal_i64(i64::MIN), i64::MIN.to_string());
    assert_eq!(decimal_i64(-7), "-7");
    for s in ["0", "007", "+5", "", "+", "-5", "1a", "18446744073709551615", "18446744073709551616", "٣"] {
        assert_eq!(parse_count(s), s.parse::<u64>().ok(), "{s}");
    }
    for s in ["0", "-0", "-5", "+5", "-+5", "-", "9223372036854775807", "9223372036854775808", "-9223372036854775808", "-9223372036854775809"] {
        assert_eq!(parse_number(s), s.parse::<i64>().ok(), "{s}");
    }
}

#[test]
fn lists_are_joined_and_thinned() {
    let list: Vec<String> = ["b", "a", "b"].iter().map(|s| s.to_string()).collect();
    assert_eq!(join(&list, ", "), "b, a, b");
    assert_eq!(join(&vec![], ", "), "");
    assert_eq!(distinct_texts(&list), vec!["b", "a"]);
    let mut sorted = vec!["b".to_string(), "é".to_string(), "B".to_string(), "ab".to_string()];
    sort_texts(&mut sorted);
    assert_eq!(sorted, vec!["B", "ab", "b", "é"]);
}

#[test]
fn maps_keep_the_order_of_their_keys() {
    let mut map = StrMap::new();
    assert!(map.is_empty());
    map.insert("b".to_string(), 1);
    map.insert("a".to_string(), 2);
    map.insert("b".to_string(), 3);
    assert_eq!(map.len(), 2);
    assert_eq!(map.key(0), "b");
    assert_eq!(map.get("b"), Some(&3));
    assert_eq!(map.get("c"), None);
    *map.value_mut(1) = 9;
    assert_eq!(map.get("a"), Some(&9));
}

#[test]
fn names_are_counted() {
    let mut tally = Tally::new();
    assert!(tally.is_empty());
    for name in ["x", "y", "x"] {
        tally.count(name);
    }
    let record = tally.to_record();
    assert_eq!(record.get("x").unwrap().as_count(), Some(2));
    assert_eq!(record.get("y").unwrap().as_count(), Some(1));
    assert!(record.get("z").is_none());
}

#[test]
fn documents_are_read_with_their_numbers() {
    let v = parse_json(r#"{"a":[1,-2,3.9,18446744073709551615,true,null,"s"],"b":{"c":-1.5e3}}"#)
        .expect("document");
    let a = v.items_at("a").expect("array");
    assert_eq!(a[0].as_u64(), Some(1));
    assert_eq!(a[1].as_u64(), None);
    assert_eq!(a[1].as_i64(), Some(-2));
    assert_eq!(a[2].as_i64(), None);
    assert_eq!(a[2].as_truncated(), Some(3));
    assert_eq!(a[3].as_i64(), None);
    assert_eq!(a[3].as_u64(), Some(u64::MAX));
    assert!(a[5].is_null());
    assert_eq!(a[6].as_str(), Some("s"));
    assert_eq!(v.get_in("b", "c").unwrap().as_truncated(), Some(-1500));
    assert!(parse_json("{").is_none());
    assert!(parse_json("").is_none());
}

#[test]
fn ledgers_add_up_whatever_the_order() {
    let mut forth = Ledger::new();
    forth.note_tokens("a", 1, 2, 3, 4, 5);
    forth.note_tokens("b", 10, 0, 0, 0, 0);
    forth.note_tokens("a", 1, 0, 0, 0, 0);
    let mut back = Ledger::new();
    back.note_tokens("a", 1, 0, 0, 0, 0);
    back.note_tokens("b", 10, 0, 0, 0, 0);
    back.note_tokens("a", 1, 2, 3, 4, 5);
    let (models, total) = forth.into_models();
    assert_eq!(models.get("a").unwrap().tokens.output_tokens, 5);
    assert_eq!(total.input_tokens, 12);
    assert_eq!(total, back.into_models().1);
}

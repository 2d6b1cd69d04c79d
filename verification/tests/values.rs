//! Texts, tables and values.

use openab_core::labels::Labels;
use openab_core::encoding::byte_len;
use openab_core::encoding::len_utf8;
use openab_core::json::json_escaped_len_within;
use openab_core::json::parse_json;
use openab_core::table::Table;
use openab_core::text::decimal_text;
use openab_core::text::join;
use openab_core::text::parse_usize;
use openab_core::text::same_ignoring_ascii_case;
use openab_core::text::signed_decimal_text;
use openab_core::text::split_lines;
use openab_core::text::split_words;
use openab_core::text::strip_prefix;
use openab_core::text::trim;
use openab_core::text::trim_end;
use openab_core::text::white;
use openab_core::value::Json;
use openab_core::value::JsonNumber;

#[test]
fn white_space_is_what_the_language_says() {
    for c in (0..=0x3100u32).filter_map(char::from_u32) {
        assert_eq!(white(c), c.is_whitespace());
    }
    let s = "\u{2003} a \u{85}b\t\n";
    assert_eq!(trim(s), s.trim());
    assert_eq!(trim_end(s), s.trim_end());
    assert_eq!(split_words(s), s.split_whitespace().map(|w| w.to_string()).collect::<Vec<_>>());
}

#[test]
fn lines_end_at_line_breaks() {
    for s in ["", "a", "a\n", "a\r\nb", "\n\nx\r", "a\n\r\n"] {
        assert_eq!(split_lines(s), s.lines().map(|l| l.to_string()).collect::<Vec<_>>());
    }
    assert_eq!(join(&vec!["a".into(), "b".into(), "c".into()], 1, ", "), "b, c");
}

#[test]
fn numbers_are_written_and_read() {
    assert_eq!(decimal_text(0), "0");
    assert_eq!(decimal_text(u64::MAX), u64::MAX.to_string());
    assert_eq!(signed_decimal_text(i64::MIN), i64::MIN.to_string());
    assert_eq!(signed_decimal_text(-7), "-7");
    for s in ["", "+", "+5", "-5", "007", "18446744073709551615", "18446744073709551616", "1x"] {
        assert_eq!(parse_usize(s), s.parse::<usize>().ok());
    }
}

#[test]
fn texts_are_measured_and_matched() {
    assert_eq!(byte_len("aé🦀"), 7);
    assert_eq!(len_utf8('🦀'), 4);
    assert_eq!(json_escaped_len_within("a\u{1b}", 7), Some(7));
    assert_eq!(json_escaped_len_within("a\u{1b}", 6), None);
    assert_eq!(strip_prefix("file://x", "file://"), Some("x"));
    assert_eq!(strip_prefix("x", "file://"), None);
    assert!(same_ignoring_ascii_case("FULL", "full"));
    assert!(!same_ignoring_ascii_case("É", "é"));
}

#[test]
fn tables_keep_the_order_of_their_keys() {
    let mut t: Table<String, u32> = Table::new();
    assert_eq!(t.insert("a".into(), 1), None);
    assert_eq!(t.insert("b".into(), 2), None);
    assert_eq!(t.insert("a".into(), 3), Some(1));
    assert_eq!(t.len(), 2);
    assert_eq!(t.at(0), (&"a".to_string(), &3));
    assert_eq!(t.remove(&"a".to_string()), Some(3));
    assert_eq!(t.remove(&"a".to_string()), None);
    assert!(t.contains(&"b".to_string()));
}

#[test]
fn objects_are_read_by_key() {
    let v = Json::object().with("a", Json::text("x")).with("b", Json::Bool(true));
    assert_eq!(v.get_str("a"), Some("x"));
    assert_eq!(v.get_str("b"), None);
    assert_eq!(v.get("b").unwrap().as_bool(), Some(true));
    assert_eq!(v.get("c"), None);
    assert_eq!(Json::integer(-1).as_u64(), None);
    assert_eq!(Json::integer(5), Json::number(5));
    assert_eq!(Json::text("x").get("a"), None);
}

#[test]
fn json_text_is_read_into_values() {
    let text = "{\"b\":[1,-2,2.5,18446744073709551615],\"a\":{\"t\":true,\"n\":null,\"s\":\"x\\ny\"}}";
    let inner = Json::object()
        .with("n", Json::Null)
        .with("s", Json::text("x\ny"))
        .with("t", Json::Bool(true));
    let numbers = Json::array(vec![
        Json::number(1),
        Json::Number(JsonNumber::Negative(-2)),
        Json::Number(JsonNumber::Other("2.5".to_string())),
        Json::number(u64::MAX),
    ]);
    assert_eq!(parse_json(text), Some(Json::object().with("a", inner).with("b", numbers)));
    assert_eq!(parse_json(" \"x\" "), Some(Json::text("x")));
    assert_eq!(parse_json("{} x"), None);
    assert_eq!(parse_json(""), None);
}

#[test]
fn labels_hold_each_name_once_and_in_order() {
    let mut labels = Labels::new();
    assert_eq!(labels.len(), 0);
    for (name, value) in [("zone", "a"), ("backend", "x"), ("back", "y"), ("zone", "b"), ("é", "")] {
        labels.insert(name.to_string(), value.to_string());
    }
    assert_eq!(labels.len(), 4);
    assert_eq!(labels.at(0), ("back", "y"));
    assert_eq!(labels.at(1), ("backend", "x"));
    assert_eq!(labels.at(2), ("zone", "b"));
    assert_eq!(labels.at(3), ("é", ""));
    let mut other = Labels::new();
    for i in [2, 0, 3, 1] {
        let (name, value) = labels.at(i);
        other.insert(name.to_string(), value.to_string());
    }
    assert_eq!(other, labels);
    assert_eq!(labels.copy(), labels);
}

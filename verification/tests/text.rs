use http_server::decimal::{decimal_string, parse_usize};
use http_server::headers::Headers;
use http_server::text::{
    chars_of, index_of_char, index_of_seq, index_of_space, index_of_text, index_of_trim_end,
    is_whitespace_char, matches_at, same_text, split_at_char, split_at_whitespace, trim_bounds,
};

fn chars(s: &str) -> Vec<char> {
    s.chars().collect()
}

fn text(s: &[char], range: (usize, usize)) -> String {
    s[range.0..range.1].iter().collect()
}

#[test]
fn white_space_is_what_std_calls_white_space() {
    for code in 0..=0x10FFFFu32 {
        if let Some(c) = char::from_u32(code) {
            assert_eq!(is_whitespace_char(c), c.is_whitespace(), "U+{:04X}", code);
        }
    }
}

#[test]
fn chars_of_gives_the_characters() {
    assert_eq!(chars_of(""), Vec::<char>::new());
    assert_eq!(chars_of("a\u{e9}\u{1F600}z"), vec!['a', '\u{e9}', '\u{1F600}', 'z']);
}

#[test]
fn same_text_compares_characters() {
    assert!(same_text("", ""));
    assert!(same_text("GET", "GET"));
    assert!(!same_text("GET", "GEt"));
    assert!(!same_text("GET", "GETS"));
    assert!(same_text("\u{e9}", "\u{e9}"));
    assert!(!same_text("\u{e9}", "e\u{301}"));
}

#[test]
fn searches_find_the_first_place() {
    let s = chars("ab: c: d");
    assert_eq!(index_of_char(&s, ':', 0), 2);
    assert_eq!(index_of_char(&s, ':', 3), 5);
    assert_eq!(index_of_char(&s, ':', 6), 8);
    assert_eq!(index_of_char(&s, 'x', 0), 8);
    assert_eq!(index_of_seq(&s, &chars(": "), 0), 2);
    assert_eq!(index_of_seq(&s, &chars(": "), 3), 5);
    assert_eq!(index_of_seq(&s, &chars(": d"), 0), 5);
    assert_eq!(index_of_seq(&s, &chars(":d"), 0), 8);
    assert_eq!(index_of_seq(&s, &chars("ab: c: d!"), 0), 8);
    assert_eq!(index_of_seq(&chars("a:"), &chars(": "), 0), 2);
    assert!(matches_at(&s, &chars("b:"), 1));
    assert!(!matches_at(&s, &chars("b:"), 2));
    assert!(!matches_at(&s, &chars("d!"), 7));
    assert_eq!(index_of_text(&chars(" \t\u{a0}x y"), 0), 3);
    assert_eq!(index_of_text(&chars("   "), 1), 3);
    assert_eq!(index_of_space(&chars("ab cd"), 0), 2);
    assert_eq!(index_of_space(&chars("ab cd"), 3), 5);
    assert_eq!(index_of_trim_end(&chars("ab  "), 0), 2);
    assert_eq!(index_of_trim_end(&chars("    "), 1), 1);
}

#[test]
fn splitting_at_a_character_keeps_empty_pieces() {
    for s in ["", "/", "a", "/a", "a/", "/a//b/", "///", "/echo/abc"] {
        let v = chars(s);
        let found: Vec<String> = split_at_char(&v, '/').iter().map(|r| text(&v, *r)).collect();
        let expected: Vec<String> = s.split('/').map(|p| p.to_string()).collect();
        assert_eq!(found, expected, "{:?}", s);
    }
}

#[test]
fn splitting_at_white_space_drops_empty_pieces() {
    for s in ["", " ", "a", " a ", "GET / HTTP/1.1", "\ta \u{2003} b\r\n c\u{a0}", "a\u{200b}b"] {
        let v = chars(s);
        let found: Vec<String> =
            split_at_whitespace(&v).iter().map(|r| text(&v, *r)).collect();
        let expected: Vec<String> = s.split_whitespace().map(|p| p.to_string()).collect();
        assert_eq!(found, expected, "{:?}", s);
    }
}

#[test]
fn trimming_drops_white_space_at_both_ends() {
    for s in ["", "   ", "a", "  a b \r\n", "\u{3000}x\u{2028}", "xy  ", "  xy"] {
        let v = chars(s);
        assert_eq!(text(&v, trim_bounds(&v, 0)), s.trim(), "{:?}", s);
    }
    let v = chars("Content-Length:  12 \r\n");
    assert_eq!(trim_bounds(&v, 15), (17, 19));
}

#[test]
fn numerals_are_written_without_padding() {
    assert_eq!(decimal_string(0), "0");
    assert_eq!(decimal_string(7), "7");
    assert_eq!(decimal_string(10), "10");
    assert_eq!(decimal_string(404), "404");
    assert_eq!(decimal_string(1234567890), "1234567890");
    assert_eq!(decimal_string(u64::MAX), "18446744073709551615");
}

#[test]
fn numerals_are_read_as_std_reads_them() {
    let max = usize::MAX.to_string();
    let over = format!("{}0", max);
    for s in [
        "", "0", "00", "7", "+7", "-7", "+", "-", "++7", "+-7", "12a", "a12", " 12", "12 ", "1_000",
        "0x10", "\u{663}", "4294967295", "4294967296", "18446744073709551615",
        "18446744073709551616", "99999999999999999999999", "000000000000000000000000000001",
        max.as_str(), over.as_str(),
    ] {
        let v = chars(s);
        assert_eq!(parse_usize(&v, 0, v.len()), s.parse::<usize>().ok(), "{:?}", s);
    }
    let v = chars("ab123cd");
    assert_eq!(parse_usize(&v, 2, 5), Some(123));
    assert_eq!(parse_usize(&v, 2, 2), None);
}

#[test]
fn headers_keep_the_last_value_and_the_first_place() {
    let mut headers = Headers::new();
    assert!(headers.is_empty());
    assert_eq!(headers.get("a"), None);
    headers.insert("a".to_string(), "1".to_string());
    headers.insert("b".to_string(), "2".to_string());
    headers.insert("a".to_string(), "3".to_string());
    headers.insert("A".to_string(), "4".to_string());
    assert_eq!(headers.len(), 3);
    assert!(!headers.is_empty());
    assert_eq!(headers.get("a"), Some("3"));
    assert_eq!(headers.get("b"), Some("2"));
    assert_eq!(headers.get("A"), Some("4"));
    assert_eq!(headers.get("c"), None);
    assert!(headers.contains_key("b"));
    assert!(!headers.contains_key("B"));
    assert_eq!(headers.index_of("a"), 0);
    assert_eq!(headers.index_of("b"), 1);
    assert_eq!(headers.index_of("A"), 2);
    assert_eq!(headers.index_of("zz"), 3);
    assert_eq!((headers.name_at(0), headers.value_at(0)), ("a", "3"));
    assert_eq!((headers.name_at(1), headers.value_at(1)), ("b", "2"));
    assert_eq!((headers.name_at(2), headers.value_at(2)), ("A", "4"));
}

#[test]
fn a_copy_of_headers_is_its_own() {
    let mut headers = Headers::new();
    headers.insert("a".to_string(), "1".to_string());
    let mut copy = headers.clone();
    copy.insert("a".to_string(), "2".to_string());
    copy.insert("b".to_string(), "3".to_string());
    assert_eq!(headers.len(), 1);
    assert_eq!(headers.get("a"), Some("1"));
    assert_eq!(copy.len(), 2);
    assert_eq!(copy.get("a"), Some("2"));
    let same = headers.duplicate();
    assert_eq!(same.len(), 1);
    assert_eq!(same.get("a"), Some("1"));
}

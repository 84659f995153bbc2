use chess_sync::decimal::{parse_number, push_decimal};
use chess_sync::text::{push_bytes, span_is, split_words, word_string, Span};

fn words_of(text: &str) -> Vec<String> {
    split_words(text.as_bytes())
        .iter()
        .map(|span| text[span.start..span.end].to_string())
        .collect()
}

fn number(text: &str, max: u32) -> Option<u32> {
    parse_number(text.as_bytes(), Span { start: 0, end: text.len() }, max)
}

fn written(n: u32) -> String {
    let mut out = Vec::new();
    push_decimal(&mut out, n);
    String::from_utf8(out).unwrap()
}

#[test]
fn split_words_finds_each_word() {
    assert_eq!(words_of("lobby mv 2 1 1 3 3"), ["lobby", "mv", "2", "1", "1", "3", "3"]);
    assert_eq!(
        split_words(b"ab  c"),
        vec![Span { start: 0, end: 2 }, Span { start: 4, end: 5 }]
    );
}

#[test]
fn split_words_skips_spaces_everywhere() {
    assert_eq!(words_of("  room   lobby  5 "), ["room", "lobby", "5"]);
    assert_eq!(words_of("lobby reset "), ["lobby", "reset"]);
}

#[test]
fn split_words_of_no_word() {
    assert!(split_words(b"").is_empty());
    assert!(split_words(b" ").is_empty());
    assert!(split_words(b"     ").is_empty());
}

#[test]
fn split_words_splits_at_spaces_only() {
    assert_eq!(words_of("a\tb\nc d"), ["a\tb\nc", "d"]);
    assert_eq!(words_of("k\u{f6}ping r\u{e4}ka"), ["k\u{f6}ping", "r\u{e4}ka"]);
}

#[test]
fn span_is_compares_the_covered_bytes() {
    let s = b"lobby mv 12";
    assert!(span_is(s, Span { start: 6, end: 8 }, b"mv"));
    assert!(!span_is(s, Span { start: 6, end: 8 }, b"mw"));
    assert!(!span_is(s, Span { start: 6, end: 8 }, b"m"));
    assert!(!span_is(s, Span { start: 6, end: 8 }, b"mv "));
    assert!(span_is(s, Span { start: 3, end: 3 }, b""));
}

#[test]
fn push_bytes_appends() {
    let mut out = vec![1u8, 2];
    push_bytes(&mut out, &[3, 4, 5]);
    push_bytes(&mut out, &[]);
    assert_eq!(out, [1, 2, 3, 4, 5]);
}

#[test]
fn word_string_copies_one_word() {
    let text = "r\u{e4}ka mv 2";
    assert_eq!(word_string(text, Span { start: 0, end: 5 }), "r\u{e4}ka");
    assert_eq!(word_string(text, Span { start: 6, end: 8 }), "mv");
    assert_eq!(word_string(text, Span { start: 9, end: 10 }), "2");
}

#[test]
fn parse_number_reads_numerals() {
    assert_eq!(number("0", 255), Some(0));
    assert_eq!(number("7", 7), Some(7));
    assert_eq!(number("200", 255), Some(200));
    assert_eq!(number("4294967295", u32::MAX), Some(u32::MAX));
}

#[test]
fn parse_number_takes_a_plus_sign_and_leading_zeros() {
    assert_eq!(number("+5", 255), Some(5));
    assert_eq!(number("007", 7), Some(7));
    assert_eq!(number("+000255", 255), Some(255));
    assert_eq!(number("00000000000000000000000000001", 7), Some(1));
}

#[test]
fn parse_number_holds_to_the_limit() {
    assert_eq!(number("255", 255), Some(255));
    assert_eq!(number("256", 255), None);
    assert_eq!(number("8", 7), None);
    assert_eq!(number("4294967296", u32::MAX), None);
    assert_eq!(number("99999999999999999999999999", u32::MAX), None);
    assert_eq!(number("0", 0), Some(0));
    assert_eq!(number("1", 0), None);
}

#[test]
fn parse_number_refuses_what_is_no_numeral() {
    for text in ["", "+", "-1", "-0", "1a", "a1", "1 ", " 1", "++1", "1+", "0x10", "1_0", "1.0"] {
        assert_eq!(number(text, u32::MAX), None, "{:?}", text);
    }
}

#[test]
fn parse_number_reads_only_its_span() {
    let s = b"ab 42 cd";
    assert_eq!(parse_number(s, Span { start: 3, end: 5 }, 255), Some(42));
    assert_eq!(parse_number(s, Span { start: 3, end: 4 }, 255), Some(4));
    assert_eq!(parse_number(s, Span { start: 2, end: 5 }, 255), None);
    assert_eq!(parse_number(s, Span { start: 4, end: 4 }, 255), None);
}

#[test]
fn push_decimal_writes_the_shortest_numeral() {
    assert_eq!(written(0), "0");
    assert_eq!(written(9), "9");
    assert_eq!(written(10), "10");
    assert_eq!(written(255), "255");
    assert_eq!(written(1000), "1000");
    assert_eq!(written(u32::MAX), "4294967295");
}

#[test]
fn push_decimal_appends_to_what_is_there() {
    let mut out = b"mv ".to_vec();
    push_decimal(&mut out, 42);
    assert_eq!(out, b"mv 42");
}

#[test]
fn numbers_survive_writing_and_reading() {
    for n in [0u32, 1, 9, 10, 99, 100, 255, 256, 65535, 65536, 1_000_000, u32::MAX - 1, u32::MAX] {
        assert_eq!(number(&written(n), u32::MAX), Some(n));
    }
}

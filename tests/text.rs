use smartinfo::text::{find_in, line_spans, parse_u64_at, span_eq, trim_span, word_spans};

fn parse(s: &str) -> Option<u64> {
    parse_u64_at(s.as_bytes(), 0, s.len())
}

#[test]
fn decimal_words() {
    assert_eq!(parse("0"), Some(0));
    assert_eq!(parse("007"), Some(7));
    assert_eq!(parse("+12"), Some(12));
    assert_eq!(parse("+"), None);
    assert_eq!(parse(""), None);
    assert_eq!(parse("-1"), None);
    assert_eq!(parse("1a"), None);
    assert_eq!(parse("18446744073709551615"), Some(u64::MAX));
    assert_eq!(parse("18446744073709551616"), None);
    assert_eq!(parse("99999999999999999999x"), None);
    assert_eq!(parse_u64_at(b"ab42cd", 2, 4), Some(42));
}

#[test]
fn words_of_a_line() {
    assert_eq!(word_spans(b"  ab c\t\r\ndef "), vec![(2, 4), (5, 6), (9, 12)]);
    assert_eq!(word_spans(b""), vec![]);
    assert_eq!(word_spans(b" \t "), vec![]);
    assert_eq!(word_spans(b"x"), vec![(0, 1)]);
    assert_eq!(word_spans(b"a\x0bb"), vec![(0, 3)]);
}

#[test]
fn lines_of_a_text() {
    assert_eq!(line_spans(b"ab\ncd\n"), vec![(0, 2), (3, 5)]);
    assert_eq!(line_spans(b"ab\ncd"), vec![(0, 2), (3, 5)]);
    assert_eq!(line_spans(b"ab\n\ncd"), vec![(0, 2), (3, 3), (4, 6)]);
    assert_eq!(line_spans(b""), vec![]);
    assert_eq!(line_spans(b"\n"), vec![(0, 0)]);
}

#[test]
fn trimming_finding_comparing() {
    assert_eq!(trim_span(b"  a b \t", 0, 7), (2, 5));
    assert_eq!(trim_span(b"   ", 0, 3), (3, 3));
    assert_eq!(trim_span(b"x  y  z", 1, 6), (3, 4));
    assert_eq!(find_in(b"a:b:c", 0, 5, b':', 0), 1);
    assert_eq!(find_in(b"a:b:c", 0, 5, b':', 2), 3);
    assert_eq!(find_in(b"a:b:c", 0, 5, b':', 4), 5);
    assert_eq!(find_in(b"xa:b", 1, 4, b':', 0), 1);
    assert!(span_eq(b"xMemFreey", 1, 8, b"MemFree"));
    assert!(!span_eq(b"xMemFreey", 1, 9, b"MemFree"));
    assert!(!span_eq(b"xMemFrez", 1, 8, b"MemFree"));
}

#[test]
fn trimming_unicode_white_space() {
    let s = "\u{b}\u{a0}\u{2003} Mem Total\u{3000}\u{85}\r";
    let (a, b) = trim_span(s.as_bytes(), 0, s.len());
    assert_eq!(&s[a..b], s.trim());
    assert_eq!(&s[a..b], "Mem Total");
    let s = "\u{2003}x\u{2002}y\u{200b}";
    let (a, b) = trim_span(s.as_bytes(), 0, s.len());
    assert_eq!(&s[a..b], s.trim());
    assert_eq!(&s[a..b], "x\u{2002}y\u{200b}");
    let s = "\u{1680}\u{2028}\u{2029}\u{202f}\u{205f}\u{200a}\u{2000}\t\n\u{c}";
    let (a, b) = trim_span(s.as_bytes(), 0, s.len());
    assert_eq!(a, b);
    assert_eq!(s.trim(), "");
}

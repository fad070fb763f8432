use lmc::text::{capital, chars_of, line_spans, parse_i16, parse_u16, space, word_spans};

fn chars(s: &str) -> Vec<char> {
    s.chars().collect()
}

#[test]
fn chars_of_gives_every_character() {
    assert_eq!(chars_of("a\u{e9}\u{1F600}z"), vec!['a', '\u{e9}', '\u{1F600}', 'z']);
    assert_eq!(chars_of(""), Vec::<char>::new());
}

#[test]
fn space_is_the_five_separators() {
    for c in [' ', '\t', '\n', '\x0c', '\r'] {
        assert!(space(c));
    }
    for c in ['\x0b', 'a', '0', '\u{a0}', '\u{2003}', '\0'] {
        assert!(!space(c));
    }
}

#[test]
fn capital_changes_lower_case_latin_only() {
    assert_eq!(capital('a'), 'A');
    assert_eq!(capital('m'), 'M');
    assert_eq!(capital('z'), 'Z');
    assert_eq!(capital('A'), 'A');
    assert_eq!(capital('Z'), 'Z');
    assert_eq!(capital('`'), '`');
    assert_eq!(capital('{'), '{');
    assert_eq!(capital('5'), '5');
    assert_eq!(capital('\u{e4}'), '\u{e4}');
}

#[test]
fn line_spans_split_at_line_feeds() {
    assert_eq!(line_spans(&chars("")), vec![]);
    assert_eq!(line_spans(&chars("ab")), vec![(0, 2)]);
    assert_eq!(line_spans(&chars("ab\n")), vec![(0, 2)]);
    assert_eq!(line_spans(&chars("ab\ncd")), vec![(0, 2), (3, 5)]);
    assert_eq!(line_spans(&chars("ab\n\ncd\n")), vec![(0, 2), (3, 3), (4, 6)]);
    assert_eq!(line_spans(&chars("\n")), vec![(0, 0)]);
    assert_eq!(line_spans(&chars("\n\n")), vec![(0, 0), (1, 1)]);
    assert_eq!(line_spans(&chars("a\r\nb")), vec![(0, 2), (3, 4)]);
}

#[test]
fn word_spans_find_the_runs_between_separators() {
    assert_eq!(word_spans(&chars("")), vec![]);
    assert_eq!(word_spans(&chars("   ")), vec![]);
    assert_eq!(word_spans(&chars("abc")), vec![(0, 3)]);
    assert_eq!(word_spans(&chars(" a  bc\td ")), vec![(1, 2), (4, 6), (7, 8)]);
    assert_eq!(word_spans(&chars("a\x0bb")), vec![(0, 3)]);
}

#[test]
fn parse_u16_reads_what_fits() {
    assert_eq!(parse_u16("0"), Some(0));
    assert_eq!(parse_u16("7"), Some(7));
    assert_eq!(parse_u16("65535"), Some(65535));
    assert_eq!(parse_u16("+65535"), Some(65535));
    assert_eq!(parse_u16("007"), Some(7));
    assert_eq!(parse_u16("0000000000000000000000099"), Some(99));
}

#[test]
fn parse_u16_rejects_the_rest() {
    for s in ["", "+", "-", "-0", "-1", "65536", "99999999999999999999", "1a", "a1", " 1", "1 ", "++1", "+-1", "1_000", "\u{663}", "1.0", "0x10"] {
        assert_eq!(parse_u16(s), None, "{:?}", s);
    }
}

#[test]
fn parse_i16_reads_what_fits() {
    assert_eq!(parse_i16("0"), Some(0));
    assert_eq!(parse_i16("-0"), Some(0));
    assert_eq!(parse_i16("+0"), Some(0));
    assert_eq!(parse_i16("12"), Some(12));
    assert_eq!(parse_i16("-12"), Some(-12));
    assert_eq!(parse_i16("32767"), Some(32767));
    assert_eq!(parse_i16("+32767"), Some(32767));
    assert_eq!(parse_i16("-32768"), Some(-32768));
    assert_eq!(parse_i16("-0032768"), Some(-32768));
}

#[test]
fn parse_i16_rejects_the_rest() {
    for s in ["", "+", "-", "32768", "-32769", "+32768", "40000", "-99999999999", "--1", "-+1", "1-", "3 ", "three", "5\n", "5\r"] {
        assert_eq!(parse_i16(s), None, "{:?}", s);
    }
}

#[test]
fn parsers_agree_with_the_standard_library() {
    let samples = ["0", "1", "+1", "-1", "99", "100", "32767", "32768", "-32768", "-32769", "65535", "65536", "", "+", "-", "x", "00", "+00", "-00", "1e3"];
    for s in samples {
        assert_eq!(parse_u16(s), s.parse::<u16>().ok(), "{:?}", s);
        assert_eq!(parse_i16(s), s.parse::<i16>().ok(), "{:?}", s);
    }
}

#[test]
fn lines_and_words_agree_with_the_standard_library() {
    let samples = [
        "",
        "HLT",
        "HLT\n",
        "a b c\nd e\n\nf",
        "  x\ty \r\n\r\nz\x0cw\n\n",
        "\n\n\n",
        "one\rtwo\nthree\x0bfour",
        "caf\u{e9} na\u{ef}ve\n\u{2003}wide space",
    ];
    for s in samples {
        let text = chars(s);
        let lines: Vec<String> = line_spans(&text).iter().map(|(a, b)| text[*a..*b].iter().collect()).collect();
        let words: Vec<Vec<String>> = lines
            .iter()
            .map(|l| {
                let l = chars(l);
                word_spans(&l).iter().map(|(a, b)| l[*a..*b].iter().collect()).collect()
            })
            .collect();
        let expected: Vec<Vec<String>> = s.lines().map(|l| l.split_ascii_whitespace().map(String::from).collect()).collect();
        assert_eq!(words, expected, "{:?}", s);
    }
}

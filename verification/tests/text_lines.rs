use mdslides::text::{
    byte_count, chars_of, is_space, longest_bytes, longest_chars, split_lines, strip_bounds, trim,
    CharClass,
};

fn std_lines(s: &str) -> Vec<String> {
    s.lines().map(|line| line.to_owned()).collect()
}

#[test]
fn lines_of_empty_text_are_none() {
    assert_eq!(split_lines(""), Vec::<String>::new());
}

#[test]
fn lines_end_at_line_feeds() {
    assert_eq!(split_lines("one\ntwo\nthree"), vec!["one", "two", "three"]);
}

#[test]
fn last_line_feed_opens_no_line() {
    assert_eq!(split_lines("one\ntwo\n"), vec!["one", "two"]);
    assert_eq!(split_lines("\n"), vec![""]);
    assert_eq!(split_lines("\n\n"), vec!["", ""]);
}

#[test]
fn carriage_return_before_line_feed_is_dropped() {
    assert_eq!(split_lines("one\r\ntwo\r\n"), vec!["one", "two"]);
    assert_eq!(split_lines("\r\n"), vec![""]);
    assert_eq!(split_lines("a\r\r\nb"), vec!["a\r", "b"]);
}

#[test]
fn carriage_return_without_line_feed_stays() {
    assert_eq!(split_lines("one\r"), vec!["one\r"]);
    assert_eq!(split_lines("one\rtwo\nthree\r"), vec!["one\rtwo", "three\r"]);
    assert_eq!(split_lines("\r"), vec!["\r"]);
}

#[test]
fn lines_agree_with_std() {
    let samples = [
        "", "a", "a\n", "a\r\n", "a\r", "\n", "\r\n", "\r", "a\n\nb", "a\rb\n", "a\n\r",
        "\n\r\n\r", "caf\u{e9}\n\u{65e5}\u{672c}\r\nx", "  lead\n\ttab\n", "\n\n\n",
        "x\r\n\r\ny\r",
    ];
    for sample in samples {
        assert_eq!(split_lines(sample), std_lines(sample), "for {:?}", sample);
    }
}

#[test]
fn trim_takes_white_space_from_both_ends() {
    assert_eq!(trim("  a b \n"), "a b");
    assert_eq!(trim("\t\r\n x"), "x");
    assert_eq!(trim("x"), "x");
}

#[test]
fn trim_of_white_space_is_empty() {
    assert_eq!(trim(""), "");
    assert_eq!(trim(" \n\t "), "");
}

#[test]
fn trim_agrees_with_std() {
    let samples = [
        "", " ", "a", " a", "a ", "\u{a0}x\u{3000}", "\u{2003}wide space\u{2028}", "\u{200b}zero",
        "\u{85}next line\u{85}", "-x-", " - ", "\u{feff}bom ",
    ];
    for sample in samples {
        assert_eq!(trim(sample), sample.trim(), "for {:?}", sample);
    }
}

#[test]
fn class_of_white_space_is_that_of_std() {
    for c in ['\u{0}', ' ', '\t', '\n', '\u{b}', '\u{c}', '\r', '-', 'a', '\u{85}', '\u{a0}', '\u{1680}', '\u{180e}', '\u{2000}', '\u{200a}', '\u{200b}', '\u{2028}', '\u{2029}', '\u{202f}', '\u{205f}', '\u{3000}', '\u{feff}'] {
        assert_eq!(CharClass::Whitespace.contains(c), c.is_whitespace(), "for {:?}", c);
        assert_eq!(CharClass::Hyphen.contains(c), c == '-', "for {:?}", c);
    }
}

#[test]
fn strip_bounds_of_hyphens() {
    let chars = chars_of("xx--a-b---yy");
    assert_eq!(strip_bounds(&chars, 2, 10, CharClass::Hyphen), (4, 7));
    assert_eq!(strip_bounds(&chars, 2, 4, CharClass::Hyphen), (4, 4));
    assert_eq!(strip_bounds(&chars, 0, 12, CharClass::Hyphen), (0, 12));
    assert_eq!(strip_bounds(&chars, 5, 5, CharClass::Hyphen), (5, 5));
}

#[test]
fn chars_of_keeps_order() {
    assert_eq!(chars_of("a\u{e9}\u{65e5}"), vec!['a', '\u{e9}', '\u{65e5}']);
    assert_eq!(chars_of(""), Vec::<char>::new());
}

#[test]
fn bytes_are_counted_in_utf8() {
    assert_eq!(byte_count(""), 0);
    assert_eq!(byte_count("abc"), 3);
    assert_eq!(byte_count("caf\u{e9}"), 5);
    assert_eq!(byte_count("\u{65e5}\u{672c}"), 6);
    assert_eq!(byte_count("\u{1f600}"), 4);
}

#[test]
fn longest_counts_bytes_or_chars() {
    let texts = vec!["ab".to_owned(), "\u{65e5}\u{672c}\u{8a9e}".to_owned(), "abcd".to_owned()];
    assert_eq!(longest_bytes(&texts), 9);
    assert_eq!(longest_chars(&texts), 4);
    assert_eq!(longest_bytes(&Vec::new()), 0);
    assert_eq!(longest_chars(&Vec::new()), 0);
}

#[test]
fn white_space_is_that_of_std_for_every_character() {
    for code in 0..=0x10ffff_u32 {
        if let Some(c) = char::from_u32(code) {
            assert_eq!(is_space(c), c.is_whitespace(), "for U+{:04X}", code);
        }
    }
}

#[test]
fn white_space_by_its_code_points() {
    for c in ['\t', '\n', '\u{b}', '\u{c}', '\r', ' ', '\u{85}', '\u{a0}', '\u{1680}', '\u{2000}', '\u{2005}', '\u{200a}', '\u{2028}', '\u{2029}', '\u{202f}', '\u{205f}', '\u{3000}'] {
        assert!(is_space(c), "for {:?}", c);
    }
    for c in ['\u{8}', '\u{e}', '\u{1f}', '!', '-', '\u{84}', '\u{86}', '\u{180e}', '\u{1fff}', '\u{200b}', '\u{2060}', '\u{3001}', '\u{feff}'] {
        assert!(!is_space(c), "for {:?}", c);
    }
}

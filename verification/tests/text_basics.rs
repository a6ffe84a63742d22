use turso_mysql::numeric::{parse_signed, parse_unsigned, push_decimal, push_padded, push_signed};
use turso_mysql::text;

fn chars(s: &str) -> Vec<char> {
    s.chars().collect()
}

fn string(c: &[char]) -> String {
    c.iter().collect()
}

#[test]
fn white_space_is_that_of_the_standard_library() {
    for code in 0..=0x10ffffu32 {
        if let Some(c) = char::from_u32(code) {
            assert_eq!(text::is_space(c), c.is_whitespace(), "{code:x}");
        }
    }
}

#[test]
fn case_is_that_of_ascii() {
    for code in 0..0x300u32 {
        if let Some(c) = char::from_u32(code) {
            assert_eq!(text::to_lower_char(c), c.to_ascii_lowercase());
            assert_eq!(text::to_upper_char(c), c.to_ascii_uppercase());
        }
    }
    assert!(text::eq_fold(&chars("Straße"), &chars("sTRAßE")));
    assert!(!text::eq_fold(&chars("É"), &chars("é")));
}

#[test]
fn trimming_takes_white_space_from_the_ends() {
    assert_eq!(string(text::trim(&chars(" \t a b \u{2003}\n"))), "a b");
    assert_eq!(string(text::trim(&chars("   "))), "");
    assert_eq!(string(text::trim_end_of(&chars("a;b;;"), ';')), "a;b");
    assert_eq!(string(text::trim_start_of(&chars("@@@x@"), '@')), "x@");
}

#[test]
fn lines_are_those_of_the_standard_library() {
    for s in ["", "\n", "a", "a\n", "a\r\nb", "a\n\nb\n", "\r", "a\rb\r\n", "x\n\r\n"] {
        let expected: Vec<String> = s.lines().map(|l| l.to_string()).collect();
        assert_eq!(text::split_lines(s), expected, "{s:?}");
    }
}

#[test]
fn words_are_those_of_the_standard_library() {
    for s in ["", "  ", "a", " a  b\tc\n", "\u{a0}x\u{3000}y "] {
        let expected: Vec<String> = s.split_whitespace().map(|w| w.to_string()).collect();
        assert_eq!(text::split_words(&chars(s)), expected, "{s:?}");
    }
}

#[test]
fn pieces_are_those_of_the_standard_library() {
    for s in ["", ",", "a", "a,b", ",a,,b,"] {
        let expected: Vec<String> = s.split(',').map(|w| w.to_string()).collect();
        assert_eq!(text::split_at_char(&chars(s), ','), expected, "{s:?}");
    }
}

#[test]
fn doubled_quotes_are_undone() {
    for s in ["", "'", "a'b", "''", "it's '' fine'"] {
        let doubled = text::double(&chars(s), '\'');
        assert_eq!(string(&doubled), s.replace('\'', "''"));
        assert_eq!(string(&text::undouble(&doubled, '\'')), s);
    }
    assert_eq!(string(&text::undouble(&chars("'''"), '\'')), "'''".replace("''", "'"));
}

#[test]
fn occurrences_are_found() {
    assert!(text::contains(&chars("such table"), &chars("table")));
    assert!(!text::contains(&chars("tabl"), &chars("table")));
    assert!(text::contains(&chars("x"), &chars("")));
    assert_eq!(text::find_last(&chars("a as b as c"), &chars(" as ")), Some(6));
    assert_eq!(text::find_last(&chars("abc"), &chars(" as ")), None);
}

#[test]
fn decimal_text_reads_back() {
    for n in [0u64, 7, 10, 99, 1234567890, u64::MAX] {
        let mut out = Vec::new();
        push_decimal(&mut out, n);
        assert_eq!(string(&out), n.to_string());
        assert_eq!(parse_unsigned(&out, u64::MAX), Some(n));
    }
    for i in [0i64, -1, 1, i64::MIN, i64::MAX, -10] {
        let mut out = Vec::new();
        push_signed(&mut out, i);
        assert_eq!(string(&out), i.to_string());
        assert_eq!(parse_signed(&out), Some(i));
    }
}

#[test]
fn padded_text_has_the_width() {
    for (n, width) in [(7u64, 2usize), (123, 2), (0, 6), (45, 0)] {
        let mut out = Vec::new();
        push_padded(&mut out, n, width);
        assert_eq!(string(&out), format!("{n:0width$}"));
    }
}

#[test]
fn numbers_are_read_as_the_standard_library_reads_them() {
    for s in [
        "", "+", "-", "0", "-0", "+5", "-5", "--5", "5-", " 5", "5 ", "0005", "65535", "65536",
        "18446744073709551615", "18446744073709551616", "9223372036854775807",
        "9223372036854775808", "-9223372036854775808", "-9223372036854775809", "1e3", "٣",
    ] {
        assert_eq!(parse_signed(&chars(s)), s.parse::<i64>().ok(), "{s:?}");
        assert_eq!(parse_unsigned(&chars(s), u64::MAX), s.parse::<u64>().ok(), "{s:?}");
        assert_eq!(
            parse_unsigned(&chars(s), 0xffff),
            s.parse::<u16>().ok().map(|n| n as u64),
            "{s:?}"
        );
    }
}

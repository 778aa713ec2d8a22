use aster_early_init::text::{hex_digit, is_stripped, parse_hex, same_text, split, trim_by, Strip};

#[test]
fn white_space_is_what_std_trims() {
    for code in 0..0x11_0000u32 {
        if let Some(c) = char::from_u32(code) {
            assert_eq!(is_stripped(Strip::Whitespace, c), c.is_whitespace(), "{:#x}", code);
        }
    }
}

#[test]
fn quotes_are_single_and_double() {
    assert!(is_stripped(Strip::Quotes, '"'));
    assert!(is_stripped(Strip::Quotes, '\''));
    assert!(!is_stripped(Strip::Quotes, '`'));
    assert!(!is_stripped(Strip::Quotes, ' '));
    assert!(!is_stripped(Strip::Whitespace, '"'));
}

#[test]
fn trim_strips_both_ends() {
    for s in ["", " ", "  \t\n", "a", " a", "a ", "  a b  ", "\u{3000}x\u{85}", " é ü ", "\t0x10\r\n"] {
        assert_eq!(trim_by(s, Strip::Whitespace), s.trim(), "{:?}", s);
    }
    for s in ["", "\"", "\"\"", "'a'", "\"/lib/ld.so\"", "a\"b", "\"'a\"b'\"", " 'a' ", "\"é\""] {
        assert_eq!(
            trim_by(s, Strip::Quotes),
            s.trim_matches(|c| c == '"' || c == '\''),
            "{:?}",
            s
        );
    }
}

#[test]
fn split_keeps_empty_fields() {
    for s in ["", "|", "a", "a|b", "a||b", "|a|", "mmap|0x0| 0x1000| | ok", "é|ü|"] {
        let expected: Vec<&str> = s.split('|').collect();
        assert_eq!(split(s, '|'), expected, "{:?}", s);
    }
    assert_eq!(split("a\nb\n", '\n'), vec!["a", "b", ""]);
    assert_eq!(split("", '\n'), vec![""]);
}

#[test]
fn same_text_compares_characters() {
    assert!(same_text("", ""));
    assert!(same_text("openat", "openat"));
    assert!(!same_text("openat", "openat "));
    assert!(!same_text("openat", "openAt"));
    assert!(!same_text("", "a"));
    assert!(same_text("é", "é"));
}

#[test]
fn hex_digits_have_their_value() {
    for code in 0..0x11_0000u32 {
        if let Some(c) = char::from_u32(code) {
            assert_eq!(hex_digit(c), c.to_digit(16).map(|d| d as u8), "{:#x}", code);
        }
    }
}

#[test]
fn parse_hex_reads_base_16() {
    assert_eq!(parse_hex("0"), Some(0));
    assert_eq!(parse_hex("1000"), Some(0x1000));
    assert_eq!(parse_hex("3ff7ea5000"), Some(0x3f_f7ea_5000));
    assert_eq!(parse_hex("DeadBeef"), Some(0xdead_beef));
    assert_eq!(parse_hex("+ff"), Some(255));
    assert_eq!(parse_hex("0000000000000000000000000001"), Some(1));
    assert_eq!(parse_hex("ffffffffffffffff"), Some(usize::MAX));
}

#[test]
fn parse_hex_refuses_what_is_no_number() {
    for s in ["", "+", "-1", "++1", "0x10", " 10", "10 ", "1g", "10000000000000000", "é"] {
        assert_eq!(parse_hex(s), None, "{:?}", s);
        assert_eq!(parse_hex(s), usize::from_str_radix(s, 16).ok(), "{:?}", s);
    }
}

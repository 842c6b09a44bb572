use quil_shard::text::{
    is_white_space, parse_unsigned, push_decimal, push_padded, same_text, split_text, text_contains,
    trim_text,
};

#[test]
fn numbers_are_written_in_decimal() {
    for n in [0, 9, 10, 1005, u64::MAX] {
        let mut text = "n=".to_string();
        push_decimal(&mut text, n);
        assert_eq!(text, format!("n={n}"));
    }
}

#[test]
fn padding_fills_up_and_never_cuts() {
    for (word, width) in [("é", 4), ("word", 4), ("longer", 4), ("", 0)] {
        let mut text = String::new();
        push_padded(&mut text, word, width);
        assert_eq!(text, format!("{word:<width$}"));
    }
}

#[test]
fn splitting_keeps_empty_pieces() {
    for text in ["", "/", "/a//b", "a/é/b/"] {
        assert_eq!(split_text(text, '/'), text.split('/').collect::<Vec<_>>());
    }
}

#[test]
fn trimming_takes_unicode_white_space() {
    for text in ["", "  ", " a b\t", "\u{3000}x\u{85}", "\u{200b}x"] {
        assert_eq!(trim_text(text), text.trim());
    }
    for c in (0..0x11_0000u32).filter_map(char::from_u32) {
        assert_eq!(is_white_space(c), c.is_whitespace());
    }
}

#[test]
fn unsigned_numbers_are_read_as_std_reads_them() {
    for text in [
        "", "+", "-", "0", "+0", "-0", "00012", "255", "256", "65535", "65536", "1 ", "1_0", "١",
        "18446744073709551615", "18446744073709551616", "99999999999999999999999",
    ] {
        assert_eq!(parse_unsigned(text, u64::MAX), text.parse::<u64>().ok());
        assert_eq!(
            parse_unsigned(text, u16::MAX as u64),
            text.parse::<u16>().ok().map(|n| n as u64)
        );
    }
}

#[test]
fn texts_are_searched_and_compared() {
    for (hay, needle) in [("abcabd", "abd"), ("abc", ""), ("", "a"), ("aab", "ab"), ("é", "é")] {
        assert_eq!(text_contains(hay, needle), hay.contains(needle));
    }
    assert!(same_text("é", "é"));
    assert!(!same_text("a", "ab"));
    assert!(!same_text("a", "b"));
}

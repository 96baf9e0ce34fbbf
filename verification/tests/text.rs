use nodeget_agent::text::{
    chars_of, equal_ignoring_case, is_white_space, same_text, split_lines, to_decimal, trimmed,
};

#[test]
fn white_space_is_that_of_unicode() {
    for code in 0..=0x10ffffu32 {
        if let Some(c) = char::from_u32(code) {
            assert_eq!(is_white_space(c), c.is_whitespace(), "{code:x}");
        }
    }
}

#[test]
fn trimming_agrees_with_std() {
    for s in ["", " ", "a", " a", "a ", "\u{2003}a b\u{3000}\t", "\u{200b} x"] {
        assert_eq!(trimmed(s), s.trim());
        assert_eq!(trimmed(trimmed(s)), trimmed(s));
    }
}

#[test]
fn lines_agree_with_std() {
    for s in [
        "", "\n", "\r\n", "\r", "a", "a\n", "a\nb", "a\r\nb\r", "a\r\r\n", "\n\n", "\na\n\nb\n",
        "\u{e9}\n\u{20ac}",
    ] {
        let expected: Vec<String> = s.lines().map(str::to_owned).collect();
        assert_eq!(split_lines(s), expected);
    }
}

#[test]
fn only_ascii_case_is_ignored() {
    let upper = "ABCDEFGHIJKLMNOPQRSTUVWXYZ[@";
    let lower = "abcdefghijklmnopqrstuvwxyz[@";
    assert!(equal_ignoring_case(upper, lower));
    assert!(!equal_ignoring_case("\u{c9}", "\u{e9}"));
    assert!(!equal_ignoring_case("[", "{"));
    assert!(!equal_ignoring_case("ab", "abc"));
    assert!(same_text("ab", "ab"));
    assert!(!same_text("ab", "aB"));
}

#[test]
fn decimals_agree_with_std() {
    for n in [0, 7, 10, 99, 100, 65535, 1234567890, u64::MAX] {
        assert_eq!(to_decimal(n), n.to_string());
    }
}

#[test]
fn characters_come_one_by_one() {
    assert_eq!(chars_of("a\u{20ac}\n"), vec!['a', '\u{20ac}', '\n']);
}

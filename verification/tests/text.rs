use shamash::parser::normalize_chars;
use shamash::text::{chars_of, decimal_string, parse_u64_chars, string_of, trim_chars};

fn parse(s: &str) -> Option<u64> {
    parse_u64_chars(&chars_of(s))
}

#[test]
fn numbers_parse_as_u64_from_str_does() {
    for s in ["0", "42", "+42", "007", "18446744073709551615", "", "+", "-1", " 1", "1a", "18446744073709551616"] {
        assert_eq!(parse(s), s.parse::<u64>().ok(), "{s:?}");
    }
}

#[test]
fn decimal_form_reads_back() {
    for n in [0u64, 7, 10, 99, 1000, 123456789, u64::MAX] {
        assert_eq!(decimal_string(n), n.to_string());
        assert_eq!(parse(&decimal_string(n)), Some(n));
    }
}

#[test]
fn chars_round_trip_through_strings() {
    let s = "h\u{e9}llo \u{2019}";
    assert_eq!(string_of(&chars_of(s)), s);
}

/// The code points Unicode's `PropList.txt` gives the `White_Space` property.
fn listed_white_space(c: char) -> bool {
    matches!(
        c,
        '\u{9}'..='\u{d}'
            | ' '
            | '\u{85}'
            | '\u{a0}'
            | '\u{1680}'
            | '\u{2000}'..='\u{200a}'
            | '\u{2028}'
            | '\u{2029}'
            | '\u{202f}'
            | '\u{205f}'
            | '\u{3000}'
    )
}

#[test]
fn whitespace_is_exactly_the_listed_code_points() {
    for c in (0u32..=0x10ffff).filter_map(char::from_u32) {
        assert_eq!(c.is_whitespace(), listed_white_space(c), "{c:?}");
        assert_eq!(trim_chars(&[c]).is_empty(), listed_white_space(c), "{c:?}");
    }
}

#[test]
fn among_ascii_only_letters_and_digits_are_alphanumeric() {
    for c in (0u8..=0x7f).map(char::from) {
        assert_eq!(c.is_alphanumeric(), c.is_ascii_alphanumeric(), "{c:?}");
        assert_eq!(!normalize_chars(&[c]).is_empty(), c.is_ascii_alphanumeric(), "{c:?}");
    }
}

/// The transcript's whitespace-separated words, each lowercased and stripped of what is
/// not a letter or digit, the empty ones dropped, joined with single spaces.
fn word_by_word(t: &str) -> String {
    t.split_whitespace()
        .map(|w| w.to_ascii_lowercase().chars().filter(|c| c.is_alphanumeric()).collect::<String>())
        .filter(|w| !w.is_empty())
        .collect::<Vec<_>>()
        .join(" ")
}

#[test]
fn normal_form_is_taken_word_by_word() {
    for t in [
        "  Hey,   BOT!! play\tDracula -- by Tame\nImpala.  ",
        "\u{a0}\u{c9}COLE  --  Z\u{fc}rich\u{2003}",
        "a , b",
        "",
        "!!!",
        "Don't stop me now",
    ] {
        let n: String = normalize_chars(&chars_of(t)).iter().collect();
        assert_eq!(n, word_by_word(t), "{t:?}");
    }
}

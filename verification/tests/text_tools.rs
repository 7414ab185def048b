use menstruation::error::NumberError;
use menstruation::text::{
    chars_of, find_from, has, has_folded, holds, is_whitespace, join_trimmed, only_digits,
    parse_unsigned, pieces, same, same_chars, split_bounds, stands_at, trim, trim_bounds, unique,
    value_of_digits,
};

fn chars(text: &str) -> Vec<char> {
    text.chars().collect()
}

fn texts(items: &[&str]) -> Vec<String> {
    items.iter().map(|item| item.to_string()).collect()
}

#[test]
fn chars_are_those_of_the_text() {
    assert_eq!(chars_of("aß€"), vec!['a', 'ß', '€']);
    assert_eq!(chars_of(""), Vec::<char>::new());
}

#[test]
fn white_space_is_the_unicode_property() {
    for c in [' ', '\t', '\n', '\u{b}', '\u{c}', '\r', '\u{85}', '\u{a0}', '\u{1680}', '\u{2000}',
        '\u{200a}', '\u{2028}', '\u{2029}', '\u{202f}', '\u{205f}', '\u{3000}'] {
        assert!(is_whitespace(c));
        assert!(c.is_whitespace());
    }
    for c in ['a', '0', '\u{8}', '\u{e}', '\u{200b}', '\u{180e}', '\u{feff}', '_'] {
        assert!(!is_whitespace(c));
        assert!(!c.is_whitespace());
    }
}

#[test]
fn white_space_agrees_with_std_on_every_char() {
    let mut code: u32 = 0;
    while code <= 0x10ffff {
        if let Some(c) = char::from_u32(code) {
            assert_eq!(is_whitespace(c), c.is_whitespace());
        }
        code += 1;
    }
}

#[test]
fn trim_takes_white_space_off_both_ends() {
    assert_eq!(trim("  a b \n"), "a b");
    assert_eq!(trim("\u{a0}x\u{3000}"), "x");
    assert_eq!(trim(" \t\r\n"), "");
    assert_eq!(trim(""), "");
    assert_eq!(trim("plain"), "plain");
    assert_eq!(trim(" ä "), "ä");
}

#[test]
fn trim_bounds_mark_the_inner_text() {
    assert_eq!(trim_bounds(&chars("  ab ")), (2, 4));
    assert_eq!(trim_bounds(&chars("   ")), (3, 3));
    assert_eq!(trim_bounds(&chars("")), (0, 0));
}

#[test]
fn pieces_lie_between_separators() {
    assert_eq!(pieces("a/b/c", "/"), texts(&["a", "b", "c"]));
    assert_eq!(pieces("9, 21a, 30", ", "), texts(&["9", "21a", "30"]));
    assert_eq!(pieces("", ", "), texts(&[""]));
    assert_eq!(pieces("a//b", "/"), texts(&["a", "", "b"]));
    assert_eq!(pieces("a/", "/"), texts(&["a", ""]));
    assert_eq!(pieces("/a", "/"), texts(&["", "a"]));
    assert_eq!(pieces("aaa", "aa"), texts(&["", "a"]));
    assert_eq!(pieces("a,b", ", "), texts(&["a,b"]));
    assert_eq!(pieces("ä/ö", "/"), texts(&["ä", "ö"]));
}

#[test]
fn pieces_agree_with_std_split() {
    for (text, separator) in [("a/b/c", "/"), ("x, y,z, ", ", "), ("aaaa", "aa"), ("", "/"),
        ("abcabc", "bc"), ("//", "/")] {
        let expected: Vec<String> = text.split(separator).map(String::from).collect();
        assert_eq!(pieces(text, separator), expected);
    }
}

#[test]
fn an_empty_separator_splits_nothing() {
    assert_eq!(pieces("abc", ""), texts(&["abc"]));
    assert_eq!(split_bounds(&chars("abc"), &chars("")), vec![(0, 3)]);
}

#[test]
fn split_bounds_mark_the_pieces() {
    assert_eq!(split_bounds(&chars("ab/c"), &chars("/")), vec![(0, 2), (3, 4)]);
    assert_eq!(split_bounds(&chars("/"), &chars("/")), vec![(0, 0), (1, 1)]);
}

#[test]
fn has_finds_a_text_within_another() {
    assert!(has("/icons/ampel_rot.png", "ampel"));
    assert!(has("ampel", "ampel"));
    assert!(!has("ampe", "ampel"));
    assert!(!has("/icons/1.png", "ampel"));
    assert!(has("abc", ""));
    assert!(has("", ""));
    assert!(!has("", "a"));
}

#[test]
fn find_from_gives_the_first_place() {
    let text = chars("abcabc");
    assert_eq!(find_from(&text, &chars("bc"), 0), Some(1));
    assert_eq!(find_from(&text, &chars("bc"), 1), Some(1));
    assert_eq!(find_from(&text, &chars("bc"), 2), Some(4));
    assert_eq!(find_from(&text, &chars("bc"), 5), None);
    assert_eq!(find_from(&text, &chars("bc"), 60), None);
    assert_eq!(find_from(&text, &chars(""), 6), Some(6));
    assert_eq!(find_from(&text, &chars(""), 7), None);
    assert_eq!(find_from(&text, &chars("abcabcd"), 0), None);
    assert!(stands_at(&text, &chars("cab"), 2));
    assert!(!stands_at(&text, &chars("cab"), 3));
    assert!(!stands_at(&text, &chars("c"), 6));
}

#[test]
fn folded_search_ignores_case() {
    assert!(has_folded("Mensa TU Hardenbergstraße", "hardenberg"));
    assert!(has_folded("mensa", "MENSA"));
    assert!(has_folded("ÄÖÜ", "äö"));
    assert!(!has_folded("Mensa", "Cafeteria"));
}

#[test]
fn same_compares_texts() {
    assert!(same("green", "green"));
    assert!(!same("green", "greet"));
    assert!(!same("green", "gree"));
    assert!(same("", ""));
    assert!(same_chars(&chars("ab"), &chars("ab")));
    assert!(!same_chars(&chars("ab"), &chars("ba")));
}

#[test]
fn holds_looks_a_text_up() {
    let list = texts(&["9", "21a"]);
    assert!(holds(&list, "21a"));
    assert!(!holds(&list, "21"));
    assert!(!holds(&Vec::new(), ""));
}

#[test]
fn unique_keeps_first_occurrences() {
    assert_eq!(unique(texts(&["b", "a", "b", "c", "a"])), texts(&["b", "a", "c"]));
    assert_eq!(unique(Vec::new()), Vec::<String>::new());
}

#[test]
fn join_trimmed_skips_and_trims() {
    let parts = texts(&["Name", " x ", " Straße 1 ", "\n10623 Berlin\n"]);
    assert_eq!(join_trimmed(&parts, 2, ", "), "Straße 1, 10623 Berlin");
    assert_eq!(join_trimmed(&parts, 0, "-"), "Name-x-Straße 1-10623 Berlin");
    assert_eq!(join_trimmed(&parts, 3, ", "), "10623 Berlin");
    assert_eq!(join_trimmed(&parts, 4, ", "), "");
    assert_eq!(join_trimmed(&parts, 9, ", "), "");
    assert_eq!(join_trimmed(&texts(&["a", " ", "b"]), 0, ", "), "a, , b");
}

#[test]
fn unsigned_numbers_are_read() {
    assert_eq!(parse_unsigned("0", 255), Ok(0));
    assert_eq!(parse_unsigned("255", 255), Ok(255));
    assert_eq!(parse_unsigned("007", 255), Ok(7));
    assert_eq!(parse_unsigned("+7", 255), Ok(7));
    assert_eq!(parse_unsigned("65535", 65535), Ok(65535));
    assert_eq!(parse_unsigned("18446744073709551615", u64::MAX), Ok(u64::MAX));
}

#[test]
fn unsigned_numbers_fail_by_kind() {
    assert_eq!(parse_unsigned("", 255), Err(NumberError::Empty));
    assert_eq!(parse_unsigned("+", 255), Err(NumberError::InvalidDigit));
    assert_eq!(parse_unsigned("-1", 255), Err(NumberError::InvalidDigit));
    assert_eq!(parse_unsigned("1a", 255), Err(NumberError::InvalidDigit));
    assert_eq!(parse_unsigned(" 1", 255), Err(NumberError::InvalidDigit));
    assert_eq!(parse_unsigned("++1", 255), Err(NumberError::InvalidDigit));
    assert_eq!(parse_unsigned("\u{663}", 255), Err(NumberError::InvalidDigit));
    assert_eq!(parse_unsigned("256", 255), Err(NumberError::Overflow));
    assert_eq!(parse_unsigned("65536", 65535), Err(NumberError::Overflow));
    assert_eq!(parse_unsigned("18446744073709551616", u64::MAX), Err(NumberError::Overflow));
    assert_eq!(parse_unsigned("99999999999999999999999", u64::MAX), Err(NumberError::Overflow));
    assert_eq!(parse_unsigned("999999999999999999999x", u64::MAX), Err(NumberError::InvalidDigit));
}

#[test]
fn unsigned_numbers_agree_with_std() {
    for text in ["0", "12", "+12", "65535", "65536", "", "+", "-0", "1_0", "00000000000000000001"] {
        assert_eq!(parse_unsigned(text, 65535).ok(), text.parse::<u16>().ok().map(u64::from));
    }
}

#[test]
fn digits_are_told_and_valued() {
    assert!(only_digits(&chars("0123456789")));
    assert!(only_digits(&chars("")));
    assert!(!only_digits(&chars("12a")));
    assert!(!only_digits(&chars("/")));
    assert!(!only_digits(&chars(":")));
    assert_eq!(value_of_digits(&chars("1999"), 2000), Some(1999));
    assert_eq!(value_of_digits(&chars("2001"), 2000), None);
    assert_eq!(value_of_digits(&chars(""), 0), Some(0));
    assert_eq!(value_of_digits(&chars("12a"), 2000), None);
    assert_eq!(value_of_digits(&chars("+1"), 2000), None);
}

#[test]
fn trim_and_has_agree_with_std() {
    let samples = [
        "", " ", "a", " a", "a ", "  a  b  ", "\t\n x \r\n", "\u{2003}em\u{2003}", "\u{200b}zero\u{200b}",
        "ampel", "xxampelxx", "ampe", "amampel", "aampelampel", "ÄMPEL ampel",
    ];
    for text in samples {
        assert_eq!(trim(text), text.trim());
        for needle in ["ampel", "a", "", "el", "xx", "  "] {
            assert_eq!(has(text, needle), text.contains(needle));
        }
    }
}

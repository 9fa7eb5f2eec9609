use linewise::scan::{
    contains, ends_with, is_whitespace, parse_number, split_lines, split_words, starts_with, trim,
};
use linewise::text::{
    chars_are, decimal_digits, decimal_string, pad_left_string, push_binary8, push_decimal,
    push_hex2, str_chars, string_from_chars,
};

fn chars(s: &str) -> Vec<char> {
    s.chars().collect()
}

fn strings(v: Vec<Vec<char>>) -> Vec<String> {
    v.into_iter().map(|w| w.into_iter().collect()).collect()
}

#[test]
fn decimal_strings() {
    assert_eq!(decimal_string(0), "0");
    assert_eq!(decimal_string(7), "7");
    assert_eq!(decimal_string(10), "10");
    assert_eq!(decimal_string(300), "300");
    assert_eq!(decimal_string(u64::MAX), "18446744073709551615");
    let mut s = String::from("n=");
    push_decimal(&mut s, 1234567890);
    assert_eq!(s, "n=1234567890");
}

#[test]
fn decimal_digit_counts() {
    assert_eq!(decimal_digits(0), 1);
    assert_eq!(decimal_digits(9), 1);
    assert_eq!(decimal_digits(10), 2);
    assert_eq!(decimal_digits(99), 2);
    assert_eq!(decimal_digits(100), 3);
    assert_eq!(decimal_digits(u64::MAX), 20);
}

#[test]
fn hex_and_binary_digits() {
    let mut s = String::new();
    push_hex2(&mut s, 0x00);
    push_hex2(&mut s, 0x9a);
    push_hex2(&mut s, 0xff);
    assert_eq!(s, "009aff");
    let mut b = String::new();
    push_binary8(&mut b, 0b1010_0101);
    assert_eq!(b, "10100101");
}

#[test]
fn padding() {
    assert_eq!(pad_left_string("7", 3), "  7");
    assert_eq!(pad_left_string("255", 3), "255");
    assert_eq!(pad_left_string("\\x0a", 1), "\\x0a");
    assert_eq!(pad_left_string("", 2), "  ");
    assert_eq!(pad_left_string("é", 2), " é");
}

#[test]
fn characters_round_trip() {
    let v = str_chars("héllo");
    assert_eq!(v, vec!['h', 'é', 'l', 'l', 'o']);
    assert_eq!(string_from_chars(&v), "héllo");
    assert!(chars_are(&v, "héllo"));
    assert!(!chars_are(&v, "hello"));
    assert!(!chars_are(&v, "héll"));
}

#[test]
fn white_space() {
    for c in [' ', '\t', '\n', '\r', '\u{0b}', '\u{0c}', '\u{85}', '\u{a0}', '\u{3000}', '\u{2028}'] {
        assert!(is_whitespace(c));
        assert!(c.is_whitespace());
    }
    for c in ['a', '0', '#', '\u{200b}', '\u{1f}'] {
        assert!(!is_whitespace(c));
    }
}

#[test]
fn words() {
    assert_eq!(strings(split_words(&chars("  a bc\t d  "))), vec!["a", "bc", "d"]);
    assert_eq!(strings(split_words(&chars(""))), Vec::<String>::new());
    assert_eq!(strings(split_words(&chars("   "))), Vec::<String>::new());
    assert_eq!(strings(split_words(&chars("x"))), vec!["x"]);
}

#[test]
fn lines() {
    assert_eq!(strings(split_lines(&chars("a\nb\n"))), vec!["a", "b"]);
    assert_eq!(strings(split_lines(&chars("a\n\nb"))), vec!["a", "", "b"]);
    assert_eq!(strings(split_lines(&chars(""))), Vec::<String>::new());
    assert_eq!(strings(split_lines(&chars("\n"))), vec![""]);
    assert_eq!(strings(split_lines(&chars("one"))), vec!["one"]);
}

#[test]
fn trimming() {
    assert_eq!(trim(&chars("  a b \n")), chars("a b"));
    assert_eq!(trim(&chars("   ")), chars(""));
    assert_eq!(trim(&chars("")), chars(""));
    assert_eq!(trim(&chars("x")), chars("x"));
}

#[test]
fn numbers() {
    assert_eq!(parse_number(&chars("0"), 255), Some(0));
    assert_eq!(parse_number(&chars("255"), 255), Some(255));
    assert_eq!(parse_number(&chars("256"), 255), None);
    assert_eq!(parse_number(&chars("+5"), 255), Some(5));
    assert_eq!(parse_number(&chars("007"), 255), Some(7));
    assert_eq!(parse_number(&chars(""), 255), None);
    assert_eq!(parse_number(&chars("+"), 255), None);
    assert_eq!(parse_number(&chars("-1"), 255), None);
    assert_eq!(parse_number(&chars("1a"), 255), None);
    assert_eq!(parse_number(&chars("1 "), 255), None);
    assert_eq!(parse_number(&chars("18446744073709551615"), u64::MAX), Some(u64::MAX));
    assert_eq!(parse_number(&chars("18446744073709551616"), u64::MAX), None);
    assert_eq!(parse_number(&chars("99999999999999999999999"), u64::MAX), None);
}

#[test]
fn prefixes_suffixes_substrings() {
    let t = chars("@UgABC");
    assert!(starts_with(&t, &chars("@Ug")));
    assert!(starts_with(&t, &chars("")));
    assert!(!starts_with(&t, &chars("Ug")));
    assert!(!starts_with(&t, &chars("@UgABCD")));
    assert!(ends_with(&t, &chars("ABC")));
    assert!(ends_with(&t, &chars("")));
    assert!(!ends_with(&t, &chars("AB")));
    assert!(contains(&t, &chars("gA")));
    assert!(contains(&t, &chars("")));
    assert!(contains(&t, &chars("@UgABC")));
    assert!(!contains(&t, &chars("gB")));
    assert!(!contains(&chars(""), &chars("a")));
    assert!(contains(&chars(""), &chars("")));
}

use moete::text::{
    byte_len_capped, chars_of, concat_chars, decimal_string, find_char, first_chars, is_blank,
    is_whitespace, join_with, lower_ascii, lower_ascii_char, matches_at, parse_number, push_hex,
    push_repeat, push_signed, push_zero_padded, remove_angles, replace_all, same_chars, split,
    split_words, starts_with, string_of, trimmed,
};

fn cs(s: &str) -> Vec<char> {
    s.chars().collect()
}

fn st(v: &Vec<char>) -> String {
    v.iter().collect()
}

#[test]
fn decimal_renders_without_leading_zeros() {
    assert_eq!(decimal_string(0), "0");
    assert_eq!(decimal_string(7), "7");
    assert_eq!(decimal_string(1234567890), "1234567890");
    assert_eq!(decimal_string(u64::MAX), "18446744073709551615");
}

#[test]
fn signed_decimal_has_minus_sign() {
    let mut out = Vec::new();
    push_signed(&mut out, -42);
    assert_eq!(st(&out), "-42");
    let mut out = Vec::new();
    push_signed(&mut out, i64::MIN);
    assert_eq!(st(&out), "-9223372036854775808");
    let mut out = Vec::new();
    push_signed(&mut out, 5);
    assert_eq!(st(&out), "5");
}

#[test]
fn hex_is_upper_case() {
    let mut out = Vec::new();
    push_hex(&mut out, 0xADD8E6);
    assert_eq!(st(&out), "ADD8E6");
    let mut out = Vec::new();
    push_hex(&mut out, 0);
    assert_eq!(st(&out), "0");
}

#[test]
fn zero_padding_fills_to_width() {
    let mut out = Vec::new();
    push_zero_padded(&mut out, &cs("FF"), 6);
    assert_eq!(st(&out), "0000FF");
    let mut out = Vec::new();
    push_zero_padded(&mut out, &cs("1234567"), 6);
    assert_eq!(st(&out), "1234567");
}

#[test]
fn decimal_reads_back() {
    for n in [0u64, 9, 10, 99, 100, 65535, u64::MAX] {
        let s = decimal_string(n);
        assert_eq!(parse_number(&cs(&s)), Some(n));
    }
}

#[test]
fn parse_number_follows_u64_parsing() {
    assert_eq!(parse_number(&cs("123")), Some(123));
    assert_eq!(parse_number(&cs("+5")), Some(5));
    assert_eq!(parse_number(&cs("")), None);
    assert_eq!(parse_number(&cs("+")), None);
    assert_eq!(parse_number(&cs("-1")), None);
    assert_eq!(parse_number(&cs("12a")), None);
    assert_eq!(parse_number(&cs("18446744073709551615")), Some(u64::MAX));
    assert_eq!(parse_number(&cs("18446744073709551616")), None);
}

#[test]
fn split_matches_str_split() {
    let parts = split(&cs("a,,b,"), ',');
    let got: Vec<String> = parts.iter().map(st).collect();
    assert_eq!(got, vec!["a", "", "b", ""]);
    let parts = split(&cs(""), ',');
    assert_eq!(parts.len(), 1);
    assert!(parts[0].is_empty());
}

#[test]
fn split_words_matches_split_whitespace() {
    let ws = split_words(&cs("  hello \t world\n "));
    let got: Vec<String> = ws.iter().map(st).collect();
    assert_eq!(got, vec!["hello", "world"]);
    assert!(split_words(&cs(" \u{3000} ")).is_empty());
}

#[test]
fn join_puts_separator_between() {
    let parts = vec![cs("a"), cs("b"), cs("c")];
    assert_eq!(st(&join_with(&parts, &cs(", "))), "a, b, c");
    let none: Vec<Vec<char>> = Vec::new();
    assert_eq!(st(&join_with(&none, &cs(", "))), "");
}

#[test]
fn replace_all_replaces_every_occurrence() {
    assert_eq!(st(&replace_all(&cs("a b  c"), ' ', &cs("%20"))), "a%20b%20%20c");
    assert_eq!(st(&replace_all(&cs("1,000,000"), ',', &cs(""))), "1000000");
}

#[test]
fn search_helpers() {
    assert!(starts_with(&cs("M#FFFFFF"), &cs("M#")));
    assert!(!starts_with(&cs("M"), &cs("M#")));
    assert!(matches_at(&cs("hello"), &cs("ll"), 2));
    assert!(!matches_at(&cs("hello"), &cs("ll"), 3));
    assert_eq!(find_char(&cs("W|x|y"), '|'), Some(1));
    assert_eq!(find_char(&cs("none"), '|'), None);
    assert!(same_chars(&cs("abc"), &cs("abc")));
    assert!(!same_chars(&cs("abc"), &cs("abd")));
    assert_eq!(st(&concat_chars(&cs("ab"), &cs("cd"))), "abcd");
}

#[test]
fn whitespace_follows_unicode() {
    assert!(is_whitespace(' '));
    assert!(is_whitespace('\u{3000}'));
    assert!(is_whitespace('\u{85}'));
    assert!(!is_whitespace('a'));
    assert!(!is_whitespace('\u{200B}'));
    assert!(is_blank(&cs(" \t\n")));
    assert!(!is_blank(&cs(" x ")));
    assert_eq!(st(&trimmed(&cs("  a b \n"))), "a b");
}

#[test]
fn ascii_lower_leaves_other_letters() {
    assert_eq!(lower_ascii_char('Q'), 'q');
    assert_eq!(lower_ascii_char('É'), 'É');
    assert_eq!(st(&lower_ascii(&cs("MoeTE É"))), "moete É");
}

#[test]
fn strings_and_chars_round_trip() {
    let v = chars_of("héllo");
    assert_eq!(v, cs("héllo"));
    assert_eq!(string_of(&v), "héllo");
    assert_eq!(st(&first_chars(&cs("héllo"), 2)), "hé");
    assert_eq!(st(&first_chars(&cs("hé"), 10)), "hé");
    assert_eq!(st(&remove_angles(&cs("<a:x:1>"))), "a:x:1");
    let mut out = cs("[");
    push_repeat(&mut out, '=', 3);
    assert_eq!(st(&out), "[===");
}

#[test]
fn byte_length_counts_utf8() {
    assert_eq!(byte_len_capped(&cs("abc"), 1024), 3);
    assert_eq!(byte_len_capped(&cs("é"), 1024), 2);
    assert_eq!(byte_len_capped(&cs("日本"), 1024), 6);
    assert_eq!(byte_len_capped(&cs("😀"), 1024), 4);
}

#[test]
fn byte_length_is_capped() {
    assert_eq!(byte_len_capped(&cs("abcdef"), 3), 4);
    assert_eq!(byte_len_capped(&cs("abc"), 3), 3);
}

use zone_delta::numeral::{append_decimal, append_hex, digit_str, read_digit, read_number};
use zone_delta::text::{chars_occur_at, chars_of, contains, ends_with, same_text, starts_with};

#[test]
fn chars_are_the_characters_in_order() {
    assert_eq!(chars_of(""), Vec::<char>::new());
    assert_eq!(chars_of("abc"), vec!['a', 'b', 'c']);
    assert_eq!(chars_of("gr\u{fc}n \u{2603}"), vec!['g', 'r', '\u{fc}', 'n', ' ', '\u{2603}']);
}

#[test]
fn pattern_occurs_where_every_character_agrees() {
    let text = chars_of("abcabd");
    assert!(chars_occur_at(&text, &chars_of("abc"), 0));
    assert!(!chars_occur_at(&text, &chars_of("abd"), 0));
    assert!(chars_occur_at(&text, &chars_of("abd"), 3));
    assert!(chars_occur_at(&text, &chars_of(""), 6));
    assert!(chars_occur_at(&text, &chars_of("abcabd"), 0));
    assert!(!chars_occur_at(&text, &chars_of("d"), 4));
    assert!(!chars_occur_at(&text, &chars_of("d"), 6));
    assert!(!chars_occur_at(&text, &chars_of(""), 7));
    assert!(!chars_occur_at(&text, &chars_of("abcabdx"), 0));
    assert!(!chars_occur_at(&text, &chars_of("bd"), 5));
}

#[test]
fn same_text_is_exact() {
    assert!(same_text("", ""));
    assert!(same_text("example.com", "example.com"));
    assert!(!same_text("example.com", "Example.com"));
    assert!(!same_text("example.com", "example.co"));
    assert!(!same_text("example.co", "example.com"));
    assert!(!same_text("", "a"));
    assert!(same_text("\u{2603}", "\u{2603}"));
}

#[test]
fn starts_with_looks_at_the_front() {
    assert!(starts_with("cf2_dkim", "cf"));
    assert!(starts_with("cf", "cf"));
    assert!(starts_with("cf", ""));
    assert!(starts_with("", ""));
    assert!(!starts_with("c", "cf"));
    assert!(!starts_with("xcf", "cf"));
    assert!(!starts_with("", "cf"));
}

#[test]
fn ends_with_looks_at_the_back() {
    assert!(ends_with("a._domainkey.example.com", "._domainkey.example.com"));
    assert!(ends_with("example.com", "example.com"));
    assert!(ends_with("example.com", ""));
    assert!(!ends_with("example.com", "xexample.com"));
    assert!(!ends_with("example.com.", "example.com"));
    assert!(!ends_with("", "a"));
    assert!(ends_with("\u{e9}t\u{e9}", "t\u{e9}"));
}

#[test]
fn contains_looks_everywhere() {
    assert!(contains("route1.mx.cloudflare.net", "mx.cloudflare.net"));
    assert!(contains("mx.cloudflare.net.", "mx.cloudflare.net"));
    assert!(contains("mx.cloudflare.net", "mx.cloudflare.net"));
    assert!(contains("aab", "ab"));
    assert!(contains("abc", ""));
    assert!(contains("", ""));
    assert!(!contains("", "a"));
    assert!(!contains("mx.cloudflare.ne", "mx.cloudflare.net"));
    assert!(!contains("abc", "ac"));
    assert!(contains("x\u{2603}y", "\u{2603}y"));
}

fn decimal(value: u16) -> String {
    let mut out = String::new();
    append_decimal(&mut out, value);
    out
}

fn hex(value: u16) -> String {
    let mut out = String::new();
    append_hex(&mut out, value);
    out
}

#[test]
fn decimal_has_no_digit_more_than_needed() {
    assert_eq!(decimal(0), "0");
    assert_eq!(decimal(9), "9");
    assert_eq!(decimal(10), "10");
    assert_eq!(decimal(255), "255");
    assert_eq!(decimal(1000), "1000");
    assert_eq!(decimal(65535), "65535");
}

#[test]
fn hex_is_lower_case() {
    assert_eq!(hex(0), "0");
    assert_eq!(hex(9), "9");
    assert_eq!(hex(10), "a");
    assert_eq!(hex(15), "f");
    assert_eq!(hex(16), "10");
    assert_eq!(hex(0xdb8), "db8");
    assert_eq!(hex(0xabcd), "abcd");
    assert_eq!(hex(0xffff), "ffff");
}

#[test]
fn numerals_append_to_what_is_there() {
    let mut out = String::from("x=");
    append_decimal(&mut out, 42);
    out.push(',');
    append_hex(&mut out, 42);
    assert_eq!(out, "x=42,2a");
}

#[test]
fn digits_are_single_characters() {
    let all = "0123456789abcdef";
    for digit in 0..16u16 {
        assert_eq!(digit_str(digit), &all[digit as usize..digit as usize + 1]);
    }
}

#[test]
fn digits_are_read_in_their_notation() {
    assert_eq!(read_digit('0', false), Some(0));
    assert_eq!(read_digit('9', false), Some(9));
    assert_eq!(read_digit('a', false), None);
    assert_eq!(read_digit('a', true), Some(10));
    assert_eq!(read_digit('f', true), Some(15));
    assert_eq!(read_digit('A', true), Some(10));
    assert_eq!(read_digit('F', true), Some(15));
    assert_eq!(read_digit('g', true), None);
    assert_eq!(read_digit('G', true), None);
    assert_eq!(read_digit('/', true), None);
    assert_eq!(read_digit(':', true), None);
    assert_eq!(read_digit('@', true), None);
    assert_eq!(read_digit('`', true), None);
    assert_eq!(read_digit('\u{661}', false), None);
}

#[test]
fn numbers_are_read_as_whole_runs_of_digits() {
    let text = chars_of("x123.045:ffff0");
    assert_eq!(read_number(&text, 1, false, 3, false), Some((123, 4)));
    assert_eq!(read_number(&text, 2, false, 3, false), Some((23, 4)));
    assert_eq!(read_number(&text, 1, false, 2, false), None);
    assert_eq!(read_number(&text, 0, false, 3, false), None);
    assert_eq!(read_number(&text, 4, false, 3, false), None);
    assert_eq!(read_number(&text, 5, false, 3, false), None);
    assert_eq!(read_number(&text, 5, false, 3, true), Some((45, 8)));
    assert_eq!(read_number(&text, 6, false, 3, false), Some((45, 8)));
    assert_eq!(read_number(&text, 9, true, 4, true), None);
    assert_eq!(read_number(&text, 10, true, 4, true), Some((0xfff0, 14)));
    assert_eq!(read_number(&text, 13, true, 4, false), Some((0, 14)));
    assert_eq!(read_number(&text, 14, true, 4, true), None);
    assert_eq!(read_number(&chars_of("00"), 0, false, 3, false), None);
    assert_eq!(read_number(&chars_of("0"), 0, false, 3, false), Some((0, 1)));
    assert_eq!(read_number(&chars_of("9999"), 0, false, 4, false), Some((9999, 4)));
    assert_eq!(read_number(&chars_of("FFFF"), 0, true, 4, false), Some((0xffff, 4)));
}

use session_log::decimal::{parse_i32, parse_i64, parse_u32, parse_usize, push_decimal};
use session_log::text::{chars_of, contains_chars, find_from, is_word, split_chars};

fn chars(s: &str) -> Vec<char> {
    s.chars().collect()
}

#[test]
fn chars_of_gives_characters_not_bytes() {
    assert_eq!(chars_of(""), Vec::<char>::new());
    assert_eq!(chars_of("a\u{e9}\u{1f600}"), vec!['a', '\u{e9}', '\u{1f600}']);
}

#[test]
fn split_keeps_empty_pieces() {
    assert_eq!(split_chars(&chars(""), '.'), vec![chars("")]);
    assert_eq!(split_chars(&chars("abc"), '.'), vec![chars("abc")]);
    assert_eq!(split_chars(&chars("a.b"), '.'), vec![chars("a"), chars("b")]);
    assert_eq!(split_chars(&chars(".a..b."), '.'), vec![
        chars(""),
        chars("a"),
        chars(""),
        chars("b"),
        chars("")
    ]);
    assert_eq!(split_chars(&chars("a,b.c"), ','), vec![chars("a"), chars("b.c")]);
}

#[test]
fn find_from_gives_length_when_absent() {
    let text = chars("a,b,c");
    assert_eq!(find_from(&text, ',', 0), 1);
    assert_eq!(find_from(&text, ',', 1), 1);
    assert_eq!(find_from(&text, ',', 2), 3);
    assert_eq!(find_from(&text, ',', 4), 5);
    assert_eq!(find_from(&text, ',', 5), 5);
    assert_eq!(find_from(&text, ';', 0), 5);
}

#[test]
fn is_word_compares_whole_token() {
    assert!(is_word(&chars("synth"), "synth"));
    assert!(is_word(&chars(""), ""));
    assert!(!is_word(&chars("synth"), "synt"));
    assert!(!is_word(&chars("synt"), "synth"));
    assert!(!is_word(&chars("Synth"), "synth"));
}

#[test]
fn contains_finds_runs_anywhere() {
    assert!(contains_chars(&chars("xxabcxx"), &chars("abc")));
    assert!(contains_chars(&chars("abc"), &chars("abc")));
    assert!(contains_chars(&chars("aabc"), &chars("abc")));
    assert!(contains_chars(&chars("abc"), &chars("")));
    assert!(contains_chars(&chars(""), &chars("")));
    assert!(!contains_chars(&chars("ab"), &chars("abc")));
    assert!(!contains_chars(&chars("abxc"), &chars("abc")));
    assert!(!contains_chars(&chars(""), &chars("a")));
}

#[test]
fn numbers_are_read_within_their_range() {
    assert_eq!(parse_usize(&chars("0")), Some(0));
    assert_eq!(parse_usize(&chars(&usize::MAX.to_string())), Some(usize::MAX));
    assert_eq!(parse_usize(&chars("-0")), None);
    assert_eq!(parse_u32(&chars("4294967295")), Some(u32::MAX));
    assert_eq!(parse_u32(&chars("4294967296")), None);
    assert_eq!(parse_u32(&chars("0004294967295")), Some(u32::MAX));
    assert_eq!(parse_i32(&chars("-0")), Some(0));
    assert_eq!(parse_i32(&chars("-2147483648")), Some(i32::MIN));
    assert_eq!(parse_i32(&chars("2147483648")), None);
    assert_eq!(parse_i64(&chars("-9223372036854775808")), Some(i64::MIN));
    assert_eq!(parse_i64(&chars("-9223372036854775809")), None);
    assert_eq!(parse_i64(&chars("+9223372036854775807")), Some(i64::MAX));
    assert_eq!(parse_i64(&chars("9223372036854775808")), None);
    assert_eq!(parse_i64(&chars("")), None);
    assert_eq!(parse_i64(&chars("+")), None);
    assert_eq!(parse_i64(&chars("-")), None);
    assert_eq!(parse_i64(&chars("12a")), None);
    assert_eq!(parse_i64(&chars("1 2")), None);
}

#[test]
fn numbers_are_written_in_shortest_decimal() {
    let mut out = String::from("n=");
    push_decimal(&mut out, 0);
    push_decimal(&mut out, 7);
    push_decimal(&mut out, 10);
    push_decimal(&mut out, 4294967295);
    assert_eq!(out, "n=07104294967295");
}

#[test]
fn written_numbers_read_back() {
    for n in [0u32, 1, 9, 10, 99, 100, 12345, u32::MAX] {
        let mut out = String::new();
        push_decimal(&mut out, n);
        assert_eq!(parse_u32(&chars(&out)), Some(n));
    }
}

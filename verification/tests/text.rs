use bridge_scrims::text::{
    chars_contain, chars_of, chars_start_with, decimal_string, join_strings, lower_chars,
    parse_u64_chars, push_hex, push_hex2, push_padded, push_signed_decimal, remove_char,
    string_of, user_mention_string,
};

#[test]
fn numbers_are_written_in_decimal_and_hex() {
    assert_eq!(decimal_string(0), "0");
    assert_eq!(decimal_string(18446744073709551615), "18446744073709551615");
    let mut s = String::from("t=");
    push_signed_decimal(&mut s, -42);
    assert_eq!(s, "t=-42");
    let mut s = String::new();
    push_signed_decimal(&mut s, i64::MIN);
    assert_eq!(s, "-9223372036854775808");
    let mut h = String::new();
    push_hex(&mut h, 0xbeef);
    assert_eq!(h, "beef");
    let mut h2 = String::new();
    push_hex2(&mut h2, 0x0a);
    assert_eq!(h2, "0a");
}

#[test]
fn numbers_are_read_like_parse() {
    let read = |t: &str| parse_u64_chars(&chars_of(t));
    assert_eq!(read("42"), Some(42));
    assert_eq!(read("+7"), Some(7));
    assert_eq!(read("18446744073709551616"), None);
    assert_eq!(read(""), None);
    assert_eq!(read("-1"), None);
    assert_eq!(read("1a"), None);
}

#[test]
fn texts_are_joined_padded_and_searched() {
    let parts = vec![String::from("a"), String::from("b"), String::from("c")];
    assert_eq!(join_strings(&parts, ", "), "a, b, c");
    assert_eq!(join_strings(&vec![], ", "), "");
    let mut p = String::new();
    push_padded(&mut p, &chars_of("ab"), 5);
    assert_eq!(p, "   ab");
    let mut q = String::new();
    push_padded(&mut q, &chars_of("abcdef"), 3);
    assert_eq!(q, "abcdef");
    assert_eq!(string_of(&lower_chars(&chars_of("ShMiLL 1"))), "shmill 1");
    assert_eq!(string_of(&remove_char(&chars_of("a b c"), ' ')), "abc");
    assert!(chars_contain(&chars_of("counterratio"), &chars_of("ratio")));
    assert!(!chars_contain(&chars_of("rat"), &chars_of("ratio")));
    assert!(chars_start_with(&chars_of("/cmd"), &chars_of("/")));
    assert_eq!(user_mention_string(5), "<@5>");
}

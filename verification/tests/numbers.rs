use timeconv::text::{
    chars_of, join_range, parse_i32, parse_i64, parse_integer, parse_u32, parse_whole, split_words,
};

#[test]
fn unsigned_numbers_take_a_plus_and_no_minus() {
    assert_eq!(parse_u32("0"), Some(0));
    assert_eq!(parse_u32("5"), Some(5));
    assert_eq!(parse_u32("+5"), Some(5));
    assert_eq!(parse_u32("007"), Some(7));
    assert_eq!(parse_u32("-5"), None);
    assert_eq!(parse_u32("-0"), None);
    assert_eq!(parse_u32(""), None);
    assert_eq!(parse_u32("+"), None);
    assert_eq!(parse_u32("5 "), None);
    assert_eq!(parse_u32(" 5"), None);
    assert_eq!(parse_u32("5a"), None);
    assert_eq!(parse_u32("++5"), None);
    assert_eq!(parse_u32("\u{663}"), None);
}

#[test]
fn unsigned_numbers_end_at_32_bits() {
    assert_eq!(parse_u32("4294967295"), Some(u32::MAX));
    assert_eq!(parse_u32("4294967296"), None);
    assert_eq!(parse_u32("00000000004294967295"), Some(u32::MAX));
    assert_eq!(parse_u32("99999999999999999999999999"), None);
}

#[test]
fn signed_numbers_take_either_sign() {
    assert_eq!(parse_i32("-5"), Some(-5));
    assert_eq!(parse_i32("+5"), Some(5));
    assert_eq!(parse_i32("-0"), Some(0));
    assert_eq!(parse_i32("2147483647"), Some(i32::MAX));
    assert_eq!(parse_i32("2147483648"), None);
    assert_eq!(parse_i32("-2147483648"), Some(i32::MIN));
    assert_eq!(parse_i32("-2147483649"), None);
    assert_eq!(parse_i32("-"), None);
    assert_eq!(parse_i32("--5"), None);
}

#[test]
fn sixty_four_bits_are_read_to_their_ends() {
    assert_eq!(parse_i64("9223372036854775807"), Some(i64::MAX));
    assert_eq!(parse_i64("9223372036854775808"), None);
    assert_eq!(parse_i64("-9223372036854775808"), Some(i64::MIN));
    assert_eq!(parse_i64("-9223372036854775809"), None);
    assert_eq!(parse_i64("+9223372036854775807"), Some(i64::MAX));
    assert_eq!(parse_i64("+9223372036854775808"), None);
    assert_eq!(parse_i64("1600000000"), Some(1600000000));
}

#[test]
fn a_range_bounds_what_is_read() {
    assert_eq!(parse_integer("10", true, 0, 10), Some(10));
    assert_eq!(parse_integer("11", true, 0, 10), None);
    assert_eq!(parse_integer("-1", true, 0, 10), None);
    assert_eq!(parse_integer("-1", true, -1, 10), Some(-1));
    assert_eq!(parse_integer("-1", false, -1, 10), None);
    assert_eq!(parse_integer("5", true, 6, 5), None);
}

#[test]
fn the_whole_part_of_a_decimal_number() {
    assert_eq!(parse_whole("15.5", 0, 100), Some(15));
    assert_eq!(parse_whole("15", 0, 100), Some(15));
    assert_eq!(parse_whole("15.", 0, 100), Some(15));
    assert_eq!(parse_whole(".5", 0, 100), Some(0));
    assert_eq!(parse_whole("+15.5", 0, 100), Some(15));
    assert_eq!(parse_whole("-15.5", -100, 100), Some(-15));
    assert_eq!(parse_whole("-0.5", -100, 100), Some(0));
    assert_eq!(parse_whole("0015.5000", 0, 100), Some(15));
}

#[test]
fn the_whole_part_is_brought_into_the_range() {
    assert_eq!(parse_whole("150", 0, 100), Some(100));
    assert_eq!(parse_whole("-15.5", 0, 100), Some(0));
    assert_eq!(parse_whole("99999999999999999999999.9", 0, 100), Some(100));
    assert_eq!(parse_whole("-99999999999999999999999.9", -7, 100), Some(-7));
    assert_eq!(parse_whole("99999999999999999999999", i64::MIN, i64::MAX), Some(i64::MAX));
    assert_eq!(parse_whole("-99999999999999999999999", i64::MIN, i64::MAX), Some(i64::MIN));
    assert_eq!(parse_whole("-9223372036854775808", i64::MIN, i64::MAX), Some(i64::MIN));
    assert_eq!(parse_whole("9223372036854775808", i64::MIN, i64::MAX), Some(i64::MAX));
}

#[test]
fn what_is_no_decimal_number_has_no_whole_part() {
    assert_eq!(parse_whole("", 0, 100), None);
    assert_eq!(parse_whole(".", 0, 100), None);
    assert_eq!(parse_whole("+", 0, 100), None);
    assert_eq!(parse_whole("-.", 0, 100), None);
    assert_eq!(parse_whole("1.2.3", 0, 100), None);
    assert_eq!(parse_whole("1e3", 0, 100), None);
    assert_eq!(parse_whole("1,5", 0, 100), None);
    assert_eq!(parse_whole("inf", 0, 100), None);
    assert_eq!(parse_whole("1.5 ", 0, 100), None);
    assert_eq!(parse_whole("--1", 0, 100), None);
}

#[test]
fn words_are_cut_at_white_space() {
    assert_eq!(split_words("a b  c"), vec!["a", "b", "c"]);
    assert_eq!(split_words("  a\tb\nc  "), vec!["a", "b", "c"]);
    assert_eq!(split_words("a\u{a0}b\u{3000}c"), vec!["a", "b", "c"]);
    assert_eq!(split_words("abc"), vec!["abc"]);
    assert_eq!(split_words(""), Vec::<String>::new());
    assert_eq!(split_words("   "), Vec::<String>::new());
    assert_eq!(split_words("\u{e9}t\u{e9} 2020"), vec!["\u{e9}t\u{e9}", "2020"]);
}

#[test]
fn words_are_joined_by_one_space() {
    let parts: Vec<String> = ["a", "b", "", "c"].iter().map(|s| s.to_string()).collect();
    assert_eq!(join_range(&parts, 0, 4), "a b  c");
    assert_eq!(join_range(&parts, 1, 2), "b");
    assert_eq!(join_range(&parts, 0, 2), "a b");
    assert_eq!(join_range(&parts, 2, 2), "");
    assert_eq!(join_range(&parts, 2, 4), " c");
}

#[test]
fn the_characters_of_a_text() {
    assert_eq!(chars_of("a\u{e9}\u{1f600}"), vec!['a', '\u{e9}', '\u{1f600}']);
    assert_eq!(chars_of(""), Vec::<char>::new());
}

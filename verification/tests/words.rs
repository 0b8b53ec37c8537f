use timeconv::args::{is_delta, split_args};

fn words(items: &[&str]) -> Vec<String> {
    items.iter().map(|s| s.to_string()).collect()
}

#[test]
fn a_signed_word_starts_an_offset() {
    assert!(is_delta("+1d"));
    assert!(is_delta("-3h"));
    assert!(is_delta("+"));
    assert!(is_delta("-"));
    assert!(is_delta("+nonsense"));
}

#[test]
fn a_zone_offset_starts_no_offset_phrase() {
    assert!(!is_delta("+0800"));
    assert!(!is_delta("-0800"));
    assert!(!is_delta("+0000"));
    assert!(is_delta("+08000"));
    assert!(is_delta("+080"));
    assert!(is_delta("+08:00"));
    assert!(is_delta("+0800 "));
}

#[test]
fn an_unsigned_word_starts_no_offset_phrase() {
    assert!(!is_delta(""));
    assert!(!is_delta("1d"));
    assert!(!is_delta("0800"));
    assert!(!is_delta(" +1d"));
    assert!(!is_delta("2020-01-01"));
}

#[test]
fn words_before_the_first_offset_are_the_moment() {
    let r = split_args(&words(&["2020-01-01", "10:00", "+1day", "2h", "-3m"]));
    assert_eq!(r.moment, "2020-01-01 10:00");
    assert_eq!(r.delta, words(&["+1day 2h", "-3m"]));
}

#[test]
fn a_zone_offset_belongs_to_the_moment() {
    let r = split_args(&words(&["2018-11-21", "11:21:11", "+0800", "+1d"]));
    assert_eq!(r.moment, "2018-11-21 11:21:11 +0800");
    assert_eq!(r.delta, words(&["+1d"]));
}

#[test]
fn after_the_first_offset_everything_is_offset() {
    let r = split_args(&words(&["+1d", "+0800", "10:00", "-2h", "x"]));
    assert_eq!(r.moment, "");
    assert_eq!(r.delta, words(&["+1d +0800 10:00", "-2h x"]));
}

#[test]
fn no_words_are_an_empty_moment() {
    let r = split_args(&words(&[]));
    assert_eq!(r.moment, "");
    assert_eq!(r.delta, Vec::<String>::new());
    let only = split_args(&words(&["1600000000"]));
    assert_eq!(only.moment, "1600000000");
    assert_eq!(only.delta, Vec::<String>::new());
}

#[test]
fn every_signed_word_opens_a_phrase() {
    let r = split_args(&words(&["+1d", "-1d", "+1d"]));
    assert_eq!(r.moment, "");
    assert_eq!(r.delta, words(&["+1d", "-1d", "+1d"]));
}

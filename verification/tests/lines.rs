use timeconv::clock::Moment;
use timeconv::delta::Duration;
use timeconv::resolve::{decimal_string, insert, less, line_text, resolve, run, run_at};

fn summer() -> Moment {
    Moment { timestamp: 1592222400, year: 2020, month: 6, day: 15, hour: 12, minute: 0, second: 0 }
}

fn texts(items: &[&str]) -> Vec<String> {
    items.iter().map(|s| s.to_string()).collect()
}

#[test]
fn numbers_are_written_in_decimal() {
    assert_eq!(decimal_string(0), "0");
    assert_eq!(decimal_string(7), "7");
    assert_eq!(decimal_string(10), "10");
    assert_eq!(decimal_string(-1), "-1");
    assert_eq!(decimal_string(1234567890), "1234567890");
    assert_eq!(decimal_string(-9876543210), "-9876543210");
    assert_eq!(decimal_string(i64::MAX), "9223372036854775807");
    assert_eq!(decimal_string(i64::MIN), "-9223372036854775808");
}

#[test]
fn a_line_is_date_time_tab_seconds() {
    assert_eq!(line_text(&summer()), Some("2020-06-15 12:00:00\t1592222400".to_string()));
    let early = Moment { timestamp: -5, year: 1969, month: 12, day: 31, hour: 23, minute: 59, second: 55 };
    assert_eq!(line_text(&early), Some("1969-12-31 23:59:55\t-5".to_string()));
    let padded = Moment { timestamp: 1, year: 2001, month: 2, day: 3, hour: 4, minute: 5, second: 6 };
    assert_eq!(line_text(&padded), Some("2001-02-03 04:05:06\t1".to_string()));
}

#[test]
fn a_reading_that_is_no_date_has_no_line() {
    assert_eq!(line_text(&Moment { month: 13, ..summer() }), None);
    assert_eq!(line_text(&Moment { month: 2, day: 30, ..summer() }), None);
    assert_eq!(line_text(&Moment { hour: 24, ..summer() }), None);
}

#[test]
fn less_is_the_order_of_a_dictionary() {
    assert!(less("a", "b"));
    assert!(!less("b", "a"));
    assert!(!less("a", "a"));
    assert!(less("", "a"));
    assert!(!less("a", ""));
    assert!(!less("", ""));
    assert!(less("ab", "abc"));
    assert!(!less("abc", "ab"));
    assert!(less("abc", "abd"));
    assert!(less("Z", "a"));
    assert!(less("10", "9"));
    assert!(less("z", "\u{e9}"));
}

#[test]
fn insert_keeps_order_and_drops_repeats() {
    let mut out: Vec<String> = Vec::new();
    for s in ["m", "c", "x", "c", "a", "m", "z", "b"] {
        insert(&mut out, s.to_string());
    }
    assert_eq!(out, texts(&["a", "b", "c", "m", "x", "z"]));
}

#[test]
fn equal_moments_give_one_line() {
    let later = Moment { timestamp: 1592226000, hour: 13, ..summer() };
    let earlier = Moment { timestamp: 1592218800, hour: 11, ..summer() };
    let zero = Duration::new();
    let lines = resolve(&vec![later, summer(), earlier, summer(), later], &zero);
    assert_eq!(lines.len(), 3);
    assert!(lines[0].starts_with("2020-06-15 11:00:00\t"));
    assert!(lines[1].starts_with("2020-06-15 12:00:00\t"));
    assert!(lines[2].starts_with("2020-06-15 13:00:00\t"));
    let mut sorted = lines.clone();
    sorted.sort();
    sorted.dedup();
    assert_eq!(lines, sorted);
    assert_eq!(resolve(&vec![], &zero), Vec::<String>::new());
}

#[test]
fn a_timestamp_gives_its_line() {
    let lines = run("1592222400", &texts(&[]));
    assert_eq!(lines.len(), 1);
    assert!(lines[0].ends_with("\t1592222400"));
    assert_eq!(lines[0].len(), "2020-06-15 12:00:00\t1592222400".len());
}

#[test]
fn an_offset_moves_the_line() {
    let lines = run("1592222400", &texts(&["+1d", "-1h"]));
    assert_eq!(lines.len(), 1);
    assert!(lines[0].ends_with(&format!("\t{}", 1592222400 + 86400 - 3600)));
}

#[test]
fn an_offset_that_cannot_be_read_counts_as_none() {
    let lines = run("1592222400", &texts(&["+1fortnight"]));
    assert_eq!(lines.len(), 1);
    assert!(lines[0].ends_with("\t1592222400"));
}

#[test]
fn no_phrase_gives_one_line_for_now() {
    let before = std::time::SystemTime::now()
        .duration_since(std::time::UNIX_EPOCH)
        .expect("a clock after the epoch")
        .as_secs() as i64;
    let lines = run("", &texts(&[]));
    assert_eq!(lines.len(), 1);
    let seconds: i64 = lines[0].split('\t').nth(1).expect("two fields").parse().expect("a number");
    assert!(seconds >= before - 1 && seconds <= before + 5);
}

#[test]
fn a_phrase_that_nobody_reads_gives_no_line() {
    assert_eq!(run("the day after tomorrow", &texts(&["+1d"])), Vec::<String>::new());
}

#[test]
fn lines_at_a_given_moment() {
    let now = summer();
    let lines = run_at("", &texts(&["+2M"]), &now);
    assert_eq!(lines.len(), 1);
    assert!(lines[0].starts_with("2020-08-15 12:00:00\t"));
    let both = run_at("11 21", &texts(&[]), &now);
    assert_eq!(both.len(), 3);
    assert!(both[0].starts_with("2020-06-11 21:00:00\t"));
    assert!(both[1].starts_with("2020-06-15 11:21:00\t"));
    assert!(both[2].starts_with("2020-11-21 12:00:00\t"));
}

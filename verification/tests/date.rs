use timeconv::clock::{Civil, Moment};
use timeconv::moment::date::{from_numbers, parse, split, try_vec, Args};

fn spring() -> Moment {
    Moment { timestamp: 1710504000, year: 2024, month: 3, day: 15, hour: 12, minute: 34, second: 56 }
}

fn ymd(year: i32, month: u32, day: u32) -> Option<Args> {
    Some(Args { year, month, day })
}

#[test]
fn a_short_year_from_seventy_on_is_of_the_last_century() {
    assert_eq!(Args::new(70, 1, 1), Args { year: 1970, month: 1, day: 1 });
    assert_eq!(Args::new(99, 1, 1), Args { year: 1999, month: 1, day: 1 });
}

#[test]
fn a_short_year_below_seventy_is_of_this_century() {
    assert_eq!(Args::new(69, 1, 1), Args { year: 2069, month: 1, day: 1 });
    assert_eq!(Args::new(1, 1, 1), Args { year: 2001, month: 1, day: 1 });
}

#[test]
fn other_years_stay_as_they_are() {
    assert_eq!(Args::new(0, 1, 1), Args { year: 0, month: 1, day: 1 });
    assert_eq!(Args::new(100, 1, 1), Args { year: 100, month: 1, day: 1 });
    assert_eq!(Args::new(2021, 6, 15), Args { year: 2021, month: 6, day: 15 });
    assert_eq!(Args::new(-5, 6, 15), Args { year: -5, month: 6, day: 15 });
    assert_eq!(Args::new(i32::MAX, 6, 15), Args { year: i32::MAX, month: 6, day: 15 });
}

#[test]
fn three_fields_are_year_month_day() {
    let now = spring();
    assert_eq!(split("2021 06 15", &now), ymd(2021, 6, 15));
    assert_eq!(split("2021-06-15", &now), ymd(2021, 6, 15));
    assert_eq!(split("2021/6/15", &now), ymd(2021, 6, 15));
    assert_eq!(split("2021-6/15", &now), ymd(2021, 6, 15));
    assert_eq!(split("21-6-15", &now), ymd(2021, 6, 15));
    assert_eq!(split("69-6-15", &now), ymd(2069, 6, 15));
    assert_eq!(split("70-6-15", &now), ymd(1970, 6, 15));
}

#[test]
fn two_fields_are_month_and_day_of_this_year() {
    assert_eq!(split("6 15", &spring()), ymd(2024, 6, 15));
    assert_eq!(split("11/21", &spring()), ymd(2024, 11, 21));
}

#[test]
fn one_field_is_a_day_of_this_month() {
    assert_eq!(split("7", &spring()), ymd(2024, 3, 7));
    assert_eq!(split("+7", &spring()), ymd(2024, 3, 7));
}

#[test]
fn other_counts_of_fields_are_refused() {
    assert_eq!(split("1 2 3 4", &spring()), None);
    assert_eq!(split("", &spring()), None);
    assert_eq!(split("2021  06 15", &spring()), None);
    assert_eq!(split("2021-06-15 ", &spring()), None);
}

#[test]
fn fields_must_be_numbers() {
    assert_eq!(split("2021 June 15", &spring()), None);
    assert_eq!(split("2021.06.15", &spring()), None);
    assert_eq!(split("x", &spring()), None);
    assert_eq!(split("4294967296", &spring()), None);
}

#[test]
fn a_large_year_wraps_as_its_bits_do() {
    assert_eq!(split("4294967295 1 1", &spring()), ymd(-1, 1, 1));
    assert_eq!(split("2147483648 1 1", &spring()), ymd(i32::MIN, 1, 1));
    assert_eq!(split("2147483647 1 1", &spring()), ymd(i32::MAX, 1, 1));
}

#[test]
fn from_numbers_goes_by_the_count() {
    let now = spring();
    assert_eq!(from_numbers(&vec![], &now), None);
    assert_eq!(from_numbers(&vec![9], &now), ymd(2024, 3, 9));
    assert_eq!(from_numbers(&vec![8, 9], &now), ymd(2024, 8, 9));
    assert_eq!(from_numbers(&vec![7, 8, 9], &now), ymd(2007, 8, 9));
    assert_eq!(from_numbers(&vec![6, 7, 8, 9], &now), None);
}

#[test]
fn validate_checks_the_ranges_of_a_date() {
    assert!(!Args { year: 1970, month: 1, day: 1 }.validate());
    assert!(Args { year: 1971, month: 1, day: 1 }.validate());
    assert!(Args { year: 2050, month: 12, day: 31 }.validate());
    assert!(!Args { year: 2051, month: 1, day: 1 }.validate());
    assert!(!Args { year: 2021, month: 0, day: 1 }.validate());
    assert!(!Args { year: 2021, month: 13, day: 1 }.validate());
    assert!(!Args { year: 2021, month: 1, day: 0 }.validate());
    assert!(!Args { year: 2021, month: 1, day: 32 }.validate());
    assert!(Args { year: 2021, month: 2, day: 31 }.validate());
}

#[test]
fn try_vec_wants_every_item() {
    assert_eq!(try_vec(vec![Some(1), Some(2), Some(3)]), Some(vec![1, 2, 3]));
    assert_eq!(try_vec(vec![Some(1), None, Some(3)]), None);
    assert_eq!(try_vec(vec![None::<u8>]), None);
    assert_eq!(try_vec(Vec::<Option<u8>>::new()), Some(vec![]));
    assert_eq!(try_vec(vec![Some("a".to_string())]), Some(vec!["a".to_string()]));
}

#[test]
fn a_date_is_at_the_time_of_now() {
    let now = spring();
    assert_eq!(
        Args { year: 2021, month: 6, day: 15 }.at_time_of(&now),
        Civil { year: 2021, month: 6, day: 15, hour: 12, minute: 34, second: 56 }
    );
}

#[test]
fn a_real_date_gives_one_candidate_with_its_fields() {
    let now = spring();
    for (y, m, d) in [(1971, 1, 1), (2021, 6, 15), (2024, 2, 29), (2050, 12, 31), (2000, 7, 4)] {
        let found = parse(&format!("{} {} {}", y, m, d), &now).expect("a date");
        assert_eq!(found.len(), 1);
        assert_eq!((found[0].year, found[0].month, found[0].day), (y, m, d));
        assert_eq!((found[0].hour, found[0].minute, found[0].second), (12, 34, 56));
    }
}

#[test]
fn a_day_that_the_calendar_lacks_gives_nothing() {
    assert_eq!(parse("2021 02 31", &spring()), None);
    assert_eq!(parse("2021 02 29", &spring()), None);
    assert_eq!(parse("2021 04 31", &spring()), None);
}

#[test]
fn a_date_out_of_range_gives_nothing() {
    assert_eq!(parse("1970 06 15", &spring()), None);
    assert_eq!(parse("2051 06 15", &spring()), None);
    assert_eq!(parse("2021 13 15", &spring()), None);
    assert_eq!(parse("2021 06 32", &spring()), None);
    assert_eq!(parse("2021 06 0", &spring()), None);
    assert_eq!(parse("nonsense", &spring()), None);
}

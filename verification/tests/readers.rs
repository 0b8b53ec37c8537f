use timeconv::clock::{Civil, Moment};
use timeconv::moment::{candidate, date_time, gather, go, now, parse, parse_at, standard, timestamp};

fn summer() -> Moment {
    Moment { timestamp: 1592222400, year: 2020, month: 6, day: 15, hour: 12, minute: 0, second: 0 }
}

fn civil(year: i32, month: u32, day: u32, hour: u32, minute: u32, second: u32) -> Civil {
    Civil { year, month, day, hour, minute, second }
}

#[test]
fn ten_digits_are_seconds() {
    let found = timestamp::parse("1600000000").expect("a timestamp");
    assert_eq!(found.len(), 1);
    assert_eq!(found[0].timestamp, 1600000000);
    assert_eq!(found[0].year, 2020);
    assert_eq!(found[0].month, 9);
}

#[test]
fn thirteen_digits_are_milliseconds() {
    assert!(timestamp::parse_sec("1600000000123").is_none());
    let by_ms = timestamp::parse_ms("1600000000123").expect("milliseconds");
    assert_eq!(by_ms.timestamp, 1600000000);
    let found = timestamp::parse("1600000000123").expect("a timestamp");
    assert_eq!(found, vec![by_ms]);
}

#[test]
fn a_fraction_of_a_second_is_dropped_from_a_timestamp() {
    assert!(timestamp::parse_sec("1600000000.75").is_none());
    assert!(timestamp::parse_ms("1600000000.75").is_none());
    let m = timestamp::parse_float_sec("1600000000.75").expect("seconds with a fraction");
    assert_eq!(m.timestamp, 1600000000);
    assert_eq!(timestamp::parse("1600000000.75"), Some(vec![m]));
    assert_eq!(timestamp::parse("1600000000."), Some(vec![m]));
}

#[test]
fn years_outside_the_window_are_refused() {
    assert_eq!(timestamp::parse("0"), None);
    assert_eq!(timestamp::parse("12"), None);
    assert_eq!(timestamp::parse("1200000000"), None);
    assert_eq!(timestamp::parse("2000000000"), None);
    assert_eq!(timestamp::parse("-1600000000"), None);
    assert_eq!(timestamp::parse("99999999999999999999"), None);
    assert_eq!(timestamp::parse("9223372036854775807"), None);
    assert_eq!(timestamp::parse("-9223372036854775808"), None);
    assert_eq!(timestamp::parse("1e9"), None);
    assert_eq!(timestamp::parse("abc"), None);
    assert_eq!(timestamp::parse(""), None);
}

#[test]
fn the_window_is_from_2010_to_2030() {
    let at_year = |year: i32| Moment { year, ..summer() };
    assert_eq!(timestamp::keep(Some(at_year(2009))), None);
    assert_eq!(timestamp::keep(Some(at_year(2010))), Some(at_year(2010)));
    assert_eq!(timestamp::keep(Some(at_year(2030))), Some(at_year(2030)));
    assert_eq!(timestamp::keep(Some(at_year(2031))), None);
    assert_eq!(timestamp::keep(None), None);
}

#[test]
fn the_first_reading_wins() {
    let a = Moment { timestamp: 1, ..summer() };
    let b = Moment { timestamp: 2, ..summer() };
    let c = Moment { timestamp: 3, ..summer() };
    assert_eq!(timestamp::pick(Some(a), Some(b), Some(c)), Some(vec![a]));
    assert_eq!(timestamp::pick(None, Some(b), Some(c)), Some(vec![b]));
    assert_eq!(timestamp::pick(None, None, Some(c)), Some(vec![c]));
    assert_eq!(timestamp::pick(Some(a), None, None), Some(vec![a]));
    assert_eq!(timestamp::pick(None, None, None), None);
}

#[test]
fn milliseconds_round_towards_the_epoch() {
    assert_eq!(timestamp::parse_ms("1600000000999").map(|m| m.timestamp), Some(1600000000));
    assert_eq!(timestamp::parse_ms("1262304000000").map(|m| m.timestamp), Some(1262304000));
    assert_eq!(timestamp::parse_ms("-1"), None);
    assert_eq!(timestamp::parse_ms("-9223372036854775808"), None);
}

#[test]
fn the_empty_phrase_is_now() {
    assert_eq!(now::parse("", &summer()), Some(vec![summer()]));
    assert_eq!(now::parse(" ", &summer()), None);
    assert_eq!(now::parse("now", &summer()), None);
}

#[test]
fn rfc_2822_is_read() {
    let found = standard::parse("Tue, 1 Jul 2003 10:52:37 +0200").expect("an RFC 2822 date");
    assert_eq!(found.len(), 1);
    assert_eq!(found[0].timestamp, 1057049557);
}

#[test]
fn rfc_3339_is_read() {
    let found = standard::parse("1996-12-19T16:39:57-08:00").expect("an RFC 3339 date");
    assert_eq!(found.len(), 1);
    assert_eq!(found[0].timestamp, 851042397);
    let utc = standard::parse("2020-06-15T12:00:00Z").expect("an RFC 3339 date");
    assert_eq!(utc[0].timestamp, 1592222400);
}

#[test]
fn other_texts_are_no_standard_dates() {
    assert_eq!(standard::parse(""), None);
    assert_eq!(standard::parse("2020-06-15"), None);
    assert_eq!(standard::parse("yesterday"), None);
}

#[test]
fn the_head_of_a_log_line_is_read() {
    let found = go::parse("2018-11-21 11:21:11.123 +0800 CST m=+0.000").expect("a log date");
    assert_eq!(found.len(), 1);
    assert_eq!(found[0].timestamp, 1542770471);
    let plain = go::parse("  2018-11-21   11:21:11 +0000  ").expect("a log date");
    assert_eq!(plain[0].timestamp, 1542799271);
}

#[test]
fn a_log_line_needs_date_time_and_offset() {
    assert_eq!(go::parse("2018-11-21 11:21:11"), None);
    assert_eq!(go::parse("2018-11-21"), None);
    assert_eq!(go::parse(""), None);
    assert_eq!(go::parse("x 2018-11-21 11:21:11 +0800"), None);
}

#[test]
fn a_date_and_a_time_ask_for_one_reading() {
    let now = summer();
    assert_eq!(
        date_time::request("2021-06-15", "10:30", &now),
        Some(civil(2021, 6, 15, 10, 30, 0))
    );
    assert_eq!(date_time::request("6 15", "9 pm", &now), Some(civil(2020, 6, 15, 21, 0, 0)));
    assert_eq!(date_time::request("2021-06-15", "24:00", &now), None);
    assert_eq!(date_time::request("1970-06-15", "10:00", &now), None);
    assert_eq!(date_time::request("", "10:00", &now), None);
    assert_eq!(date_time::request("2021-06-15", "", &now), None);
}

#[test]
fn an_ambiguous_phrase_asks_for_every_cut() {
    let now = summer();
    assert_eq!(
        date_time::requests("2021 06 15 10 30 00", &now),
        vec![civil(2021, 6, 15, 10, 30, 0)]
    );
    assert_eq!(
        date_time::requests("11 21 10 30", &now),
        vec![civil(2020, 6, 11, 21, 10, 30), civil(2020, 11, 21, 10, 30, 0)]
    );
    assert_eq!(date_time::requests("21/6/15 7 8", &now), vec![civil(2021, 6, 15, 7, 8, 0)]);
    assert_eq!(date_time::requests("21-6-15/7:08", &now), vec![civil(2021, 6, 15, 7, 8, 0)]);
    assert_eq!(date_time::requests("2021-06-15", &now), vec![]);
    assert_eq!(date_time::requests("", &now), vec![]);
}

#[test]
fn an_ambiguous_phrase_has_several_candidates() {
    let now = summer();
    let found = date_time::parse("11 21 10 30", &now).expect("always some");
    let readings: Vec<Civil> = found.iter().map(|m| m.reading()).collect();
    assert_eq!(readings, vec![civil(2020, 6, 11, 21, 10, 30), civil(2020, 11, 21, 10, 30, 0)]);
}

#[test]
fn the_intended_reading_is_among_the_candidates() {
    let now = summer();
    let found = date_time::parse("2021 06 15 10 30 00", &now).expect("always some");
    let readings: Vec<Civil> = found.iter().map(|m| m.reading()).collect();
    assert!(readings.contains(&civil(2021, 6, 15, 10, 30, 0)));
    let all = parse_at("2021 06 15 10 30 00", &now);
    assert!(all.iter().any(|m| m.reading() == civil(2021, 6, 15, 10, 30, 0)));
}

#[test]
fn a_date_with_a_time_is_read() {
    let now = summer();
    let found = date_time::parse("2021-06-15 10:30:05", &now).expect("always some");
    assert_eq!(found.len(), 1);
    assert_eq!(found[0].reading(), civil(2021, 6, 15, 10, 30, 5));
    assert_eq!(date_time::parse("nonsense", &now), Some(vec![]));
    assert_eq!(date_time::parse("2021-02-31 10:30:05", &now), Some(vec![]));
}

#[test]
fn a_slash_joins_date_and_time() {
    let now = summer();
    let m = date_time::parse_case1("2018-11-21/11:21:11", &now).expect("a date and a time");
    assert_eq!(m.reading(), civil(2018, 11, 21, 11, 21, 11));
    assert_eq!(date_time::parse("2018-11-21/11:21:11", &now), Some(vec![m]));
    assert_eq!(date_time::parse_case1("2018/11/21/11:21:11", &now), None);
    assert_eq!(date_time::parse_case1("2018-11-21 11:21:11", &now), None);
    assert_eq!(date_time::parse_case1("/", &now), None);
    assert_eq!(date_time::parse_case1("2018-11-21/", &now), None);
}

#[test]
fn split_slash_wants_one_slash() {
    assert_eq!(date_time::split_slash("a/b"), Some(("a".to_string(), "b".to_string())));
    assert_eq!(date_time::split_slash("/"), Some((String::new(), String::new())));
    assert_eq!(date_time::split_slash("ab/"), Some(("ab".to_string(), String::new())));
    assert_eq!(date_time::split_slash("ab"), None);
    assert_eq!(date_time::split_slash("a/b/c"), None);
    assert_eq!(date_time::split_slash("//"), None);
    assert_eq!(date_time::split_slash(""), None);
}

#[test]
fn candidate_wraps_one_moment() {
    assert_eq!(candidate(Some(summer())), Some(vec![summer()]));
    assert_eq!(candidate(None), None);
}

#[test]
fn gather_appends_what_a_reader_gave() {
    let mut out = vec![summer()];
    gather(&mut out, None);
    assert_eq!(out, vec![summer()]);
    let other = Moment { timestamp: 7, ..summer() };
    gather(&mut out, Some(vec![other, summer()]));
    assert_eq!(out, vec![summer(), other, summer()]);
}

#[test]
fn the_empty_phrase_has_one_candidate() {
    assert_eq!(parse_at("", &summer()), vec![summer()]);
}

#[test]
fn the_empty_phrase_is_the_present_moment() {
    let before = std::time::SystemTime::now()
        .duration_since(std::time::UNIX_EPOCH)
        .expect("a clock after the epoch")
        .as_secs() as i64;
    let found = parse("");
    assert_eq!(found.len(), 1);
    assert!(found[0].timestamp >= before - 1 && found[0].timestamp <= before + 5);
}

#[test]
fn a_timestamp_phrase_has_one_candidate() {
    let found = parse_at("1600000000", &summer());
    assert_eq!(found.len(), 1);
    assert_eq!(found[0].timestamp, 1600000000);
}

#[test]
fn a_phrase_may_be_a_time_and_a_date() {
    let now = summer();
    let found = parse_at("11 21", &now);
    let readings: Vec<Civil> = found.iter().map(|m| m.reading()).collect();
    assert_eq!(
        readings,
        vec![
            civil(2020, 6, 15, 11, 21, 0),
            civil(2020, 11, 21, 12, 0, 0),
            civil(2020, 6, 11, 21, 0, 0),
        ]
    );
}

#[test]
fn a_phrase_that_nobody_reads_has_no_candidate() {
    assert_eq!(parse_at("the day after tomorrow", &summer()), vec![]);
    assert_eq!(parse("the day after tomorrow"), vec![]);
}

#[test]
fn a_standard_date_goes_through_the_dispatcher() {
    let found = parse("2020-06-15T12:00:00+00:00");
    assert_eq!(found.len(), 1);
    assert_eq!(found[0].timestamp, 1592222400);
    let log = parse("2018-11-21 11:21:11.123 +0800 CST");
    assert_eq!(log.len(), 1);
    assert_eq!(log[0].timestamp, 1542770471);
}

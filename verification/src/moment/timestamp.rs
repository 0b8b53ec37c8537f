//! A number of seconds or of milliseconds since the epoch.

use crate::clock::{at, Moment};
use crate::text::{i64_of, parse_i64, parse_whole, whole_within};
use vstd::prelude::*;

verus! {

/// The first year in which a timestamp is taken to lie.
pub const FIRST_YEAR: i32 = 2010;

/// The last year in which a timestamp is taken to lie.
pub const LAST_YEAR: i32 = 2030;

/// The local year of `m` is one in which a timestamp is taken to lie. A
/// number that is meant as milliseconds lies far outside when it is read
/// as seconds, and the other way round: that tells the two apart.
pub open spec fn plausible(m: Moment) -> bool {
    FIRST_YEAR <= m.year <= LAST_YEAR
}

/// `m`, where there is one and its year is plausible.
pub open spec fn kept(m: Option<Moment>) -> Option<Moment> {
    match m {
        Some(m) if plausible(m) => Some(m),
        _ => None,
    }
}

/// The whole seconds in `ms` milliseconds, rounded towards the epoch.
pub open spec fn whole_seconds(ms: i64) -> i64 {
    if ms >= 0 {
        (ms / 1000) as i64
    } else {
        (-((-ms) / 1000)) as i64
    }
}

/// Keeps a moment whose year is plausible.
pub fn keep(m: Option<Moment>) -> (r: Option<Moment>)
    ensures
        r == kept(m),
{
    match m {
        Some(m) => {
            if FIRST_YEAR <= m.year && m.year <= LAST_YEAR {
                Some(m)
            } else {
                None
            }
        },
        None => None,
    }
}

/// Reads `s` as whole seconds since the epoch.
pub fn parse_sec(s: &str) -> (r: Option<Moment>)
    ensures
        i64_of(s@) is None ==> r is None,
        r matches Some(m) ==> i64_of(s@) == Some(m.timestamp) && plausible(m) && m.well_formed(),
{
    match parse_i64(s) {
        Some(sec) => keep(at(sec)),
        None => None,
    }
}

/// Reads `s` as whole milliseconds since the epoch.
pub fn parse_ms(s: &str) -> (r: Option<Moment>)
    ensures
        i64_of(s@) is None ==> r is None,
        r matches Some(m) ==> i64_of(s@) is Some && whole_seconds(i64_of(s@)->0) == m.timestamp
            && plausible(m) && m.well_formed(),
{
    match parse_i64(s) {
        Some(ms) => {
            let sec: i64 = if ms >= 0 {
                ((ms as u64) / 1000) as i64
            } else if ms == i64::MIN {
                -9_223_372_036_854_775
            } else {
                -((((-ms) as u64) / 1000) as i64)
            };
            keep(at(sec))
        },
        None => None,
    }
}

/// Reads `s` as seconds since the epoch with a fraction, which is dropped.
pub fn parse_float_sec(s: &str) -> (r: Option<Moment>)
    ensures
        whole_within(s@, i64::MIN, i64::MAX) is None ==> r is None,
        r matches Some(m) ==> whole_within(s@, i64::MIN, i64::MAX) == Some(m.timestamp)
            && plausible(m) && m.well_formed(),
{
    match parse_whole(s, i64::MIN, i64::MAX) {
        Some(sec) => keep(at(sec)),
        None => None,
    }
}

/// The one candidate among three readings: the first that there is.
pub open spec fn first_of(sec: Option<Moment>, ms: Option<Moment>, float_sec: Option<Moment>)
    -> Option<Moment> {
    if sec is Some {
        sec
    } else if ms is Some {
        ms
    } else {
        float_sec
    }
}

/// Chooses among the three readings of a number: as seconds, as
/// milliseconds, as seconds with a fraction. The first that there is wins,
/// so a number that is plausible only as milliseconds is taken as
/// milliseconds.
pub fn pick(sec: Option<Moment>, ms: Option<Moment>, float_sec: Option<Moment>) -> (r: Option<
    Vec<Moment>,
>)
    ensures
        first_of(sec, ms, float_sec) is None ==> r is None,
        first_of(sec, ms, float_sec) matches Some(m) ==> (r matches Some(v) && v@ == seq![m]),
        sec is None && ms is Some ==> (r matches Some(v) && v@ == seq![ms->0]),
{
    let first = if sec.is_some() {
        sec
    } else if ms.is_some() {
        ms
    } else {
        float_sec
    };
    match first {
        Some(m) => {
            let mut v: Vec<Moment> = Vec::new();
            v.push(m);
            Some(v)
        },
        None => None,
    }
}

/// `m` is what `s` says as a timestamp, in one of its three readings, and
/// its year is plausible.
pub open spec fn reads(s: Seq<char>, m: Moment) -> bool {
    &&& plausible(m)
    &&& {
        ||| i64_of(s) == Some(m.timestamp)
        ||| i64_of(s) is Some && whole_seconds(i64_of(s)->0) == m.timestamp
        ||| whole_within(s, i64::MIN, i64::MAX) == Some(m.timestamp)
    }
}

/// Reads `s` as a timestamp: whole seconds, whole milliseconds, or seconds
/// with a fraction, whichever is first to give a plausible year.
pub fn parse(s: &str) -> (r: Option<Vec<Moment>>)
    ensures
        i64_of(s@) is None && whole_within(s@, i64::MIN, i64::MAX) is None ==> r is None,
        r matches Some(v) ==> v@.len() == 1 && v@[0].well_formed() && reads(s@, v@[0]),
{
    pick(parse_sec(s), parse_ms(s), parse_float_sec(s))
}

} // verus!

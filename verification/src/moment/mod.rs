//! The readers of a moment phrase: each takes the whole phrase and gives the
//! moments that it can be read as.

pub mod date;
pub mod date_time;
pub mod go;
pub mod now;
pub mod standard;
pub mod time;
pub mod timestamp;

use crate::clock::{layout_seconds, now as local_now, Moment};
use vstd::prelude::*;

verus! {

/// The candidates of a reader that asked the clock for one moment: that
/// moment where the clock gave one, and failure where it gave none.
pub fn candidate(found: Option<Moment>) -> (r: Option<Vec<Moment>>)
    ensures
        found is None ==> r is None,
        found matches Some(m) ==> (r matches Some(v) && v@ == seq![m]),
{
    match found {
        Some(m) => {
            let mut v: Vec<Moment> = Vec::new();
            v.push(m);
            Some(v)
        },
        None => None,
    }
}

/// One of the readers takes the phrase `s`, at the present moment `now`, to
/// say `m`.
pub open spec fn read_as(s: Seq<char>, now: Moment, m: Moment) -> bool {
    ||| timestamp::reads(s, m)
    ||| (s.len() == 0 && m == now)
    ||| (time::split_spec(s) matches Some(a) && a.valid() && m.civil() == a.civil_on(now))
    ||| (date::split_spec(s, now) matches Some(a) && a.valid() && m.civil() == a.civil_at(now))
    ||| (exists|j: int|
        0 <= j < date_time::requests_of(s, now).len() && date_time::requests_of(s, now)[j]
            == m.civil())
    ||| standard::seconds_of(s) == Some(m.timestamp)
    ||| layout_seconds(go::LAYOUT@, go::head_of(s)) == Some(m.timestamp)
}

/// One of `found` is the instant `seconds` after the epoch.
pub open spec fn holds_instant(found: Seq<Moment>, seconds: i64) -> bool {
    exists|i: int| 0 <= i < found.len() && (#[trigger] found[i]).timestamp == seconds
}

/// `found` are candidates of the phrase `s` at the present moment `now`:
/// each is what one of the readers takes `s` to say; for the empty phrase
/// the present moment is among them; and for a phrase in one of the RFC
/// forms or in the log form the instant that it writes is among them.
pub open spec fn read_at(s: Seq<char>, now: Moment, found: Seq<Moment>) -> bool {
    &&& forall|i: int| 0 <= i < found.len() ==> read_as(s, now, #[trigger] found[i])
    &&& s.len() == 0 ==> found.contains(now)
    &&& standard::seconds_of(s) matches Some(seconds) ==> holds_instant(found, seconds)
    &&& layout_seconds(go::LAYOUT@, go::head_of(s)) matches Some(seconds) ==> holds_instant(
        found,
        seconds,
    )
}

/// Adds the candidates of one reader, if it gave any, to `out`.
pub fn gather(out: &mut Vec<Moment>, more: Option<Vec<Moment>>)
    ensures
        more is None ==> final(out)@ == old(out)@,
        more matches Some(v) ==> final(out)@ == old(out)@ + v@,
{
    match more {
        Some(v) => {
            let mut v = v;
            out.append(&mut v);
        },
        None => {},
    }
}

/// Reads the phrase `s` with every reader, `now` being the present moment,
/// and gives all their candidates: those of the timestamp reader first, then
/// the present moment for the empty phrase, then time, date, date with
/// time, the RFC forms and the log form.
///
/// Every candidate is what one of the readers takes `s` to say. A reader
/// that cannot read `s` adds nothing, and so does one whose reading the
/// local clock cannot show. The readers of the RFC forms and of the log
/// form read an instant, which the local clock always shows.
pub fn parse_at(s: &str, now: &Moment) -> (r: Vec<Moment>)
    ensures
        read_at(s@, *now, r@),
{
    let mut out: Vec<Moment> = Vec::new();
    gather(&mut out, timestamp::parse(s));
    let ghost a = out@;
    gather(&mut out, now::parse(s, now));
    let ghost b = out@;
    proof {
        if s@.len() == 0 {
            assert(b[a.len() as int] == *now);
        }
    }
    gather(&mut out, time::parse(s, now));
    let ghost c = out@;
    gather(&mut out, date::parse(s, now));
    let ghost d = out@;
    let both = date_time::parse(s, now);
    proof {
        let v = both->0@;
        assert forall|i: int| 0 <= i < v.len() implies read_as(s@, *now, #[trigger] v[i]) by {
            assert(v[i].well_formed());
        }
    }
    gather(&mut out, both);
    let ghost e = out@;
    gather(&mut out, standard::parse(s));
    let ghost f = out@;
    gather(&mut out, go::parse(s));
    proof {
        assert forall|i: int| 0 <= i < out@.len() implies read_as(s@, *now, #[trigger] out@[i]) by {
            if i < a.len() {
                assert(out@[i] == a[i]);
            } else if i < b.len() {
                assert(out@[i] == b[i]);
            } else if i < c.len() {
                assert(out@[i] == c[i]);
            } else if i < d.len() {
                assert(out@[i] == d[i]);
            } else if i < e.len() {
                assert(out@[i] == e[i]);
                assert(e[i] == both->0@[i - d.len()]);
            } else if i < f.len() {
                assert(out@[i] == f[i]);
            }
        }
        if s@.len() == 0 {
            assert(out@[a.len() as int] == *now);
        }
        if standard::seconds_of(s@) is Some {
            assert(out@[e.len() as int].timestamp == standard::seconds_of(s@)->0);
        }
        if layout_seconds(go::LAYOUT@, go::head_of(s@)) is Some {
            assert(out@[f.len() as int].timestamp == layout_seconds(
                go::LAYOUT@,
                go::head_of(s@),
            )->0);
        }
    }
    out
}

/// Reads the phrase `s` with every reader, at the present moment.
///
/// What the candidates are depends on the moment at which this runs and on
/// the machine's time zone: `parse_at` says what they are for a given
/// moment.
pub fn parse(s: &str) -> (r: Vec<Moment>)
    ensures
        exists|now: Moment| now.well_formed() && read_at(s@, now, r@),
{
    let now = local_now();
    let found = parse_at(s, &now);
    assert(now.well_formed() && read_at(s@, now, found@));
    found
}

} // verus!

//! A date followed by a time. The phrase is cut at every word boundary, and
//! every cut whose left side is a date and whose right side is a time
//! counts; so does the form `date/time`.

use crate::clock::{on, Civil, Moment};
use crate::moment::{date, time};
use crate::text::{chars_of, first_index, join_range, joined, lemma_first_index, split_words, texts, words};
use vstd::prelude::*;

verus! {

/// The reading that a date text and a time text ask for, where each is
/// what it should be and in range.
pub open spec fn request_of(date_text: Seq<char>, time_text: Seq<char>, now: Moment) -> Option<
    Civil,
> {
    match (date::split_spec(date_text, now), time::split_spec(time_text)) {
        (Some(d), Some(t)) => if d.valid() && t.valid() {
            Some(
                Civil {
                    year: d.year,
                    month: d.month,
                    day: d.day,
                    hour: t.hour,
                    minute: t.minute,
                    second: t.second,
                },
            )
        } else {
            None
        },
        _ => None,
    }
}

/// The reading that `words` ask for when cut before word `at`.
pub open spec fn cut_request(words: Seq<Seq<char>>, at: int, now: Moment) -> Option<Civil> {
    request_of(
        joined(words.subrange(0, at), seq![' ']),
        joined(words.subrange(at, words.len() as int), seq![' ']),
        now,
    )
}

/// The readings that the cuts before the first `upto` words ask for, in
/// the order of the cuts.
pub open spec fn cut_requests(words: Seq<Seq<char>>, upto: int, now: Moment) -> Seq<Civil>
    decreases upto,
{
    if upto <= 0 {
        Seq::empty()
    } else {
        match cut_request(words, upto - 1, now) {
            Some(c) => cut_requests(words, upto - 1, now).push(c),
            None => cut_requests(words, upto - 1, now),
        }
    }
}

/// The two sides of the one slash in `s`.
pub open spec fn slash_sides(s: Seq<char>) -> Option<(Seq<char>, Seq<char>)> {
    let at = first_index(s, '/');
    if at < s.len() && first_index(s.skip(at + 1), '/') == s.len() - at - 1 {
        Some((s.take(at), s.skip(at + 1)))
    } else {
        None
    }
}

/// The reading that `s` asks for in the form `date/time`.
pub open spec fn slash_request(s: Seq<char>, now: Moment) -> Option<Civil> {
    match slash_sides(s) {
        Some((d, t)) => request_of(d, t, now),
        None => None,
    }
}

/// Every reading that `s` asks for as a date with a time: those of the
/// cuts, in order, and then that of the form `date/time`.
pub open spec fn requests_of(s: Seq<char>, now: Moment) -> Seq<Civil> {
    let cuts = cut_requests(words(s), words(s).len() as int, now);
    match slash_request(s, now) {
        Some(c) => cuts.push(c),
        None => cuts,
    }
}

/// The reading that a date text and a time text ask for.
pub fn request(date_text: &str, time_text: &str, now: &Moment) -> (r: Option<Civil>)
    ensures
        r == request_of(date_text@, time_text@, *now),
{
    let d = match date::split(date_text, now) {
        Some(d) => d,
        None => {
            return None;
        },
    };
    let t = match time::split(time_text) {
        Some(t) => t,
        None => {
            return None;
        },
    };
    if d.validate() && t.validate() {
        Some(
            Civil {
                year: d.year,
                month: d.month,
                day: d.day,
                hour: t.hour,
                minute: t.minute,
                second: t.second,
            },
        )
    } else {
        None
    }
}

/// Cuts `s` at its one slash.
pub fn split_slash(s: &str) -> (r: Option<(String, String)>)
    ensures
        r is Some == slash_sides(s@) is Some,
        r matches Some(p) ==> (p.0@, p.1@) == slash_sides(s@)->0,
{
    let cs = chars_of(s);
    let n = cs.len();
    let mut at: usize = 0;
    while at < n && cs[at] != '/'
        invariant
            n == cs.len(),
            at <= n,
            forall|j: int| 0 <= j < at ==> cs@[j] != '/',
        decreases n - at,
    {
        at += 1;
    }
    proof {
        lemma_first_index(s@, '/', at as int);
    }
    if at == n {
        return None;
    }
    let ghost rest = s@.skip(at + 1);
    let mut next: usize = at + 1;
    while next < n && cs[next] != '/'
        invariant
            n == cs.len(),
            at < next <= n,
            rest == cs@.skip(at + 1),
            forall|j: int| 0 <= j < next - at - 1 ==> rest[j] != '/',
        decreases n - next,
    {
        next += 1;
    }
    proof {
        lemma_first_index(rest, '/', next - at - 1);
    }
    if next < n {
        return None;
    }
    let left = s.substring_char(0, at).to_owned();
    let right = s.substring_char(at + 1, n).to_owned();
    assert(left@ =~= s@.take(at as int));
    assert(right@ =~= s@.skip(at + 1));
    Some((left, right))
}

/// Reads `s` in the form `date/time`, as in `2018-11-21/11:21:11`.
pub fn parse_case1(s: &str, now: &Moment) -> (r: Option<Moment>)
    ensures
        slash_request(s@, *now) is None ==> r is None,
        r matches Some(m) ==> m.well_formed() && slash_request(s@, *now) == Some(m.civil()),
{
    match split_slash(s) {
        Some((d, t)) => match request(d.as_str(), t.as_str(), now) {
            Some(c) => on(c),
            None => None,
        },
        None => None,
    }
}

/// Every reading that `s` asks for as a date with a time.
pub fn requests(s: &str, now: &Moment) -> (r: Vec<Civil>)
    ensures
        r@ == requests_of(s@, *now),
{
    let all = split_words(s);
    let n = all.len();
    let mut out: Vec<Civil> = Vec::new();
    let mut at: usize = 0;
    while at < n
        invariant
            n == all.len(),
            at <= n,
            texts(all@) == words(s@),
            out@ == cut_requests(words(s@), at as int, *now),
        decreases n - at,
    {
        let date_text = join_range(&all, 0, at);
        let time_text = join_range(&all, at, n);
        if let Some(c) = request(date_text.as_str(), time_text.as_str(), now) {
            out.push(c);
        }
        at += 1;
    }
    if let Some((d, t)) = split_slash(s) {
        if let Some(c) = request(d.as_str(), t.as_str(), now) {
            out.push(c);
        }
    }
    out
}

/// Reads `s` as a date followed by a time. A phrase that can be cut in more
/// than one way gives more than one moment.
///
/// Every moment that it gives shows, on the local clock, one of the
/// readings of `requests_of`, a later moment a later or the same one. A
/// reading gives no moment where the calendar has no such day, and where
/// the local clock never shows it, or shows it twice.
pub fn parse(s: &str, now: &Moment) -> (r: Option<Vec<Moment>>)
    ensures
        r is Some,
        r->0@.len() <= requests_of(s@, *now).len(),
        forall|i: int|
            0 <= i < r->0@.len() ==> (#[trigger] r->0@[i]).well_formed() && exists|j: int|
                i <= j < requests_of(s@, *now).len() && requests_of(s@, *now)[j] == r->0@[i].civil(),
{
    let asked = requests(s, now);
    let mut ret: Vec<Moment> = Vec::new();
    let mut j: usize = 0;
    while j < asked.len()
        invariant
            j <= asked.len(),
            ret@.len() <= j,
            asked@ == requests_of(s@, *now),
            forall|i: int|
                0 <= i < ret@.len() ==> (#[trigger] ret@[i]).well_formed() && exists|k: int|
                    i <= k < j && asked@[k] == ret@[i].civil(),
        decreases asked.len() - j,
    {
        let ghost before = ret@;
        if let Some(m) = on(asked[j]) {
            ret.push(m);
        }
        proof {
            assert forall|i: int| 0 <= i < ret@.len() implies (#[trigger] ret@[i]).well_formed()
                && exists|k: int| i <= k < j + 1 && asked@[k] == ret@[i].civil() by {
                if i < before.len() {
                    assert(ret@[i] == before[i]);
                    let k = choose|k: int| i <= k < j && asked@[k] == before[i].civil();
                    assert(i <= k < j + 1 && asked@[k] == ret@[i].civil());
                } else {
                    assert(i <= j < j + 1 && asked@[j as int] == ret@[i].civil());
                }
            }
        }
        j += 1;
    }
    proof {
        let all = requests_of(s@, *now);
        assert forall|i: int| 0 <= i < ret@.len() implies (#[trigger] ret@[i]).well_formed()
            && exists|k: int| i <= k < all.len() && all[k] == ret@[i].civil() by {
            let k = choose|k: int| i <= k < j && asked@[k] == ret@[i].civil();
            assert(i <= k < all.len() && all[k] == ret@[i].civil());
        }
    }
    Some(ret)
}

} // verus!

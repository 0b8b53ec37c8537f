//! A date: day, month and day, or year, month and day, separated by white
//! space, slashes or hyphens. The time of day is the present one.

use crate::clock::{days_in, on, Civil, Moment};
use crate::moment::candidate;
use crate::pattern::{split as split_at, split_of};
use crate::text::{parse_u32, texts, u32_of};
use vstd::prelude::*;

verus! {

/// What separates the fields of a date.
pub const SEPARATOR: &'static str = r"[\s/\-]";

/// The fields of a date, as read and not yet checked.
#[derive(Clone, Copy, Debug, Default, PartialEq, Eq, Structural)]
pub struct Args {
    pub year: i32,
    pub month: u32,
    pub day: u32,
}

/// The year that `y` stands for: a year of one or two digits is one of the
/// hundred years from 1970 on.
pub open spec fn windowed(y: int) -> int {
    if 0 < y < 100 {
        if y >= 70 {
            y + 1900
        } else {
            y + 2000
        }
    } else {
        y
    }
}

/// The year of a field that was read as an unsigned number: the same bits,
/// taken as a signed number.
pub open spec fn year_of(n: u32) -> i32 {
    if n <= i32::MAX {
        n as i32
    } else {
        (n - 0x1_0000_0000) as i32
    }
}

impl Args {
    /// A calendar of the years after 1970, up to 2050, can show these
    /// fields, if the month is long enough.
    pub open spec fn valid(&self) -> bool {
        &&& 1970 < self.year <= 2050
        &&& 0 < self.month <= 12
        &&& 0 < self.day <= 31
    }

    /// These fields at the time of day of `now`.
    pub open spec fn civil_at(&self, now: Moment) -> Civil {
        Civil {
            year: self.year,
            month: self.month,
            day: self.day,
            hour: now.hour,
            minute: now.minute,
            second: now.second,
        }
    }

    /// The date of year `y`, month `m` and day `d`, a short year widened.
    pub fn new(y: i32, m: u32, d: u32) -> (r: Args)
        ensures
            r == (Args { year: windowed(y as int) as i32, month: m, day: d }),
    {
        let year = if 0 < y && y < 100 {
            if y >= 70 {
                y + 1900
            } else {
                y + 2000
            }
        } else {
            y
        };
        Args { year, month: m, day: d }
    }

    /// Whether the fields are in the ranges of `valid`.
    pub fn validate(&self) -> (r: bool)
        ensures
            r == self.valid(),
    {
        (1970 < self.year && self.year <= 2050) && (0 < self.month && self.month <= 12) && (0
            < self.day && self.day <= 31)
    }

    /// These fields at the time of day of `now`.
    pub fn at_time_of(&self, now: &Moment) -> (r: Civil)
        ensures
            r == self.civil_at(*now),
    {
        Civil {
            year: self.year,
            month: self.month,
            day: self.day,
            hour: now.hour,
            minute: now.minute,
            second: now.second,
        }
    }
}

/// The numbers that `parts` write, where each of them writes one.
pub open spec fn numbers_of(parts: Seq<Seq<char>>) -> Option<Seq<u32>> {
    if forall|i: int| 0 <= i < parts.len() ==> u32_of(#[trigger] parts[i]) is Some {
        Some(Seq::new(parts.len(), |i: int| u32_of(parts[i])->0))
    } else {
        None
    }
}

/// The date that the fields `numbers` give: one field is a day of the
/// present month, two are a month and a day of the present year, three are
/// a year, a month and a day.
pub open spec fn date_of(numbers: Seq<u32>, now: Moment) -> Option<Args> {
    if numbers.len() == 1 {
        Some(Args { year: windowed(now.year as int) as i32, month: now.month, day: numbers[0] })
    } else if numbers.len() == 2 {
        Some(Args { year: windowed(now.year as int) as i32, month: numbers[0], day: numbers[1] })
    } else if numbers.len() == 3 {
        Some(
            Args {
                year: windowed(year_of(numbers[0]) as int) as i32,
                month: numbers[1],
                day: numbers[2],
            },
        )
    } else {
        None
    }
}

/// The date that `s` writes, not yet checked.
pub open spec fn split_spec(s: Seq<char>, now: Moment) -> Option<Args> {
    match split_of(SEPARATOR@, s) {
        Some(parts) => match numbers_of(parts) {
            Some(numbers) => date_of(numbers, now),
            None => None,
        },
        None => None,
    }
}

/// The items of `v`, where none of them is missing.
pub fn try_vec<T>(v: Vec<Option<T>>) -> (r: Option<Vec<T>>)
    ensures
        r is Some <==> forall|i: int| 0 <= i < v@.len() ==> (#[trigger] v@[i]) is Some,
        r matches Some(w) ==> w@.len() == v@.len() && forall|i: int|
            0 <= i < v@.len() ==> w@[i] == (#[trigger] v@[i])->0,
{
    let ghost all = v@;
    let mut rest = v;
    let mut out: Vec<T> = Vec::new();
    while rest.len() > 0
        invariant
            all == v@,
            out@.len() + rest@.len() == all.len(),
            forall|i: int| 0 <= i < out@.len() ==> (#[trigger] all[i]) == Some(out@[i]),
            forall|i: int| 0 <= i < rest@.len() ==> rest@[i] == all[out@.len() + i],
        decreases rest@.len(),
    {
        let ghost at = out@.len() as int;
        assert(rest@[0] == all[at]);
        match rest.remove(0) {
            Some(item) => {
                out.push(item);
            },
            None => {
                assert(v@[at] is None);
                return None;
            },
        }
    }
    Some(out)
}

/// Reads the date that the fields `numbers` give.
pub fn from_numbers(numbers: &Vec<u32>, now: &Moment) -> (r: Option<Args>)
    ensures
        r == date_of(numbers@, *now),
{
    if numbers.len() == 1 {
        Some(Args::new(now.year, now.month, numbers[0]))
    } else if numbers.len() == 2 {
        Some(Args::new(now.year, numbers[0], numbers[1]))
    } else if numbers.len() == 3 {
        let n = numbers[0];
        let year: i32 = if n <= 0x7fff_ffff {
            n as i32
        } else {
            (n as i64 - 0x1_0000_0000) as i32
        };
        Some(Args::new(year, numbers[1], numbers[2]))
    } else {
        None
    }
}

/// Reads the fields of the date that `s` writes, without checking them.
pub fn split(s: &str, now: &Moment) -> (r: Option<Args>)
    ensures
        r == split_spec(s@, *now),
{
    let parts = match split_at(SEPARATOR, s) {
        Some(parts) => parts,
        None => {
            return None;
        },
    };
    let ghost all = texts(parts@);
    let mut read: Vec<Option<u32>> = Vec::new();
    let mut i: usize = 0;
    while i < parts.len()
        invariant
            i <= parts.len(),
            all == texts(parts@),
            read@.len() == i,
            forall|j: int| 0 <= j < i ==> (#[trigger] read@[j]) == u32_of(all[j]),
        decreases parts.len() - i,
    {
        read.push(parse_u32(parts[i].as_str()));
        i += 1;
    }
    match try_vec(read) {
        Some(numbers) => {
            proof {
                assert forall|j: int| 0 <= j < all.len() implies u32_of(#[trigger] all[j])
                    is Some by {
                    assert(read@[j] is Some);
                }
                assert forall|j: int| 0 <= j < all.len() implies numbers@[j] == numbers_of(
                    all,
                )->0[j] by {
                    assert(numbers@[j] == read@[j]->0);
                }
                assert(numbers@ =~= numbers_of(all)->0);
            }
            from_numbers(&numbers, now)
        },
        None => {
            assert(numbers_of(all) is None) by {
                let j = choose|j: int| 0 <= j < read@.len() && !((#[trigger] read@[j]) is Some);
                assert(u32_of(all[j]) is None);
            }
            None
        },
    }
}

/// Three fields that write a year from 1971 to 2050, a month and a day are
/// read as that date, whatever the present moment is, and the date is in
/// range. So `parse` gives for them one candidate, of that date, or none
/// where the local clock cannot show it.
pub proof fn lemma_three_fields(s: Seq<char>, now: Moment, year: u32, month: u32, day: u32)
    requires
        split_of(SEPARATOR@, s) is Some,
        numbers_of(split_of(SEPARATOR@, s)->0) == Some(seq![year, month, day]),
        1971 <= year <= 2050,
        1 <= month <= 12,
        1 <= day <= 31,
    ensures
        split_spec(s, now) == Some(Args { year: year as i32, month, day }),
        split_spec(s, now)->0.valid(),
{
}

/// Reads `s` as a date, at the time of day of `now`.
///
/// Where it gives a moment, the local clock shows at that moment the date
/// that `s` writes. It gives none where `s` writes no date in the ranges of
/// `Args::valid`, where the calendar has no such day, and where the local
/// clock never shows that time on it, or shows it twice.
pub fn parse(s: &str, now: &Moment) -> (r: Option<Vec<Moment>>)
    ensures
        !(split_spec(s@, *now) matches Some(a) && a.valid()) ==> r is None,
        r matches Some(v) ==> v@.len() == 1 && v@[0].well_formed() && v@[0].civil() == split_spec(
            s@,
            *now,
        )->0.civil_at(*now),
        split_spec(s@, *now) matches Some(a) && a.day > days_in(a.year as int, a.month as int)
            ==> r is None,
{
    match split(s, now) {
        Some(args) => {
            if args.validate() {
                candidate(on(args.at_time_of(now)))
            } else {
                None
            }
        },
        None => None,
    }
}

} // verus!

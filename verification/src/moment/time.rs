//! A time of day: hour, minute, seconds and an AM/PM marker, separated by
//! white space or colons. The date is today's.

use crate::clock::{on, Civil, Moment};
use crate::moment::candidate;
use crate::pattern::{capture, capture_of, is_match, is_match_of, split as split_at, split_of};
use crate::text::{parse_u32, parse_whole, texts, u32_of, whole_within};
use vstd::prelude::*;

verus! {

/// What separates the fields of a time.
pub const SEPARATOR: &'static str = r"[\s:]";

/// The marker of the first half of the day.
pub const AM_PATTERN: &'static str = r"(?i)^a\.?m\.?$";

/// The marker of the second half of the day.
pub const PM_PATTERN: &'static str = r"(?i)^p\.?m\.?$";

/// A value with a marker at its end, as in `9pm` and `00a.m.`.
pub const FUSED: &'static str = r"(?i)^(.+?)([ap]\.?m\.?)$";

/// The fields of a time of day, as read and not yet checked.
#[derive(Clone, Copy, Debug, Default, PartialEq, Eq, Structural)]
pub struct Args {
    pub hour: u32,
    pub minute: u32,
    pub second: u32,
}

/// The half of the day that a marker names.
#[derive(Clone, Copy, Debug, PartialEq, Eq, Structural)]
pub enum AmPm {
    AM,
    PM,
}

impl Args {
    /// A clock can show these fields.
    pub open spec fn valid(&self) -> bool {
        self.hour < 24 && self.minute < 60 && self.second < 60
    }

    /// These fields on the day that `now` falls on.
    pub open spec fn civil_on(&self, now: Moment) -> Civil {
        Civil {
            year: now.year,
            month: now.month,
            day: now.day,
            hour: self.hour,
            minute: self.minute,
            second: self.second,
        }
    }

    /// Whether a clock can show these fields.
    pub fn validate(&self) -> (r: bool)
        ensures
            r == self.valid(),
    {
        self.hour < 24 && self.minute < 60 && self.second < 60
    }

    /// These fields on the day that `now` falls on.
    pub fn on_day_of(&self, now: &Moment) -> (r: Civil)
        ensures
            r == self.civil_on(*now),
    {
        Civil {
            year: now.year,
            month: now.month,
            day: now.day,
            hour: self.hour,
            minute: self.minute,
            second: self.second,
        }
    }
}

/// The half of the day that `s` names, if it is a marker.
pub open spec fn marker_of(s: Seq<char>) -> Option<AmPm> {
    if is_match_of(AM_PATTERN@, s) == Some(true) {
        Some(AmPm::AM)
    } else if is_match_of(PM_PATTERN@, s) == Some(true) {
        Some(AmPm::PM)
    } else {
        None
    }
}

/// Reads an AM/PM marker.
pub fn parse_am_pm(s: &str) -> (r: Option<AmPm>)
    ensures
        r == marker_of(s@),
{
    match is_match(AM_PATTERN, s) {
        Some(true) => {
            return Some(AmPm::AM);
        },
        _ => {},
    }
    match is_match(PM_PATTERN, s) {
        Some(true) => Some(AmPm::PM),
        _ => None,
    }
}

/// The hour of the day that `hour` is under `marker`; `None` where `hour`
/// is more than 12. A PM hour is 12 later, noon included: 12 PM becomes 24,
/// which no clock shows, so `Args::valid` refuses it.
pub open spec fn hour_under(hour: u32, marker: AmPm) -> Option<u32> {
    if hour > 12 {
        None
    } else {
        match marker {
            AmPm::AM => Some(hour),
            AmPm::PM => Some((hour + 12) as u32),
        }
    }
}

/// The hour of the day that `hour` is under `marker`. This is the one place
/// that knows the rule of the marker.
pub fn meridiem_hour(hour: u32, marker: AmPm) -> (r: Option<u32>)
    ensures
        r == hour_under(hour, marker),
{
    if hour > 12 {
        None
    } else {
        match marker {
            AmPm::AM => Some(hour),
            AmPm::PM => Some(hour + 12),
        }
    }
}

/// Where the first marker stands among `tokens`; their number where none
/// of them is a marker.
pub open spec fn first_marker(tokens: Seq<Seq<char>>) -> int
    decreases tokens.len(),
{
    if tokens.len() == 0 || marker_of(tokens[0]) is Some {
        0
    } else {
        1 + first_marker(tokens.skip(1))
    }
}

/// Where no marker stands among the first `k` tokens, the first marker
/// stands at `k` or later.
pub proof fn lemma_first_marker(tokens: Seq<Seq<char>>, k: int)
    requires
        0 <= k <= tokens.len(),
        forall|j: int| 0 <= j < k ==> marker_of(#[trigger] tokens[j]) is None,
    ensures
        k <= first_marker(tokens) <= tokens.len(),
        k < tokens.len() && marker_of(tokens[k]) is Some ==> first_marker(tokens) == k,
    decreases tokens.len(),
{
    if tokens.len() == 0 {
    } else if k == 0 {
        if marker_of(tokens[0]) is None {
            lemma_first_marker(tokens.skip(1), 0);
        }
    } else {
        assert(marker_of(tokens[0]) is None);
        assert forall|j: int| 0 <= j < k - 1 implies marker_of(#[trigger] tokens.skip(1)[j])
            is None by {
            assert(tokens.skip(1)[j] == tokens[j + 1]);
        }
        lemma_first_marker(tokens.skip(1), k - 1);
    }
}

/// The seconds field: a decimal number, of which the whole seconds count.
/// A number below 0 counts as 0, and one beyond 32 bits as the most that 32
/// bits hold.
pub open spec fn seconds_of(s: Seq<char>) -> Option<u32> {
    match whole_within(s, 0, 0xffff_ffff) {
        Some(v) => Some(v as u32),
        None => None,
    }
}

/// The time that `tokens` write.
///
/// At most one marker is taken out, the first, and only where it stands
/// among the first four tokens. Of the tokens that are left the first is the
/// hour, the second the minute and the third the seconds; minute and seconds
/// are 0 where their token is missing. With no marker taken out there may be
/// no fourth token; with one, what follows the seconds is not read.
pub open spec fn time_of(tokens: Seq<Seq<char>>) -> Option<Args> {
    let at = first_marker(tokens);
    let marked = at < tokens.len() && at <= 3;
    let values = if marked {
        tokens.remove(at)
    } else {
        tokens
    };
    if values.len() == 0 || (!marked && values.len() > 3) {
        None
    } else {
        let hour = u32_of(values[0]);
        let minute = if values.len() > 1 {
            u32_of(values[1])
        } else {
            Some(0u32)
        };
        let second = if values.len() > 2 {
            seconds_of(values[2])
        } else {
            Some(0u32)
        };
        if hour is Some && minute is Some && second is Some {
            if marked {
                match hour_under(hour->0, marker_of(tokens[at])->0) {
                    Some(h) => Some(Args { hour: h, minute: minute->0, second: second->0 }),
                    None => None,
                }
            } else {
                Some(Args { hour: hour->0, minute: minute->0, second: second->0 })
            }
        } else {
            None
        }
    }
}

/// The tokens that `piece` stands for: a value and a marker where it is a
/// value with a marker at its end, and else itself.
pub open spec fn unfused(piece: Seq<char>) -> Seq<Seq<char>> {
    match (capture_of(FUSED@, piece, 1), capture_of(FUSED@, piece, 2)) {
        (Some(value), Some(marker)) => seq![value, marker],
        _ => seq![piece],
    }
}

/// The tokens that `pieces` stand for, in order.
pub open spec fn tokens_of(pieces: Seq<Seq<char>>) -> Seq<Seq<char>>
    decreases pieces.len(),
{
    if pieces.len() == 0 {
        Seq::empty()
    } else {
        tokens_of(pieces.drop_last()) + unfused(pieces.last())
    }
}

/// The time that `s` writes, not yet checked: `s` is cut at white space and
/// colons, a marker at the end of a piece is taken off it, and the tokens
/// are read as `time_of` says.
pub open spec fn split_spec(s: Seq<char>) -> Option<Args> {
    match split_of(SEPARATOR@, s) {
        Some(pieces) => time_of(tokens_of(pieces)),
        None => None,
    }
}

/// Takes the markers off the ends of the pieces that carry one.
pub fn unfuse(pieces: &Vec<String>) -> (r: Vec<String>)
    ensures
        texts(r@) == tokens_of(texts(pieces@)),
{
    let ghost all = texts(pieces@);
    let mut out: Vec<String> = Vec::new();
    let mut i: usize = 0;
    assert(all.take(0) =~= Seq::<Seq<char>>::empty());
    while i < pieces.len()
        invariant
            i <= pieces.len(),
            all == texts(pieces@),
            texts(out@) == tokens_of(all.take(i as int)),
        decreases pieces.len() - i,
    {
        let ghost before = texts(out@);
        proof {
            assert(all.take(i + 1).drop_last() =~= all.take(i as int));
            assert(all.take(i + 1).last() == pieces@[i as int]@);
        }
        let piece = pieces[i].as_str();
        match (capture(FUSED, piece, 1), capture(FUSED, piece, 2)) {
            (Some(value), Some(marker)) => {
                out.push(value);
                out.push(marker);
                assert(texts(out@) =~= before + seq![value@, marker@]);
            },
            _ => {
                let whole = pieces[i].clone();
                out.push(whole);
                assert(texts(out@) =~= before + seq![whole@]);
            },
        }
        i += 1;
    }
    assert(all.take(pieces.len() as int) =~= all);
    out
}

/// Reads the fields of the time that `tokens` write.
pub fn read_tokens(tokens: &Vec<String>) -> (r: Option<Args>)
    ensures
        r == time_of(texts(tokens@)),
{
    let ghost all = texts(tokens@);
    let n = tokens.len();
    let mut marker: Option<AmPm> = None;
    let mut at: usize = 0;
    while at < n && at <= 3
        invariant_except_break
            marker is None,
        invariant
            n == tokens.len(),
            all == texts(tokens@),
            at <= n,
            at <= 4,
            forall|j: int| 0 <= j < at ==> marker_of(#[trigger] all[j]) is None,
        ensures
            at <= n,
            at <= 4,
            forall|j: int| 0 <= j < at ==> marker_of(#[trigger] all[j]) is None,
            marker is Some ==> at < n && at <= 3 && marker == marker_of(all[at as int]),
            marker is None ==> at == n || at == 4,
        decreases n - at,
    {
        let found = parse_am_pm(tokens[at].as_str());
        if found.is_some() {
            marker = found;
            break;
        }
        at += 1;
    }
    proof {
        lemma_first_marker(all, at as int);
    }
    let marked = marker.is_some();
    assert(marked == (first_marker(all) < all.len() && first_marker(all) <= 3));
    let ghost values = if marked {
        all.remove(at as int)
    } else {
        all
    };
    let count: usize = if marked {
        n - 1
    } else {
        n
    };
    assert(count == values.len());
    if count == 0 || (!marked && count > 3) {
        return None;
    }
    let i0: usize = if marked && at == 0 {
        1
    } else {
        0
    };
    assert(all[i0 as int] == values[0]);
    let hour = parse_u32(tokens[i0].as_str());
    let minute = if count > 1 {
        let i1: usize = if marked && at <= 1 {
            2
        } else {
            1
        };
        assert(all[i1 as int] == values[1]);
        parse_u32(tokens[i1].as_str())
    } else {
        Some(0u32)
    };
    let second = if count > 2 {
        let i2: usize = if marked && at <= 2 {
            3
        } else {
            2
        };
        assert(all[i2 as int] == values[2]);
        match parse_whole(tokens[i2].as_str(), 0, 0xffff_ffff) {
            Some(v) => Some(v as u32),
            None => None,
        }
    } else {
        Some(0u32)
    };
    match (hour, minute, second) {
        (Some(h), Some(m), Some(s)) => {
            match marker {
                Some(half) => match meridiem_hour(h, half) {
                    Some(h24) => Some(Args { hour: h24, minute: m, second: s }),
                    None => None,
                },
                None => Some(Args { hour: h, minute: m, second: s }),
            }
        },
        _ => None,
    }
}

/// Reads the fields of the time that `s` writes, without checking them.
pub fn split(s: &str) -> (r: Option<Args>)
    ensures
        r == split_spec(s@),
{
    match split_at(SEPARATOR, s) {
        Some(pieces) => read_tokens(&unfuse(&pieces)),
        None => None,
    }
}

/// Reads `s` as a time of the day that `now` falls on.
///
/// Where it gives a moment, the local clock shows at that moment the time
/// that `s` writes. It gives none where `s` writes no time that a clock can
/// show, and where the local clock never shows it on that day, or shows it
/// twice.
pub fn parse(s: &str, now: &Moment) -> (r: Option<Vec<Moment>>)
    ensures
        !(split_spec(s@) matches Some(a) && a.valid()) ==> r is None,
        r matches Some(v) ==> v@.len() == 1 && v@[0].well_formed() && v@[0].civil()
            == split_spec(s@)->0.civil_on(*now),
{
    match split(s) {
        Some(args) => {
            if args.validate() {
                candidate(on(args.on_day_of(now)))
            } else {
                None
            }
        },
        None => None,
    }
}

} // verus!

//! A signed offset of calendar and clock fields, the phrases that write one,
//! and what it does to a moment.

use crate::clock::{at, on, Civil, Moment};
use crate::pattern::{capture, capture_of, find_all, is_match, is_match_of, matches_of};
use crate::text::{integer_within, parse_integer, texts};
use vstd::prelude::*;

verus! {

/// A number of years: `5y`, `5year`, in either case.
pub const YEAR: &'static str = r"^(\d+)(?i)y(?:ear)?$";

/// A number of months: `5M`, or `5month` in either case.
pub const MONTH: &'static str = r"^(\d+)((?i:month)|M)$";

/// A number of days: `5d`, `5day`, in either case.
pub const DAY: &'static str = r"^(\d+)(?i)d(?:ay)?$";

/// A number of hours: `5h`, `5hour`, in either case.
pub const HOUR: &'static str = r"^(\d+)(?i)h(?:our)?$";

/// A number of minutes: `5m`, or `5minute` in either case.
pub const MINUTE: &'static str = r"^(\d+)((?i:minute)|m)$";

/// A number of seconds: `5s`, `5second`, in either case.
pub const SECOND: &'static str = r"^(\d+)(?i)s(?:econd)?$";

/// One number with its unit, wherever it stands.
pub const DURATION: &'static str =
    r"(?i)\d+(y(ear)?|m(onth)|d(ay)?|h(our)?|m(inute)?|s(econd)?)";

/// Numbers with their units and white space, and nothing else.
pub const FULL_DURATION: &'static str =
    r"^(\s*(?i)\d+(y(ear)?|m(onth)|d(ay)?|h(our)?|m(inute)?|s(econd)?)\s*)*$";

/// A signed offset. Years and months move the calendar; days, hours,
/// minutes and seconds are elapsed time.
#[derive(Clone, Copy, Debug, PartialEq, Eq, Structural)]
pub struct Duration {
    pub year: i32,
    pub month: i32,
    pub day: i32,
    pub hour: i32,
    pub minute: i32,
    pub second: i32,
}

/// Why a text is no number with a unit.
#[derive(Clone, Copy, Debug, PartialEq, Eq, Structural)]
pub enum ParseError {
    /// The number is more than a field holds, or is not written in digits
    /// of ASCII.
    BadNumber,
    /// The text is not a number followed by a unit.
    NoUnit,
}

/// The units of a duration, in the order in which a text is tried on them.
#[derive(Clone, Copy, Debug, PartialEq, Eq, Structural)]
pub enum Unit {
    Year,
    Month,
    Day,
    Hour,
    Minute,
    Second,
}

/// The pattern of a number with the unit `unit`.
pub open spec fn pattern_of(unit: Unit) -> Seq<char> {
    match unit {
        Unit::Year => YEAR@,
        Unit::Month => MONTH@,
        Unit::Day => DAY@,
        Unit::Hour => HOUR@,
        Unit::Minute => MINUTE@,
        Unit::Second => SECOND@,
    }
}

/// The pattern of a number with the unit `unit`.
pub fn pattern(unit: Unit) -> (r: &'static str)
    ensures
        r@ == pattern_of(unit),
{
    match unit {
        Unit::Year => YEAR,
        Unit::Month => MONTH,
        Unit::Day => DAY,
        Unit::Hour => HOUR,
        Unit::Minute => MINUTE,
        Unit::Second => SECOND,
    }
}

/// The fields of a duration as integers without bound, in which sums and
/// opposites are exact.
pub struct Offsets {
    pub year: int,
    pub month: int,
    pub day: int,
    pub hour: int,
    pub minute: int,
    pub second: int,
}

impl Offsets {
    /// Every field is one that a `Duration` holds.
    pub open spec fn fits(self) -> bool {
        &&& i32::MIN <= self.year <= i32::MAX
        &&& i32::MIN <= self.month <= i32::MAX
        &&& i32::MIN <= self.day <= i32::MAX
        &&& i32::MIN <= self.hour <= i32::MAX
        &&& i32::MIN <= self.minute <= i32::MAX
        &&& i32::MIN <= self.second <= i32::MAX
    }

    /// The duration of these fields.
    pub open spec fn duration(self) -> Duration {
        Duration {
            year: self.year as i32,
            month: self.month as i32,
            day: self.day as i32,
            hour: self.hour as i32,
            minute: self.minute as i32,
            second: self.second as i32,
        }
    }

    /// The duration of these fields, where it holds them.
    pub open spec fn checked(self) -> Option<Duration> {
        if self.fits() {
            Some(self.duration())
        } else {
            None
        }
    }
}

impl View for Duration {
    type V = Offsets;

    /// The fields as integers without bound.
    open spec fn view(&self) -> Offsets {
        Offsets {
            year: self.year as int,
            month: self.month as int,
            day: self.day as int,
            hour: self.hour as int,
            minute: self.minute as int,
            second: self.second as int,
        }
    }
}

impl Duration {
    /// The duration that changes nothing.
    pub open spec fn zero() -> Duration {
        Duration { year: 0, month: 0, day: 0, hour: 0, minute: 0, second: 0 }
    }

    /// No field is less than 0.
    pub open spec fn forward(&self) -> bool {
        &&& self.year >= 0
        &&& self.month >= 0
        &&& self.day >= 0
        &&& self.hour >= 0
        &&& self.minute >= 0
        &&& self.second >= 0
    }

    /// The field by field sum.
    pub open spec fn plus(&self, rhs: Duration) -> Offsets {
        Offsets {
            year: self.year + rhs.year,
            month: self.month + rhs.month,
            day: self.day + rhs.day,
            hour: self.hour + rhs.hour,
            minute: self.minute + rhs.minute,
            second: self.second + rhs.second,
        }
    }

    /// Every field with its sign turned.
    pub open spec fn negated(&self) -> Offsets {
        Offsets {
            year: -self.year,
            month: -self.month,
            day: -self.day,
            hour: -self.hour,
            minute: -self.minute,
            second: -self.second,
        }
    }

    /// The seconds that the fields of elapsed time come to.
    pub open spec fn elapsed(&self) -> int {
        self.day * 86400 + self.hour * 3600 + self.minute * 60 + self.second
    }

    /// What the calendar and the clock show once the years and months are
    /// applied to `t`: the months are added to the month, and every twelve
    /// of them, forward or back, are a year. Day and time of day stay.
    /// `None` where the year is more than a field holds.
    pub open spec fn carried(&self, t: Moment) -> Option<Civil> {
        let months = t.month + self.month - 1;
        let year = t.year + self.year + months / 12;
        if i32::MIN <= year <= i32::MAX {
            Some(
                Civil {
                    year: year as i32,
                    month: (months % 12 + 1) as u32,
                    day: t.day,
                    hour: t.hour,
                    minute: t.minute,
                    second: t.second,
                },
            )
        } else {
            None
        }
    }

    /// The seconds since the epoch of the moment that lies the elapsed time
    /// of this duration after `base`; `None` where they are more than 64
    /// bits hold.
    pub open spec fn elapsed_from(&self, base: Moment) -> Option<i64> {
        if i64::MIN <= base.timestamp + self.elapsed() <= i64::MAX {
            Some((base.timestamp + self.elapsed()) as i64)
        } else {
            None
        }
    }

    /// `m` may be what this duration makes of `t`: the local clock can
    /// show it, the carried year is in range, and, with no elapsed time to
    /// add, the local clock shows the carried reading at `m`. So the
    /// duration that changes nothing leaves the reading of `t` as it is.
    pub open spec fn may_give(&self, t: Moment, m: Moment) -> bool {
        &&& m.well_formed()
        &&& self.carried(t) is Some
        &&& self.elapsed() == 0 ==> m.civil() == self.carried(t)->0
        &&& *self == Duration::zero() && t.well_formed() ==> m.civil() == t.civil()
    }

    /// `n` of the unit `unit`, and nothing else.
    pub open spec fn only(unit: Unit, n: i32) -> Duration {
        match unit {
            Unit::Year => Duration { year: n, month: 0, day: 0, hour: 0, minute: 0, second: 0 },
            Unit::Month => Duration { year: 0, month: n, day: 0, hour: 0, minute: 0, second: 0 },
            Unit::Day => Duration { year: 0, month: 0, day: n, hour: 0, minute: 0, second: 0 },
            Unit::Hour => Duration { year: 0, month: 0, day: 0, hour: n, minute: 0, second: 0 },
            Unit::Minute => Duration { year: 0, month: 0, day: 0, hour: 0, minute: n, second: 0 },
            Unit::Second => Duration { year: 0, month: 0, day: 0, hour: 0, minute: 0, second: n },
        }
    }

    /// `n` of the unit `unit`, and nothing else.
    pub fn of(unit: Unit, n: i32) -> (r: Duration)
        ensures
            r == Duration::only(unit, n),
    {
        let mut r = Duration::new();
        match unit {
            Unit::Year => {
                r.year = n;
            },
            Unit::Month => {
                r.month = n;
            },
            Unit::Day => {
                r.day = n;
            },
            Unit::Hour => {
                r.hour = n;
            },
            Unit::Minute => {
                r.minute = n;
            },
            Unit::Second => {
                r.second = n;
            },
        }
        r
    }

    /// Reads one number with its unit: `5y`, `5year`, `5M`, `5month`, `5d`,
    /// `5day`, `5h`, `5hour`, `5m`, `5minute`, `5s` or `5second`. The units
    /// are tried in the order of `Unit`, and the first whose pattern takes
    /// the text decides.
    pub fn from_str(s: &str) -> (r: Result<Duration, ParseError>)
        ensures
            r == unit_amount_of(s@),
    {
        if let Some(read) = read_unit(Unit::Year, s) {
            return read;
        }
        if let Some(read) = read_unit(Unit::Month, s) {
            return read;
        }
        if let Some(read) = read_unit(Unit::Day, s) {
            return read;
        }
        if let Some(read) = read_unit(Unit::Hour, s) {
            return read;
        }
        if let Some(read) = read_unit(Unit::Minute, s) {
            return read;
        }
        if let Some(read) = read_unit(Unit::Second, s) {
            return read;
        }
        Err(ParseError::NoUnit)
    }

    /// The duration that changes nothing.
    pub fn new() -> (r: Duration)
        ensures
            r == Duration::zero(),
    {
        Duration { year: 0, month: 0, day: 0, hour: 0, minute: 0, second: 0 }
    }

    /// Adds `rhs` field by field.
    pub fn add_assign(&mut self, rhs: Duration)
        requires
            old(self).plus(rhs).fits(),
        ensures
            final(self)@ == old(self).plus(rhs),
    {
        self.year = self.year + rhs.year;
        self.month = self.month + rhs.month;
        self.day = self.day + rhs.day;
        self.hour = self.hour + rhs.hour;
        self.minute = self.minute + rhs.minute;
        self.second = self.second + rhs.second;
    }

    /// The field by field sum, where the fields hold it.
    pub fn checked_add(&self, rhs: &Duration) -> (r: Option<Duration>)
        ensures
            r == self.plus(*rhs).checked(),
    {
        if sum_fits(self.year, rhs.year) && sum_fits(self.month, rhs.month) && sum_fits(
            self.day,
            rhs.day,
        ) && sum_fits(self.hour, rhs.hour) && sum_fits(self.minute, rhs.minute) && sum_fits(
            self.second,
            rhs.second,
        ) {
            let mut sum = *self;
            sum.add_assign(*rhs);
            Some(sum)
        } else {
            None
        }
    }

    /// Turns the sign of every field.
    pub fn neg(self) -> (r: Duration)
        requires
            self.negated().fits(),
        ensures
            r@ == self.negated(),
    {
        Duration {
            year: -self.year,
            month: -self.month,
            day: -self.day,
            hour: -self.hour,
            minute: -self.minute,
            second: -self.second,
        }
    }

    /// The seconds that the fields of elapsed time come to.
    pub fn elapsed_seconds(&self) -> (r: i64)
        ensures
            r == self.elapsed(),
    {
        self.day as i64 * 86400 + self.hour as i64 * 3600 + self.minute as i64 * 60
            + self.second as i64
    }

    /// Applies the years and months to `t`.
    pub fn calendar_step(&self, t: &Moment) -> (r: Option<Civil>)
        ensures
            r == self.carried(*t),
            r matches Some(c) ==> 1 <= c.month <= 12,
    {
        // 2_147_483_652 is a multiple of 12 that makes the count of months positive.
        let shifted: u64 = (t.month as i64 + self.month as i64 - 1 + 2_147_483_652) as u64;
        let years: i64 = (shifted / 12) as i64 - 178_956_971;
        let month: u32 = (shifted % 12) as u32 + 1;
        let year: i64 = t.year as i64 + self.year as i64 + years;
        proof {
            let months = t.month + self.month - 1;
            assert(shifted == months + 12 * 178_956_971);
            assert((months + 12 * 178_956_971) / 12 == months / 12 + 178_956_971
                && (months + 12 * 178_956_971) % 12 == months % 12) by (nonlinear_arith);
        }
        if year < -0x8000_0000 || year > 0x7fff_ffff {
            None
        } else {
            Some(
                Civil {
                    year: year as i32,
                    month,
                    day: t.day,
                    hour: t.hour,
                    minute: t.minute,
                    second: t.second,
                },
            )
        }
    }

    /// Applies the days, hours, minutes and seconds to the seconds of
    /// `base`.
    pub fn clock_step(&self, base: &Moment) -> (r: Option<i64>)
        ensures
            r == self.elapsed_from(*base),
    {
        base.timestamp.checked_add(self.elapsed_seconds())
    }

    /// Applies the duration to `rhs`, in two steps: the years and months on
    /// the calendar, then the days, hours, minutes and seconds as elapsed
    /// time.
    ///
    /// The local clock decides which moment shows a calendar reading, and
    /// what it shows once time has elapsed. So the result is stated as far
    /// as the reading is known: with no elapsed time it is the carried one.
    /// There is no result where the carried year is out of range, where the
    /// local clock never shows the carried reading or shows it twice, and
    /// where the moment is out of the clock's range.
    pub fn add(&self, rhs: Moment) -> (r: Option<Moment>)
        ensures
            self.carried(rhs) is None ==> r is None,
            r matches Some(m) ==> self.may_give(rhs, m),
    {
        proof {
            if rhs.well_formed() {
                lemma_zero_changes_nothing(rhs);
            }
        }
        let target = match self.calendar_step(&rhs) {
            Some(target) => target,
            None => {
                return None;
            },
        };
        let base = match on(target) {
            Some(base) => base,
            None => {
                return None;
            },
        };
        if self.elapsed_seconds() == 0 {
            Some(base)
        } else {
            match self.clock_step(&base) {
                Some(seconds) => at(seconds),
                None => None,
            }
        }
    }
}

/// Whether a field holds the sum of `a` and `b`.
fn sum_fits(a: i32, b: i32) -> (r: bool)
    ensures
        r == (i32::MIN <= a + b <= i32::MAX),
{
    let sum: i64 = a as i64 + b as i64;
    -0x8000_0000 <= sum && sum <= 0x7fff_ffff
}

impl Default for Duration {
    fn default() -> (r: Duration)
        ensures
            r == Duration::zero(),
    {
        Duration::new()
    }
}

/// What `s` is as a number of `unit`: nothing where the pattern of the unit
/// does not take `s`; else the duration, or the fault of the number.
pub open spec fn reading_of(unit: Unit, s: Seq<char>) -> Option<Result<Duration, ParseError>> {
    match capture_of(pattern_of(unit), s, 1) {
        Some(digits) => Some(
            match integer_within(digits, false, 0, i32::MAX as int) {
                Some(n) => Ok(Duration::only(unit, n as i32)),
                None => Err(ParseError::BadNumber),
            },
        ),
        None => None,
    }
}

/// The duration that the number and unit `s` write.
pub open spec fn unit_amount_of(s: Seq<char>) -> Result<Duration, ParseError> {
    if reading_of(Unit::Year, s) is Some {
        reading_of(Unit::Year, s)->0
    } else if reading_of(Unit::Month, s) is Some {
        reading_of(Unit::Month, s)->0
    } else if reading_of(Unit::Day, s) is Some {
        reading_of(Unit::Day, s)->0
    } else if reading_of(Unit::Hour, s) is Some {
        reading_of(Unit::Hour, s)->0
    } else if reading_of(Unit::Minute, s) is Some {
        reading_of(Unit::Minute, s)->0
    } else if reading_of(Unit::Second, s) is Some {
        reading_of(Unit::Second, s)->0
    } else {
        Err(ParseError::NoUnit)
    }
}

/// Tries `s` as a number of `unit`.
pub fn read_unit(unit: Unit, s: &str) -> (r: Option<Result<Duration, ParseError>>)
    ensures
        r == reading_of(unit, s@),
{
    match capture(pattern(unit), s, 1) {
        Some(digits) => Some(
            match parse_integer(digits.as_str(), false, 0, 0x7fff_ffff) {
                Some(n) => Ok(Duration::of(unit, n as i32)),
                None => Err(ParseError::BadNumber),
            },
        ),
        None => None,
    }
}

/// The sum of the durations that the items of `found` write, each a number
/// with its unit; `None` where one of them writes none, or a field of the
/// sum is more than it holds.
pub open spec fn total_of(found: Seq<Seq<char>>) -> Option<Duration>
    decreases found.len(),
{
    if found.len() == 0 {
        Some(Duration::zero())
    } else {
        match (total_of(found.drop_last()), unit_amount_of(found.last())) {
            (Some(sum), Ok(d)) => sum.plus(d).checked(),
            _ => None,
        }
    }
}

/// The duration that the phrase `s` writes, its sign taken off: `s` must be
/// numbers with units and white space from end to end, and every number
/// with its unit adds to the sum.
pub open spec fn single_of(s: Seq<char>) -> Option<Duration> {
    if is_match_of(FULL_DURATION@, s) == Some(true) {
        match matches_of(DURATION@, s) {
            Some(found) => total_of(found),
            None => None,
        }
    } else {
        None
    }
}

/// The duration that the signed phrase `p` writes. An empty phrase writes
/// the duration that changes nothing.
pub open spec fn phrase_of(p: Seq<char>) -> Option<Duration> {
    if p.len() == 0 {
        Some(Duration::zero())
    } else {
        match single_of(p.skip(1)) {
            Some(d) => if p[0] == '+' {
                Some(d)
            } else if p[0] == '-' {
                d.negated().checked()
            } else {
                None
            },
            None => None,
        }
    }
}

/// The sum of the durations that `phrases` write; `None` where one of them
/// writes none, or a field of the sum is more than it holds.
pub open spec fn parse_of(phrases: Seq<Seq<char>>) -> Option<Duration>
    decreases phrases.len(),
{
    if phrases.len() == 0 {
        Some(Duration::zero())
    } else {
        match (parse_of(phrases.drop_last()), phrase_of(phrases.last())) {
            (Some(sum), Some(d)) => sum.plus(d).checked(),
            _ => None,
        }
    }
}

/// What a number with a unit writes goes forward in time.
pub proof fn lemma_unit_amount_forward(s: Seq<char>)
    ensures
        unit_amount_of(s) matches Ok(d) ==> d.forward(),
{
}

/// What a phrase without its sign writes goes forward in time.
pub proof fn lemma_total_forward(found: Seq<Seq<char>>)
    ensures
        total_of(found) matches Some(d) ==> d.forward(),
    decreases found.len(),
{
    if found.len() > 0 {
        lemma_total_forward(found.drop_last());
        lemma_unit_amount_forward(found.last());
    }
}

/// Reads the duration of a phrase whose sign is taken off.
pub fn single_parse(s: &str) -> (r: Option<Duration>)
    ensures
        r == single_of(s@),
        r matches Some(d) ==> d.forward(),
{
    match is_match(FULL_DURATION, s) {
        Some(true) => {},
        _ => {
            return None;
        },
    }
    let found = match find_all(DURATION, s) {
        Some(found) => found,
        None => {
            return None;
        },
    };
    let ghost all = texts(found@);
    let mut ret = Duration::new();
    let mut i: usize = 0;
    assert(all.take(0) =~= Seq::<Seq<char>>::empty());
    while i < found.len()
        invariant
            i <= found.len(),
            all == texts(found@),
            single_of(s@) == total_of(all),
            total_of(all.take(i as int)) == Some(ret),
        decreases found.len() - i,
    {
        proof {
            assert(all.take(i + 1).drop_last() =~= all.take(i as int));
            assert(all.take(i + 1).last() == found@[i as int]@);
            lemma_total_absorbs(all, i + 1);
        }
        let d = match Duration::from_str(found[i].as_str()) {
            Ok(d) => d,
            Err(_) => {
                return None;
            },
        };
        ret = match ret.checked_add(&d) {
            Some(sum) => sum,
            None => {
                return None;
            },
        };
        i += 1;
    }
    proof {
        assert(all.take(found.len() as int) =~= all);
        lemma_total_forward(all);
    }
    Some(ret)
}

/// Where the sum of a first part fails, the sum of the whole fails.
pub proof fn lemma_total_absorbs(found: Seq<Seq<char>>, k: int)
    requires
        0 <= k <= found.len(),
    ensures
        total_of(found.take(k)) is None ==> total_of(found) is None,
    decreases found.len(),
{
    if k == found.len() {
        assert(found.take(k) =~= found);
    } else {
        assert(found.drop_last().take(k) =~= found.take(k));
        lemma_total_absorbs(found.drop_last(), k);
    }
}

/// Whether `sign` adds or takes away, if it is a sign.
pub fn is_add(sign: char) -> (r: Option<bool>)
    ensures
        r == if sign == '+' {
            Some(true)
        } else if sign == '-' {
            Some(false)
        } else {
            None::<bool>
        },
{
    if sign == '+' {
        Some(true)
    } else if sign == '-' {
        Some(false)
    } else {
        None
    }
}

/// Reads one signed phrase.
pub fn parse_phrase(delta: &str) -> (r: Option<Duration>)
    ensures
        r == phrase_of(delta@),
{
    let n = delta.unicode_len();
    if n == 0 {
        return Some(Duration::new());
    }
    let rest = delta.substring_char(1, n);
    assert(rest@ =~= delta@.skip(1));
    let d = match single_parse(rest) {
        Some(d) => d,
        None => {
            return None;
        },
    };
    match is_add(delta.get_char(0)) {
        Some(true) => Some(d),
        Some(false) => Some(d.neg()),
        None => None,
    }
}

/// Where the sum of the first phrases fails, the sum of all fails.
pub proof fn lemma_parse_absorbs(phrases: Seq<Seq<char>>, k: int)
    requires
        0 <= k <= phrases.len(),
    ensures
        parse_of(phrases.take(k)) is None ==> parse_of(phrases) is None,
    decreases phrases.len(),
{
    if k == phrases.len() {
        assert(phrases.take(k) =~= phrases);
    } else {
        assert(phrases.drop_last().take(k) =~= phrases.take(k));
        lemma_parse_absorbs(phrases.drop_last(), k);
    }
}

/// Reads signed phrases, such as `+1day2h` and `-30m`, and sums what they
/// write. No phrase at all writes the duration that changes nothing.
///
/// There is no result where a phrase does not start with `+` or `-`, where
/// what follows the sign is not numbers with units from end to end, and
/// where a field of the sum is more than it holds.
pub fn parse(deltas: &Vec<String>) -> (r: Option<Duration>)
    ensures
        r == parse_of(texts(deltas@)),
{
    let ghost all = texts(deltas@);
    let mut ret = Duration::new();
    let mut i: usize = 0;
    assert(all.take(0) =~= Seq::<Seq<char>>::empty());
    while i < deltas.len()
        invariant
            i <= deltas.len(),
            all == texts(deltas@),
            parse_of(all.take(i as int)) == Some(ret),
        decreases deltas.len() - i,
    {
        proof {
            assert(all.take(i + 1).drop_last() =~= all.take(i as int));
            assert(all.take(i + 1).last() == deltas@[i as int]@);
            lemma_parse_absorbs(all, i + 1);
        }
        let d = match parse_phrase(deltas[i].as_str()) {
            Some(d) => d,
            None => {
                return None;
            },
        };
        ret = match ret.checked_add(&d) {
            Some(sum) => sum,
            None => {
                return None;
            },
        };
        i += 1;
    }
    assert(all.take(deltas.len() as int) =~= all);
    Some(ret)
}

/// The duration that changes nothing asks for the reading that a moment
/// already has, with no time elapsed.
pub proof fn lemma_zero_changes_nothing(t: Moment)
    requires
        t.well_formed(),
    ensures
        Duration::zero().carried(t) == Some(t.civil()),
        Duration::zero().elapsed() == 0,
{
}

/// Months carry into the year: two months after a day in November is that
/// day in January of the next year, and in general the carried month is
/// one of the twelve, with a year for every twelve months that were passed,
/// forward or back.
pub proof fn lemma_months_carry(d: Duration, t: Moment)
    requires
        t.well_formed(),
        d.carried(t) is Some,
    ensures
        1 <= d.carried(t)->0.month <= 12,
        (d.carried(t)->0.year - t.year - d.year) * 12 + d.carried(t)->0.month == t.month + d.month,
        d.year == 0 && d.month == 2 && t.month == 11 ==> d.carried(t)->0.month == 1 && d.carried(
            t,
        )->0.year == t.year + 1,
{
}

/// A phrase under `+` and the same phrase under `-` write opposite
/// durations, and one is read exactly where the other is.
pub proof fn lemma_opposite_signs(s: Seq<char>)
    ensures
        parse_of(seq![seq!['+'] + s]) == single_of(s),
        parse_of(seq![seq!['-'] + s]) is Some <==> single_of(s) is Some,
        single_of(s) matches Some(d) ==> parse_of(seq![seq!['-'] + s])->0@ == d.negated()
            && parse_of(seq![seq!['-'] + s])->0.negated() == d@,
{
    reveal_with_fuel(parse_of, 2);
    let plus = seq!['+'] + s;
    let minus = seq!['-'] + s;
    assert(plus.skip(1) =~= s);
    assert(minus.skip(1) =~= s);
    assert(seq![plus].drop_last() =~= Seq::<Seq<char>>::empty());
    assert(seq![minus].drop_last() =~= Seq::<Seq<char>>::empty());
    assert(seq![plus].last() == plus);
    assert(seq![minus].last() == minus);
    if single_of(s) is Some {
        lemma_total_forward(matches_of(DURATION@, s)->0);
    }
}

} // verus!

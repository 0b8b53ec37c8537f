//! From a moment phrase and offset phrases to the lines that are shown:
//! every candidate moment with the offset applied, one line each, in order
//! and without repeats.

use crate::clock::{now as local_now, render, rendered, Moment};
use crate::delta::{parse as parse_delta, parse_of, Duration};
use crate::moment::{parse_at, read_as};
use crate::text::{chars_of, texts};
use vstd::prelude::*;

verus! {

/// How the local date and time of a line are written.
pub const TIME_FORMAT: &'static str = "%Y-%m-%d %H:%M:%S";

/// The character of the digit `d`.
pub open spec fn digit_char(d: int) -> char {
    if d == 0 {
        '0'
    } else if d == 1 {
        '1'
    } else if d == 2 {
        '2'
    } else if d == 3 {
        '3'
    } else if d == 4 {
        '4'
    } else if d == 5 {
        '5'
    } else if d == 6 {
        '6'
    } else if d == 7 {
        '7'
    } else if d == 8 {
        '8'
    } else {
        '9'
    }
}

/// The digits of `n` in decimal, with no zero in front.
pub open spec fn decimal_digits(n: nat) -> Seq<char>
    decreases n,
{
    if n < 10 {
        seq![digit_char(n as int)]
    } else {
        decimal_digits(n / 10).push(digit_char((n % 10) as int))
    }
}

/// `n` in decimal, with a `-` in front where it is less than 0.
pub open spec fn decimal_of(n: int) -> Seq<char> {
    if n < 0 {
        seq!['-'] + decimal_digits((-n) as nat)
    } else {
        decimal_digits(n as nat)
    }
}

/// The line of `m`: its local date and time, a tab, and its seconds since
/// the epoch. `None` where the date and time cannot be written.
pub open spec fn line_of(m: Moment) -> Option<Seq<char>> {
    match rendered(TIME_FORMAT@, m.civil()) {
        Some(shown) => Some(shown + seq!['\t'] + decimal_of(m.timestamp as int)),
        None => None,
    }
}

/// `a` comes before `b` in the order of a dictionary, the characters taken
/// by their code.
pub open spec fn comes_before(a: Seq<char>, b: Seq<char>) -> bool
    decreases a.len(),
{
    if b.len() == 0 {
        false
    } else if a.len() == 0 {
        true
    } else if a[0] != b[0] {
        a[0] < b[0]
    } else {
        comes_before(a.skip(1), b.skip(1))
    }
}

/// Every item comes before every later one: the items are in order, and
/// none stands twice.
pub open spec fn ascending(lines: Seq<Seq<char>>) -> bool {
    forall|i: int, j: int|
        0 <= i < j < lines.len() ==> comes_before(#[trigger] lines[i], #[trigger] lines[j])
}

/// Nothing comes before itself.
pub proof fn lemma_never_before_itself(a: Seq<char>)
    ensures
        !comes_before(a, a),
    decreases a.len(),
{
    if a.len() > 0 {
        lemma_never_before_itself(a.skip(1));
    }
}

/// What comes before something that comes before a third comes before the
/// third.
pub proof fn lemma_before_chains(a: Seq<char>, b: Seq<char>, c: Seq<char>)
    requires
        comes_before(a, b),
        comes_before(b, c),
    ensures
        comes_before(a, c),
    decreases a.len(),
{
    if a.len() > 0 && a[0] == b[0] && b[0] == c[0] {
        lemma_before_chains(a.skip(1), b.skip(1), c.skip(1));
    }
}

/// Of two texts that differ, one comes before the other.
pub proof fn lemma_one_comes_first(a: Seq<char>, b: Seq<char>)
    ensures
        comes_before(a, b) || comes_before(b, a) || a == b,
    decreases a.len(),
{
    if a.len() > 0 && b.len() > 0 && a[0] == b[0] {
        lemma_one_comes_first(a.skip(1), b.skip(1));
        if a.skip(1) == b.skip(1) {
            assert(a =~= seq![a[0]] + a.skip(1));
            assert(b =~= seq![b[0]] + b.skip(1));
        }
    } else if a.len() == 0 && b.len() == 0 {
        assert(a =~= b);
    }
}

/// Lines in ascending order hold no line twice.
pub proof fn lemma_ascending_has_no_repeats(lines: Seq<Seq<char>>)
    requires
        ascending(lines),
    ensures
        forall|i: int, j: int| 0 <= i < j < lines.len() ==> lines[i] != lines[j],
{
    assert forall|i: int, j: int| 0 <= i < j < lines.len() implies lines[i] != lines[j] by {
        assert(comes_before(lines[i], lines[j]));
        lemma_never_before_itself(lines[i]);
    }
}

/// The text of the digit `d`.
fn digit_str(d: u64) -> (r: &'static str)
    requires
        d < 10,
    ensures
        r@ == seq![digit_char(d as int)],
{
    proof {
        reveal_strlit("0");
        reveal_strlit("1");
        reveal_strlit("2");
        reveal_strlit("3");
        reveal_strlit("4");
        reveal_strlit("5");
        reveal_strlit("6");
        reveal_strlit("7");
        reveal_strlit("8");
        reveal_strlit("9");
    }
    let r = if d == 0 {
        "0"
    } else if d == 1 {
        "1"
    } else if d == 2 {
        "2"
    } else if d == 3 {
        "3"
    } else if d == 4 {
        "4"
    } else if d == 5 {
        "5"
    } else if d == 6 {
        "6"
    } else if d == 7 {
        "7"
    } else if d == 8 {
        "8"
    } else {
        "9"
    };
    assert(r@ =~= seq![digit_char(d as int)]);
    r
}

/// Writes `n` in decimal at the end of `out`.
fn push_decimal(out: &mut String, n: u64)
    ensures
        final(out)@ == old(out)@ + decimal_digits(n as nat),
    decreases n,
{
    if n >= 10 {
        push_decimal(out, n / 10);
    }
    out.append(digit_str(n % 10));
    assert(out@ =~= old(out)@ + decimal_digits(n as nat));
}

/// `n` in decimal.
pub fn decimal_string(n: i64) -> (r: String)
    ensures
        r@ == decimal_of(n as int),
{
    let mut out = String::new();
    if n < 0 {
        proof {
            reveal_strlit("-");
        }
        out.append("-");
        assert(out@ =~= seq!['-']);
        let magnitude: u64 = if n == i64::MIN {
            0x8000_0000_0000_0000
        } else {
            (-n) as u64
        };
        push_decimal(&mut out, magnitude);
    } else {
        push_decimal(&mut out, n as u64);
        assert(out@ =~= decimal_digits(n as nat));
    }
    out
}

/// The line of `m`.
pub fn line_text(m: &Moment) -> (r: Option<String>)
    ensures
        r is Some == line_of(*m) is Some,
        r matches Some(l) ==> l@ == line_of(*m)->0,
{
    match render(TIME_FORMAT, m.reading()) {
        Some(shown) => {
            proof {
                reveal_strlit("\t");
            }
            let mut out = shown.concat("\t");
            let seconds = decimal_string(m.timestamp);
            out.append(seconds.as_str());
            assert(out@ =~= shown@ + seq!['\t'] + decimal_of(m.timestamp as int));
            Some(out)
        },
        None => None,
    }
}

/// Whether `a` comes before `b` in the order of a dictionary.
pub fn less(a: &str, b: &str) -> (r: bool)
    ensures
        r == comes_before(a@, b@),
{
    let ca = chars_of(a);
    let cb = chars_of(b);
    let mut i: usize = 0;
    assert(a@.skip(0) =~= a@ && b@.skip(0) =~= b@);
    while i < ca.len() && i < cb.len()
        invariant
            ca@ == a@,
            cb@ == b@,
            i <= ca.len(),
            i <= cb.len(),
            comes_before(a@, b@) == comes_before(a@.skip(i as int), b@.skip(i as int)),
        decreases ca.len() - i,
    {
        if ca[i] != cb[i] {
            return ca[i] < cb[i];
        }
        assert(a@.skip(i as int).skip(1) =~= a@.skip(i + 1));
        assert(b@.skip(i as int).skip(1) =~= b@.skip(i + 1));
        i += 1;
    }
    i < cb.len()
}

/// Puts `line` in its place among `out`, unless it is there already.
pub fn insert(out: &mut Vec<String>, line: String)
    requires
        ascending(texts(old(out)@)),
    ensures
        ascending(texts(final(out)@)),
        forall|x: Seq<char>|
            texts(final(out)@).contains(x) <==> texts(old(out)@).contains(x) || x == line@,
        old(out)@.len() <= final(out)@.len() <= old(out)@.len() + 1,
{
    let ghost before = texts(out@);
    let n = out.len();
    let mut at: usize = 0;
    while at < n && less(out[at].as_str(), line.as_str())
        invariant
            n == out.len(),
            at <= n,
            before == texts(out@),
            out@ == old(out)@,
            forall|j: int| 0 <= j < at ==> comes_before(#[trigger] before[j], line@),
        decreases n - at,
    {
        at += 1;
    }
    if at < n && !less(line.as_str(), out[at].as_str()) {
        proof {
            lemma_one_comes_first(line@, before[at as int]);
            assert(before.contains(line@));
        }
        return ;
    }
    out.insert(at, line);
    proof {
        let after = texts(out@);
        assert(after =~= before.insert(at as int, line@));
        assert forall|i: int, j: int| 0 <= i < j < after.len() implies comes_before(
            #[trigger] after[i],
            #[trigger] after[j],
        ) by {
            if j < at {
                assert(after[i] == before[i] && after[j] == before[j]);
            } else if j == at {
                assert(after[i] == before[i]);
            } else if i < at {
                assert(after[i] == before[i] && after[j] == before[j - 1]);
                if j - 1 > at {
                    assert(comes_before(before[at as int], before[j - 1]));
                }
                lemma_before_chains(before[i], line@, before[at as int]);
                if j - 1 > at {
                    lemma_before_chains(before[i], before[at as int], before[j - 1]);
                }
            } else if i == at {
                assert(after[j] == before[j - 1]);
                if j - 1 > at {
                    lemma_before_chains(line@, before[at as int], before[j - 1]);
                }
            } else {
                assert(after[i] == before[i - 1] && after[j] == before[j - 1]);
            }
        }
        assert forall|x: Seq<char>| after.contains(x) <==> before.contains(x) || x == line@ by {
            if before.contains(x) {
                let k = choose|k: int| 0 <= k < before.len() && before[k] == x;
                if k < at {
                    assert(after[k] == x);
                } else {
                    assert(after[k + 1] == x);
                }
            }
            if x == line@ {
                assert(after[at as int] == x);
            }
            if after.contains(x) {
                let k = choose|k: int| 0 <= k < after.len() && after[k] == x;
                if k < at {
                    assert(before[k] == x);
                } else if k > at {
                    assert(before[k - 1] == x);
                }
            }
        }
    }
}

/// `shown` is the line of a moment that `delta` may give from one of
/// `moments`.
pub open spec fn shows(shown: Seq<char>, moments: Seq<Moment>, delta: Duration) -> bool {
    exists|k: int, t: Moment|
        0 <= k < moments.len() && #[trigger] delta.may_give(moments[k], t) && line_of(t) == Some(
            shown,
        )
}

/// Applies `delta` to every one of `moments` and gives the lines of what
/// comes of it, in order and without repeats. A moment to which the offset
/// cannot be applied gives no line.
pub fn resolve(moments: &Vec<Moment>, delta: &Duration) -> (r: Vec<String>)
    ensures
        ascending(texts(r@)),
        r@.len() <= moments@.len(),
        forall|i: int| 0 <= i < r@.len() ==> shows(#[trigger] texts(r@)[i], moments@, *delta),
{
    let mut out: Vec<String> = Vec::new();
    let mut i: usize = 0;
    while i < moments.len()
        invariant
            i <= moments.len(),
            out@.len() <= i,
            ascending(texts(out@)),
            forall|j: int| 0 <= j < out@.len() ==> shows(#[trigger] texts(out@)[j], moments@, *delta),
        decreases moments.len() - i,
    {
        if let Some(t) = delta.add(moments[i]) {
            if let Some(l) = line_text(&t) {
                let ghost before = texts(out@);
                proof {
                    assert(delta.may_give(moments@[i as int], t) && line_of(t) == Some(l@));
                    assert(shows(l@, moments@, *delta));
                }
                insert(&mut out, l);
                proof {
                    let after = texts(out@);
                    assert forall|j: int| 0 <= j < after.len() implies shows(
                        #[trigger] after[j],
                        moments@,
                        *delta,
                    ) by {
                        assert(after.contains(after[j]));
                        if before.contains(after[j]) {
                            let k = choose|k: int| 0 <= k < before.len() && before[k] == after[j];
                            assert(shows(before[k], moments@, *delta));
                        }
                    }
                }
            }
        }
        i += 1;
    }
    out
}

/// The offset that the phrases `deltas` write, or the one that changes
/// nothing where they write none.
pub open spec fn offset_of(deltas: Seq<Seq<char>>) -> Duration {
    match parse_of(deltas) {
        Some(d) => d,
        None => Duration::zero(),
    }
}

/// `shown` is the line of a moment that the offset of `deltas` may give
/// from a candidate of the phrase `moment` at the present moment `now`.
pub open spec fn answers(shown: Seq<char>, moment: Seq<char>, deltas: Seq<Seq<char>>, now: Moment)
    -> bool {
    exists|m: Moment, t: Moment|
        read_as(moment, now, m) && #[trigger] offset_of(deltas).may_give(m, t) && line_of(t)
            == Some(shown)
}

/// The lines for the phrase `moment` and the offset phrases `deltas`, `now`
/// being the present moment. Offset phrases that cannot be read count as
/// none.
pub fn run_at(moment: &str, deltas: &Vec<String>, now: &Moment) -> (r: Vec<String>)
    ensures
        ascending(texts(r@)),
        forall|i: int|
            0 <= i < r@.len() ==> answers(#[trigger] texts(r@)[i], moment@, texts(deltas@), *now),
{
    let moments = parse_at(moment, now);
    let delta = match parse_delta(deltas) {
        Some(d) => d,
        None => Duration::new(),
    };
    let lines = resolve(&moments, &delta);
    proof {
        assert forall|i: int| 0 <= i < lines@.len() implies answers(
            #[trigger] texts(lines@)[i],
            moment@,
            texts(deltas@),
            *now,
        ) by {
            let shown = texts(lines@)[i];
            assert(shows(shown, moments@, delta));
            let (k, t) = choose|k: int, t: Moment|
                0 <= k < moments@.len() && #[trigger] delta.may_give(moments@[k], t) && line_of(t)
                    == Some(shown);
            assert(read_as(moment@, *now, moments@[k]));
            assert(offset_of(texts(deltas@)).may_give(moments@[k], t));
        }
    }
    lines
}

/// The lines for the phrase `moment` and the offset phrases `deltas` at the
/// present moment: in order, without repeats, each the line of a moment
/// that the offset may give from a candidate of the phrase.
pub fn run(moment: &str, deltas: &Vec<String>) -> (r: Vec<String>)
    ensures
        ascending(texts(r@)),
        exists|now: Moment|
            now.well_formed() && forall|i: int|
                0 <= i < r@.len() ==> answers(
                    #[trigger] texts(r@)[i],
                    moment@,
                    texts(deltas@),
                    now,
                ),
{
    let now = local_now();
    let lines = run_at(moment, deltas, &now);
    assert(now.well_formed() && forall|i: int|
        0 <= i < lines@.len() ==> answers(
            #[trigger] texts(lines@)[i],
            moment@,
            texts(deltas@),
            now,
        ));
    lines
}

} // verus!

//! Characters and decimal numbers in text.

use itertools::Itertools;
use vstd::prelude::*;

verus! {

/// An ASCII decimal digit.
pub open spec fn is_digit(c: char) -> bool {
    '0' <= c <= '9'
}

/// The value of an ASCII decimal digit.
pub open spec fn digit_value(c: char) -> int {
    c as u32 - '0' as u32
}

/// Every character is an ASCII decimal digit.
pub open spec fn all_digits(s: Seq<char>) -> bool {
    forall|i: int| 0 <= i < s.len() ==> is_digit(#[trigger] s[i])
}

/// The number that a run of decimal digits writes; 0 for the empty run.
pub open spec fn digits_value(s: Seq<char>) -> int
    decreases s.len(),
{
    if s.len() == 0 {
        0
    } else {
        10 * digits_value(s.drop_last()) + digit_value(s.last())
    }
}

/// The integer that `s` writes in decimal: an optional sign and then one or
/// more ASCII digits, nothing before or after. A `-` is a sign only where
/// `signed` holds; a `+` always is.
pub open spec fn integer_of(s: Seq<char>, signed: bool) -> Option<int> {
    if s.len() == 0 {
        None
    } else if s[0] == '+' {
        if s.len() > 1 && all_digits(s.skip(1)) {
            Some(digits_value(s.skip(1)))
        } else {
            None
        }
    } else if s[0] == '-' && signed {
        if s.len() > 1 && all_digits(s.skip(1)) {
            Some(-digits_value(s.skip(1)))
        } else {
            None
        }
    } else if all_digits(s) {
        Some(digits_value(s))
    } else {
        None
    }
}

/// `integer_of`, kept only where the number lies in `lo..=hi`.
pub open spec fn integer_within(s: Seq<char>, signed: bool, lo: int, hi: int) -> Option<int> {
    match integer_of(s, signed) {
        Some(v) if lo <= v <= hi => Some(v),
        _ => None,
    }
}

/// A run of digits writes no number below 0.
pub proof fn lemma_digits_nonnegative(s: Seq<char>)
    requires
        all_digits(s),
    ensures
        digits_value(s) >= 0,
    decreases s.len(),
{
    if s.len() > 0 {
        lemma_digits_nonnegative(s.drop_last());
    }
}

/// A run of digits writes a number no smaller than any of its prefixes does.
pub proof fn lemma_digits_prefix(s: Seq<char>, k: int)
    requires
        all_digits(s),
        0 <= k <= s.len(),
    ensures
        digits_value(s.take(k)) <= digits_value(s),
    decreases s.len(),
{
    if k == s.len() {
        assert(s.take(k) =~= s);
    } else {
        lemma_digits_prefix(s.drop_last(), k);
        assert(s.drop_last().take(k) =~= s.take(k));
        lemma_digits_nonnegative(s.drop_last());
    }
}

/// The characters of `s`, one by one.
pub fn chars_of(s: &str) -> (r: Vec<char>)
    ensures
        r@ == s@,
{
    let mut out: Vec<char> = Vec::new();
    for c in it: s.chars()
        invariant
            out@ == it.seq().take(it.index() as int),
            it.seq() == s@,
    {
        out.push(c);
    }
    out
}

/// Reads the digits of `cs` from `from` on. Gives their number where every
/// character is a digit and the number is at most `limit`.
fn read_digits(cs: &Vec<char>, from: usize, limit: u64) -> (r: Option<u64>)
    requires
        from <= cs.len(),
        limit <= 0x8000_0000_0000_0000,
    ensures
        r == if all_digits(cs@.skip(from as int)) && digits_value(cs@.skip(from as int)) <= limit {
            Some(digits_value(cs@.skip(from as int)) as u64)
        } else {
            None
        },
{
    let ghost run = cs@.skip(from as int);
    let n = cs.len();
    let mut acc: u64 = 0;
    let mut i: usize = from;
    while i < n
        invariant
            n == cs.len(),
            from <= i <= n,
            run == cs@.skip(from as int),
            all_digits(run.take(i - from)),
            acc == digits_value(run.take(i - from)),
            acc <= limit <= 0x8000_0000_0000_0000,
        decreases n - i,
    {
        let c = cs[i];
        assert(run[i - from] == c);
        if c < '0' || c > '9' {
            return None;
        }
        let d: u64 = (c as u32 - '0' as u32) as u64;
        proof {
            assert(run.take(i - from + 1).drop_last() =~= run.take(i - from));
            assert(run.take(i - from + 1).last() == c);
            assert(digits_value(run.take(i - from + 1)) == 10 * acc + d);
            assert forall|j: int| 0 <= j < i - from + 1 implies is_digit(
                #[trigger] run.take(i - from + 1)[j],
            ) by {
                if j < i - from {
                    assert(run.take(i - from)[j] == run[j]);
                }
            }
        }
        if acc as u128 * 10 + d as u128 > limit as u128 {
            proof {
                assert(10 * acc + d > limit);
                if all_digits(run) {
                    lemma_digits_prefix(run, i - from + 1);
                }
            }
            return None;
        }
        acc = acc * 10 + d;
        i += 1;
    }
    assert(run.take(n - from) =~= run);
    Some(acc)
}

/// Reads a decimal integer in `lo..=hi`: an optional sign, then digits. With
/// `signed` unset a leading `-` is refused, as it is for an unsigned number.
pub fn parse_integer(s: &str, signed: bool, lo: i64, hi: i64) -> (r: Option<i64>)
    ensures
        r == match integer_within(s@, signed, lo as int, hi as int) {
            Some(v) => Some(v as i64),
            None => None,
        },
{
    let cs = chars_of(s);
    if cs.len() == 0 {
        return None;
    }
    let first = cs[0];
    if first == '+' || (first == '-' && signed) {
        if cs.len() == 1 {
            return None;
        }
        match read_digits(&cs, 1, 0x8000_0000_0000_0000) {
            None => {
                proof {
                    if all_digits(cs@.skip(1)) {
                        assert(digits_value(cs@.skip(1)) > 0x8000_0000_0000_0000);
                    }
                }
                None
            },
            Some(magnitude) => {
                proof {
                    lemma_digits_nonnegative(cs@.skip(1));
                }
                if first == '+' {
                    if magnitude <= 0x7fff_ffff_ffff_ffff && lo <= magnitude as i64 && magnitude as i64
                        <= hi {
                        Some(magnitude as i64)
                    } else {
                        None
                    }
                } else if magnitude == 0x8000_0000_0000_0000 {
                    if lo == i64::MIN {
                        Some(i64::MIN)
                    } else {
                        None
                    }
                } else {
                    let v: i64 = -(magnitude as i64);
                    if lo <= v && v <= hi {
                        Some(v)
                    } else {
                        None
                    }
                }
            },
        }
    } else {
        assert(cs@.skip(0) =~= cs@);
        match read_digits(&cs, 0, 0x7fff_ffff_ffff_ffff) {
            None => None,
            Some(magnitude) => {
                proof {
                    lemma_digits_nonnegative(cs@);
                }
                if lo <= magnitude as i64 && magnitude as i64 <= hi {
                    Some(magnitude as i64)
                } else {
                    None
                }
            },
        }
    }
}

/// The unsigned 32-bit number that `s` writes: an optional `+`, then digits.
pub open spec fn u32_of(s: Seq<char>) -> Option<u32> {
    match integer_within(s, false, 0, u32::MAX as int) {
        Some(v) => Some(v as u32),
        None => None,
    }
}

/// The signed 32-bit number that `s` writes: an optional sign, then digits.
pub open spec fn i32_of(s: Seq<char>) -> Option<i32> {
    match integer_within(s, true, i32::MIN as int, i32::MAX as int) {
        Some(v) => Some(v as i32),
        None => None,
    }
}

/// The signed 64-bit number that `s` writes: an optional sign, then digits.
pub open spec fn i64_of(s: Seq<char>) -> Option<i64> {
    match integer_within(s, true, i64::MIN as int, i64::MAX as int) {
        Some(v) => Some(v as i64),
        None => None,
    }
}

/// Reads an unsigned 32-bit number: an optional `+`, then digits.
pub fn parse_u32(s: &str) -> (r: Option<u32>)
    ensures
        r == u32_of(s@),
{
    match parse_integer(s, false, 0, 0xffff_ffff) {
        Some(v) => Some(v as u32),
        None => None,
    }
}

/// Reads a signed 32-bit number: an optional sign, then digits.
pub fn parse_i32(s: &str) -> (r: Option<i32>)
    ensures
        r == i32_of(s@),
{
    match parse_integer(s, true, -0x8000_0000, 0x7fff_ffff) {
        Some(v) => Some(v as i32),
        None => None,
    }
}

/// Reads a signed 64-bit number: an optional sign, then digits.
pub fn parse_i64(s: &str) -> (r: Option<i64>)
    ensures
        r == i64_of(s@),
{
    parse_integer(s, true, i64::MIN, i64::MAX)
}

/// Where `c` first stands in `s`; the length of `s` where it does not.
pub open spec fn first_index(s: Seq<char>, c: char) -> int
    decreases s.len(),
{
    if s.len() == 0 || s[0] == c {
        0
    } else {
        1 + first_index(s.skip(1), c)
    }
}

/// Where `c` does not stand among the first `k` characters, it first stands
/// at `k` or later; and where it first stands, it stands.
pub proof fn lemma_first_index(s: Seq<char>, c: char, k: int)
    requires
        0 <= k <= s.len(),
        forall|j: int| 0 <= j < k ==> s[j] != c,
    ensures
        k <= first_index(s, c) <= s.len(),
        k < s.len() && s[k] == c ==> first_index(s, c) == k,
        first_index(s, c) < s.len() ==> s[first_index(s, c)] == c,
    decreases s.len(),
{
    if s.len() == 0 || s[0] == c {
    } else if k == 0 {
        lemma_first_index(s.skip(1), c, 0);
    } else {
        lemma_first_index(s.skip(1), c, k - 1);
    }
}

/// `v`, brought into `lo..=hi`: `lo` where it is less, `hi` where it is
/// more.
pub open spec fn clamp(v: int, lo: int, hi: int) -> int {
    if v < lo {
        lo
    } else if v > hi {
        hi
    } else {
        v
    }
}

/// The whole part of the decimal number that `s` writes: an optional sign,
/// digits, and optionally a point and more digits, with a digit on at least
/// one side of the point. What follows the point is dropped.
pub open spec fn whole_of(s: Seq<char>) -> Option<int> {
    let signed = s.len() > 0 && (s[0] == '+' || s[0] == '-');
    let body = if signed {
        s.skip(1)
    } else {
        s
    };
    let point = first_index(body, '.');
    let whole = body.take(point);
    let fraction = if point < body.len() {
        body.skip(point + 1)
    } else {
        Seq::<char>::empty()
    };
    if all_digits(whole) && all_digits(fraction) && whole.len() + fraction.len() > 0 {
        Some(
            if signed && s[0] == '-' {
                -digits_value(whole)
            } else {
                digits_value(whole)
            },
        )
    } else {
        None
    }
}

/// The index at which the digits that start at `from` end.
fn digits_end(cs: &Vec<char>, from: usize) -> (r: usize)
    requires
        from <= cs.len(),
    ensures
        from <= r <= cs.len(),
        forall|j: int| from <= j < r ==> is_digit(#[trigger] cs@[j]),
        r < cs.len() ==> !is_digit(cs@[r as int]),
{
    let mut i: usize = from;
    while i < cs.len() && cs[i] >= '0' && cs[i] <= '9'
        invariant
            from <= i <= cs.len(),
            forall|j: int| from <= j < i ==> is_digit(#[trigger] cs@[j]),
        decreases cs.len() - i,
    {
        i += 1;
    }
    i
}

/// `whole_of`, brought into `lo..=hi`.
pub open spec fn whole_within(s: Seq<char>, lo: i64, hi: i64) -> Option<i64> {
    match whole_of(s) {
        Some(v) => Some(clamp(v, lo as int, hi as int) as i64),
        None => None,
    }
}

/// Reads a decimal number and gives its whole part, brought into `lo..=hi`.
pub fn parse_whole(s: &str, lo: i64, hi: i64) -> (r: Option<i64>)
    ensures
        r == whole_within(s@, lo, hi),
{
    let cs = chars_of(s);
    let n = cs.len();
    let signed = n > 0 && (cs[0] == '+' || cs[0] == '-');
    let start: usize = if signed {
        1
    } else {
        0
    };
    let ghost body = cs@.skip(start as int);
    assert(body == if signed {
        s@.skip(1)
    } else {
        s@
    }) by {
        assert(cs@.skip(0) =~= cs@);
    }
    let end = digits_end(&cs, start);
    proof {
        assert forall|j: int| 0 <= j < end - start implies body[j] != '.' by {
            assert(is_digit(cs@[j + start]));
        }
        lemma_first_index(body, '.', end - start);
    }
    if end < n && cs[end] != '.' {
        proof {
            let point = first_index(body, '.');
            assert(!is_digit(body.take(point)[end - start]));
        }
        return None;
    }
    let ghost point = first_index(body, '.');
    assert(point == end - start);
    let ghost fraction = if point < body.len() {
        body.skip(point + 1)
    } else {
        Seq::<char>::empty()
    };
    let mut fraction_len: usize = 0;
    if end < n {
        let stop = digits_end(&cs, end + 1);
        if stop < n {
            assert(!is_digit(fraction[stop - end - 1]));
            return None;
        }
        assert forall|j: int| 0 <= j < fraction.len() implies is_digit(#[trigger] fraction[j]) by {
            assert(is_digit(cs@[j + end + 1]));
        }
        fraction_len = n - end - 1;
    }
    assert(all_digits(fraction));
    assert(fraction_len == fraction.len());
    if end - start + fraction_len == 0 {
        return None;
    }
    let mut whole: Vec<char> = Vec::new();
    let mut i: usize = start;
    while i < end
        invariant
            start <= i <= end <= cs.len(),
            whole@ == cs@.subrange(start as int, i as int),
        decreases end - i,
    {
        whole.push(cs[i]);
        assert(cs@.subrange(start as int, i + 1) =~= cs@.subrange(start as int, i as int).push(
            cs@[i as int],
        ));
        i += 1;
    }
    assert(whole@ =~= body.take(point));
    assert(whole@.skip(0) =~= whole@);
    assert(all_digits(whole@)) by {
        assert forall|j: int| 0 <= j < whole@.len() implies is_digit(#[trigger] whole@[j]) by {
            assert(is_digit(cs@[j + start]));
        }
    }
    proof {
        lemma_digits_nonnegative(whole@);
    }
    let negative = signed && cs[0] == '-';
    match read_digits(&whole, 0, 0x8000_0000_0000_0000) {
        None => {
            if negative {
                Some(lo)
            } else {
                Some(hi)
            }
        },
        Some(magnitude) => {
            if negative {
                if magnitude == 0x8000_0000_0000_0000 {
                    Some(lo)
                } else {
                    let v: i64 = -(magnitude as i64);
                    Some(
                        if v < lo {
                            lo
                        } else if v > hi {
                            hi
                        } else {
                            v
                        },
                    )
                }
            } else if magnitude > 0x7fff_ffff_ffff_ffff {
                Some(hi)
            } else {
                let v: i64 = magnitude as i64;
                Some(
                    if v < lo {
                        lo
                    } else if v > hi {
                        hi
                    } else {
                        v
                    },
                )
            }
        },
    }
}

/// Whether `c` is white space as Unicode defines it (the property
/// `White_Space`).
pub uninterp spec fn white_space(c: char) -> bool;

/// `char::is_whitespace`. The contract only names the outcome.
#[verifier::external_body]
pub(crate) fn is_whitespace(c: char) -> (r: bool)
    ensures
        r == white_space(c),
{
    c.is_whitespace()
}

/// How many characters at the start of `s` are not white space.
pub open spec fn word_len(s: Seq<char>) -> int
    decreases s.len(),
{
    if s.len() == 0 || white_space(s[0]) {
        0
    } else {
        1 + word_len(s.skip(1))
    }
}

/// The words of `s`: its longest runs of characters that are not white
/// space, in order.
pub open spec fn words(s: Seq<char>) -> Seq<Seq<char>>
    decreases s.len(),
    via words_decreases
{
    if s.len() == 0 {
        Seq::empty()
    } else if white_space(s[0]) {
        words(s.skip(1))
    } else {
        seq![s.take(word_len(s))] + words(s.skip(word_len(s)))
    }
}

#[via_fn]
proof fn words_decreases(s: Seq<char>) {
    if s.len() > 0 && !white_space(s[0]) {
        lemma_word_len(s);
    }
}

/// A word is no longer than the text that it starts, and has a character
/// where the text starts with one that is no white space.
pub proof fn lemma_word_len(s: Seq<char>)
    ensures
        0 <= word_len(s) <= s.len(),
        s.len() > 0 && !white_space(s[0]) ==> word_len(s) > 0,
    decreases s.len(),
{
    if s.len() > 0 && !white_space(s[0]) {
        lemma_word_len(s.skip(1));
    }
}

/// The character sequences of a sequence of strings.
pub open spec fn texts(v: Seq<String>) -> Seq<Seq<char>> {
    Seq::new(v.len(), |i: int| v[i]@)
}

/// Splits `s` at white space into its words.
pub fn split_words(s: &str) -> (r: Vec<String>)
    ensures
        texts(r@) == words(s@),
{
    let cs = chars_of(s);
    let n = cs.len();
    let mut out: Vec<String> = Vec::new();
    let mut i: usize = 0;
    assert(s@.skip(0) =~= s@);
    while i < n
        invariant
            n == cs.len(),
            cs@ == s@,
            i <= n,
            words(s@) == texts(out@) + words(s@.skip(i as int)),
        decreases n - i,
    {
        let ghost rest = s@.skip(i as int);
        if is_whitespace(cs[i]) {
            assert(rest.skip(1) =~= s@.skip(i + 1));
            i += 1;
        } else {
            let mut j: usize = i + 1;
            assert(rest.skip(0) =~= rest);
            while j < n && !is_whitespace(cs[j])
                invariant
                    n == cs.len(),
                    cs@ == s@,
                    i < j <= n,
                    rest == s@.skip(i as int),
                    word_len(rest) == (j - i) + word_len(rest.skip(j - i)),
                decreases n - j,
            {
                assert(rest.skip(j - i).skip(1) =~= rest.skip(j - i + 1));
                j += 1;
            }
            assert(word_len(rest) == j - i);
            let word = s.substring_char(i, j).to_owned();
            proof {
                assert(word@ =~= rest.take(j - i));
                assert(rest.skip(j - i) =~= s@.skip(j as int));
                assert(texts(out@.push(word)) =~= texts(out@) + seq![word@]);
            }
            out.push(word);
            i = j;
        }
    }
    assert(texts(out@) + Seq::<Seq<char>>::empty() =~= texts(out@));
    out
}

/// The items of `parts` one after another, with `sep` between neighbours.
pub open spec fn joined(parts: Seq<Seq<char>>, sep: Seq<char>) -> Seq<char>
    decreases parts.len(),
{
    if parts.len() == 0 {
        Seq::empty()
    } else if parts.len() == 1 {
        parts[0]
    } else {
        joined(parts.drop_last(), sep) + sep + parts.last()
    }
}

/// `Itertools::join` on the strings of `parts`: every string in order, with
/// `sep` between two neighbours and nothing at either end.
#[verifier::external_body]
pub(crate) fn join(parts: &Vec<String>, sep: &str) -> (r: String)
    ensures
        r@ == joined(texts(parts@), sep@),
{
    parts.iter().join(sep)
}

/// The character sequences of a sequence of runs of strings.
pub open spec fn run_texts(runs: Seq<Vec<String>>) -> Seq<Seq<Seq<char>>> {
    Seq::new(runs.len(), |i: int| texts(runs[i]@))
}

/// `items` cut into runs: an item whose key is that of the item before it
/// goes to the run of that item, and any other item starts a run.
pub open spec fn runs_of(keys: Seq<usize>, items: Seq<Seq<char>>) -> Seq<Seq<Seq<char>>>
    decreases items.len(),
{
    if items.len() == 0 {
        Seq::empty()
    } else {
        let before = runs_of(keys.drop_last(), items.drop_last());
        if items.len() > 1 && keys[items.len() - 1] == keys[items.len() - 2] {
            before.update(before.len() - 1, before.last().push(items.last()))
        } else {
            before.push(seq![items.last()])
        }
    }
}

/// `Itertools::group_by` on the strings of `words`, the key of each being
/// the item of `keys` at its place: neighbours with the same key make one
/// run, and the runs come in the order of the words.
#[verifier::external_body]
pub(crate) fn group_runs(keys: &Vec<usize>, words: &Vec<String>) -> (r: Vec<Vec<String>>)
    requires
        keys@.len() == words@.len(),
    ensures
        run_texts(r@) == runs_of(keys@, texts(words@)),
{
    let grouped = keys.iter().zip(words.iter()).group_by(|pair| *pair.0);
    (&grouped).into_iter().map(|(_, run)| run.map(|pair| pair.1.clone()).collect()).collect()
}

/// The strings of `parts` from `from` up to `to`, joined by single spaces.
pub fn join_range(parts: &Vec<String>, from: usize, to: usize) -> (r: String)
    requires
        from <= to <= parts.len(),
    ensures
        r@ == joined(texts(parts@).subrange(from as int, to as int), seq![' ']),
{
    let mut picked: Vec<String> = Vec::new();
    let mut i: usize = from;
    while i < to
        invariant
            from <= i <= to <= parts.len(),
            picked@.len() == i - from,
            texts(picked@) == texts(parts@).subrange(from as int, i as int),
        decreases to - i,
    {
        let item = parts[i].clone();
        proof {
            let grown = texts(picked@.push(item));
            let wanted = texts(parts@).subrange(from as int, i + 1);
            assert(item@ == parts@[i as int]@);
            assert forall|k: int| 0 <= k < grown.len() implies grown[k] == wanted[k] by {
                if k < picked@.len() {
                    assert(texts(picked@)[k] == texts(parts@).subrange(from as int, i as int)[k]);
                }
            }
            assert(grown =~= wanted);
        }
        picked.push(item);
        i += 1;
    }
    proof {
        reveal_strlit(" ");
        assert(" "@ =~= seq![' ']);
    }
    join(&picked, " ")
}

} // verus!

//! The words of a command line: which of them ask for help, which write
//! the moment, and which write the offsets.

use crate::pattern::{is_match, is_match_of};
use crate::text::{
    chars_of, group_runs, is_whitespace, join, join_range, joined, run_texts, runs_of, texts,
    white_space,
};
use vstd::prelude::*;

verus! {

/// A zone offset such as `+0800`: a sign and four digits.
pub const OFFSET: &'static str = r"^[\+-]\d{4}$";

/// A command line, taken apart.
#[derive(Debug)]
pub struct Args {
    /// The phrase that writes the moment; empty where there is none.
    pub moment: String,
    /// The phrases that write offsets, each from its sign on.
    pub delta: Vec<String>,
}

/// How many characters at the start of `s` are white space.
pub open spec fn leading_space(s: Seq<char>) -> int
    decreases s.len(),
{
    if s.len() == 0 || !white_space(s[0]) {
        0
    } else {
        1 + leading_space(s.skip(1))
    }
}

/// How many characters at the end of `s` are white space.
pub open spec fn trailing_space(s: Seq<char>) -> int
    decreases s.len(),
{
    if s.len() == 0 || !white_space(s.last()) {
        0
    } else {
        1 + trailing_space(s.drop_last())
    }
}

/// `s` without the white space at its ends.
pub open spec fn trimmed(s: Seq<char>) -> Seq<char> {
    if leading_space(s) >= s.len() {
        Seq::empty()
    } else {
        s.subrange(leading_space(s), s.len() - trailing_space(s))
    }
}

/// `t` is one of the three words that ask for help: `-h`, `--help`, `help`.
pub open spec fn asks_help(t: Seq<char>) -> bool {
    ||| t == seq!['-', 'h']
    ||| t == seq!['-', '-', 'h', 'e', 'l', 'p']
    ||| t == seq!['h', 'e', 'l', 'p']
}

/// White space up to a character that is none, or to the end, is all the
/// white space that leads.
pub proof fn lemma_leading_space(s: Seq<char>, k: int)
    requires
        0 <= k <= s.len(),
        forall|j: int| 0 <= j < k ==> white_space(#[trigger] s[j]),
        k < s.len() ==> !white_space(s[k]),
    ensures
        leading_space(s) == k,
    decreases k,
{
    if k > 0 {
        assert(white_space(s[0]));
        assert forall|j: int| 0 <= j < k - 1 implies white_space(#[trigger] s.skip(1)[j]) by {
            assert(s.skip(1)[j] == s[j + 1]);
        }
        lemma_leading_space(s.skip(1), k - 1);
    }
}

/// White space back to a character that is none, or to the start, is all
/// the white space that trails.
pub proof fn lemma_trailing_space(s: Seq<char>, k: int)
    requires
        0 <= k <= s.len(),
        forall|j: int| s.len() - k <= j < s.len() ==> white_space(#[trigger] s[j]),
        k < s.len() ==> !white_space(s[s.len() - k - 1]),
    ensures
        trailing_space(s) == k,
    decreases k,
{
    if k > 0 {
        assert(white_space(s[s.len() - 1]));
        assert forall|j: int| s.drop_last().len() - (k - 1) <= j < s.drop_last().len() implies white_space(
            #[trigger] s.drop_last()[j],
        ) by {
            assert(s.drop_last()[j] == s[j]);
        }
        lemma_trailing_space(s.drop_last(), k - 1);
    }
}

/// Whether the word `s`, the white space at its ends apart, asks for help.
/// Only these three do, and only in lower case: `-h`, `--help`, `help`.
pub fn should_show_help(s: &str) -> (r: bool)
    ensures
        r == asks_help(trimmed(s@)),
{
    let cs = chars_of(s);
    let n = cs.len();
    let mut from: usize = 0;
    while from < n && is_whitespace(cs[from])
        invariant
            n == cs.len(),
            from <= n,
            forall|j: int| 0 <= j < from ==> white_space(#[trigger] cs@[j]),
        decreases n - from,
    {
        from += 1;
    }
    proof {
        lemma_leading_space(s@, from as int);
    }
    if from == n {
        assert(!asks_help(Seq::<char>::empty())) by {
            assert(seq!['-', 'h'].len() == 2);
            assert(seq!['-', '-', 'h', 'e', 'l', 'p'].len() == 6);
            assert(seq!['h', 'e', 'l', 'p'].len() == 4);
        }
        return false;
    }
    let mut to: usize = n;
    while to > from && is_whitespace(cs[to - 1])
        invariant
            n == cs.len(),
            from <= to <= n,
            from < n,
            !white_space(cs@[from as int]),
            forall|j: int| to <= j < n ==> white_space(#[trigger] cs@[j]),
        decreases to,
    {
        to -= 1;
    }
    proof {
        lemma_trailing_space(s@, n - to);
    }
    let ghost t = trimmed(s@);
    assert(t =~= cs@.subrange(from as int, to as int));
    let len = to - from;
    if len == 2 {
        let r = cs[from] == '-' && cs[from + 1] == 'h';
        proof {
            assert(t[0] == cs@[from as int] && t[1] == cs@[from + 1]);
            if r {
                assert(t =~= seq!['-', 'h']);
            }
        }
        r
    } else if len == 6 {
        let r = cs[from] == '-' && cs[from + 1] == '-' && cs[from + 2] == 'h' && cs[from + 3] == 'e'
            && cs[from + 4] == 'l' && cs[from + 5] == 'p';
        proof {
            assert(t[0] == cs@[from as int] && t[1] == cs@[from + 1] && t[2] == cs@[from + 2]
                && t[3] == cs@[from + 3] && t[4] == cs@[from + 4] && t[5] == cs@[from + 5]);
            if r {
                assert(t =~= seq!['-', '-', 'h', 'e', 'l', 'p']);
            }
        }
        r
    } else if len == 4 {
        let r = cs[from] == 'h' && cs[from + 1] == 'e' && cs[from + 2] == 'l' && cs[from + 3]
            == 'p';
        proof {
            assert(t[0] == cs@[from as int] && t[1] == cs@[from + 1] && t[2] == cs@[from + 2]
                && t[3] == cs@[from + 3]);
            if r {
                assert(t =~= seq!['h', 'e', 'l', 'p']);
            }
        }
        r
    } else {
        false
    }
}

/// The word `s` starts an offset phrase: it begins with a sign and is no
/// zone offset.
pub open spec fn delta_text(s: Seq<char>) -> bool {
    &&& s.len() > 0
    &&& (s[0] == '+' || s[0] == '-')
    &&& is_match_of(OFFSET@, s) != Some(true)
}

/// Whether the word `s` starts an offset phrase.
pub fn is_delta(s: &str) -> (r: bool)
    ensures
        r == delta_text(s@),
{
    if s.unicode_len() == 0 {
        return false;
    }
    let first = s.get_char(0);
    if first != '+' && first != '-' {
        return false;
    }
    match is_match(OFFSET, s) {
        Some(true) => false,
        _ => true,
    }
}

/// How many words stand before the first that starts an offset phrase.
pub open spec fn moment_words(args: Seq<Seq<char>>) -> int
    decreases args.len(),
{
    if args.len() == 0 || delta_text(args[0]) {
        0
    } else {
        1 + moment_words(args.skip(1))
    }
}

/// The offset phrases that the words `rest` make up: a word that starts a
/// phrase opens one, and any other word goes to the end of the phrase that
/// is open, after one space.
pub open spec fn phrases_of(rest: Seq<Seq<char>>) -> Seq<Seq<char>>
    decreases rest.len(),
{
    if rest.len() == 0 {
        Seq::empty()
    } else {
        let before = phrases_of(rest.drop_last());
        if delta_text(rest.last()) || before.len() == 0 {
            before.push(rest.last())
        } else {
            before.update(before.len() - 1, before.last() + seq![' '] + rest.last())
        }
    }
}

/// Words that start no offset phrase, up to one that does or to the end, are
/// the words of the moment.
pub proof fn lemma_moment_words(args: Seq<Seq<char>>, k: int)
    requires
        0 <= k <= args.len(),
        forall|j: int| 0 <= j < k ==> !delta_text(#[trigger] args[j]),
        k < args.len() ==> delta_text(args[k]),
    ensures
        moment_words(args) == k,
    decreases k,
{
    if k > 0 {
        assert(!delta_text(args[0]));
        assert forall|j: int| 0 <= j < k - 1 implies !delta_text(#[trigger] args.skip(1)[j]) by {
            assert(args.skip(1)[j] == args[j + 1]);
        }
        lemma_moment_words(args.skip(1), k - 1);
    }
}

/// How many of `words` start an offset phrase.
pub open spec fn delta_count(words: Seq<Seq<char>>) -> nat
    decreases words.len(),
{
    if words.len() == 0 {
        0
    } else if delta_text(words.last()) {
        delta_count(words.drop_last()) + 1
    } else {
        delta_count(words.drop_last())
    }
}

/// Every run, its words joined by single spaces.
pub open spec fn joined_runs(runs: Seq<Seq<Seq<char>>>) -> Seq<Seq<char>> {
    Seq::new(runs.len(), |i: int| joined(runs[i], seq![' ']))
}

/// No more words start an offset phrase than there are words.
pub proof fn lemma_delta_count(words: Seq<Seq<char>>)
    ensures
        delta_count(words) <= words.len(),
    decreases words.len(),
{
    if words.len() > 0 {
        lemma_delta_count(words.drop_last());
    }
}

/// With every word keyed by the number of words up to it that start an
/// offset phrase, the runs of equal keys are the offset phrases.
pub proof fn lemma_runs_are_phrases(keys: Seq<usize>, rest: Seq<Seq<char>>)
    requires
        keys.len() == rest.len(),
        forall|j: int| 0 <= j < rest.len() ==> #[trigger] keys[j] == delta_count(rest.take(j + 1)),
    ensures
        joined_runs(runs_of(keys, rest)) == phrases_of(rest),
        rest.len() > 0 ==> runs_of(keys, rest).len() > 0,
        forall|i: int| 0 <= i < runs_of(keys, rest).len() ==> (#[trigger] runs_of(keys, rest)[i]).len() > 0,
    decreases rest.len(),
{
    let n = rest.len() as int;
    if n == 0 {
        assert(joined_runs(runs_of(keys, rest)) =~= phrases_of(rest));
    } else {
        let fewer = rest.drop_last();
        let fewer_keys = keys.drop_last();
        assert forall|j: int| 0 <= j < fewer.len() implies #[trigger] fewer_keys[j] == delta_count(
            fewer.take(j + 1),
        ) by {
            assert(fewer.take(j + 1) =~= rest.take(j + 1));
            assert(fewer_keys[j] == keys[j]);
        }
        lemma_runs_are_phrases(fewer_keys, fewer);
        let before = runs_of(fewer_keys, fewer);
        let runs = runs_of(keys, rest);
        let last = rest.last();
        assert(rest.take(n) =~= rest);
        if n > 1 {
            assert(rest.take(n - 1) =~= fewer);
            assert(keys[n - 1] == delta_count(rest));
            assert(keys[n - 2] == delta_count(fewer));
            lemma_delta_count(rest);
            lemma_delta_count(fewer);
            assert(keys[n - 1] == keys[n - 2] <==> !delta_text(last));
        }
        if n > 1 && !delta_text(last) {
            let open = before.last();
            assert(runs == before.update(before.len() - 1, open.push(last)));
            assert(open.push(last).drop_last() =~= open);
            assert(joined(open.push(last), seq![' ']) == joined(open, seq![' ']) + seq![' '] + last);
            assert(joined_runs(runs) =~= joined_runs(before).update(
                before.len() - 1,
                joined_runs(before).last() + seq![' '] + last,
            ));
        } else {
            assert(runs == before.push(seq![last]));
            assert(joined_runs(runs) =~= joined_runs(before).push(last));
        }
    }
}

/// Takes the words of a command line apart: the words before the first
/// that starts an offset phrase write the moment, one space between them;
/// the others make up the offset phrases.
pub fn split_args(args: &Vec<String>) -> (r: Args)
    ensures
        r.moment@ == joined(texts(args@).take(moment_words(texts(args@))), seq![' ']),
        texts(r.delta@) == phrases_of(texts(args@).skip(moment_words(texts(args@)))),
{
    let ghost all = texts(args@);
    let n = args.len();
    let mut k: usize = 0;
    while k < n && !is_delta(args[k].as_str())
        invariant
            n == args.len(),
            k <= n,
            all == texts(args@),
            forall|j: int| 0 <= j < k ==> !delta_text(#[trigger] all[j]),
        decreases n - k,
    {
        k += 1;
    }
    proof {
        lemma_moment_words(all, k as int);
        assert(all.subrange(0, k as int) =~= all.take(k as int));
    }
    let moment = join_range(args, 0, k);
    let ghost rest = all.skip(k as int);
    let mut words: Vec<String> = Vec::new();
    let mut keys: Vec<usize> = Vec::new();
    let mut group_idx: usize = 0;
    let mut i: usize = k;
    assert(rest.take(0) =~= Seq::<Seq<char>>::empty());
    while i < n
        invariant
            n == args.len(),
            k <= i <= n,
            all == texts(args@),
            rest == all.skip(k as int),
            texts(words@) == rest.take(i - k),
            keys@.len() == i - k,
            words@.len() == i - k,
            group_idx == delta_count(rest.take(i - k)),
            forall|j: int| 0 <= j < i - k ==> #[trigger] keys@[j] == delta_count(rest.take(j + 1)),
        decreases n - i,
    {
        let ghost before = texts(words@);
        proof {
            assert(rest.take(i - k + 1).drop_last() =~= rest.take(i - k));
            assert(rest.take(i - k + 1).last() == args@[i as int]@);
            lemma_delta_count(rest.take(i - k + 1));
        }
        let word = args[i].clone();
        if is_delta(word.as_str()) {
            group_idx += 1;
        }
        words.push(word);
        keys.push(group_idx);
        assert(texts(words@) =~= before.push(word@));
        assert(before.push(word@) =~= rest.take(i - k + 1));
        i += 1;
    }
    assert(rest.take(n - k) =~= rest);
    let runs = group_runs(&keys, &words);
    proof {
        lemma_runs_are_phrases(keys@, rest);
    }
    let ghost phrases = phrases_of(rest);
    let mut delta: Vec<String> = Vec::new();
    let mut g: usize = 0;
    while g < runs.len()
        invariant
            g <= runs.len(),
            delta@.len() == g,
            joined_runs(run_texts(runs@)) == phrases,
            forall|j: int| 0 <= j < g ==> (#[trigger] delta@[j])@ == phrases[j],
        decreases runs.len() - g,
    {
        proof {
            reveal_strlit(" ");
            assert(" "@ =~= seq![' ']);
        }
        let phrase = join(&runs[g], " ");
        assert(phrase@ == joined_runs(run_texts(runs@))[g as int]);
        delta.push(phrase);
        g += 1;
    }
    assert(texts(delta@) =~= phrases);
    Args { moment, delta }
}

} // verus!

//! The date, time and numeric zone offset at the head of a log line, as in
//! `2018-11-21 11:21:11.123 +0800 CST`.

use crate::clock::{from_layout, layout_seconds, Moment};
use crate::moment::candidate;
use crate::text::{join_range, joined, split_words, texts, words};
use vstd::prelude::*;

verus! {

/// Date, time with an optional fraction of a second, and zone offset.
pub const LAYOUT: &'static str = "%Y-%m-%d %H:%M:%S%.f %z";

/// The first three words of `s`, with one space between neighbours.
pub open spec fn head_of(s: Seq<char>) -> Seq<char> {
    let all = words(s);
    joined(
        all.take(
            if all.len() < 3 {
                all.len() as int
            } else {
                3
            },
        ),
        seq![' '],
    )
}

/// Reads the first three words of `s` in the layout `LAYOUT` and gives the
/// moment on the local clock: one exactly where the words fit the layout,
/// and then it is the instant that they write.
pub fn parse(s: &str) -> (r: Option<Vec<Moment>>)
    ensures
        r is Some <==> layout_seconds(LAYOUT@, head_of(s@)) is Some,
        r matches Some(v) ==> v@.len() == 1 && v@[0].well_formed() && layout_seconds(
            LAYOUT@,
            head_of(s@),
        ) == Some(v@[0].timestamp),
{
    let all = split_words(s);
    let n: usize = if all.len() < 3 {
        all.len()
    } else {
        3
    };
    assert(texts(all@).subrange(0, n as int) =~= words(s@).take(n as int));
    let head = join_range(&all, 0, n);
    candidate(from_layout(LAYOUT, head.as_str()))
}

} // verus!

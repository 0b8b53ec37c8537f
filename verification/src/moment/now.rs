//! The empty phrase: the present moment.

use crate::clock::Moment;
use vstd::prelude::*;

verus! {

/// Reads the empty phrase as `now`, and nothing else as anything.
pub fn parse(s: &str, now: &Moment) -> (r: Option<Vec<Moment>>)
    ensures
        s@.len() == 0 ==> (r matches Some(v) && v@ == seq![*now]),
        s@.len() != 0 ==> r is None,
{
    if s.unicode_len() == 0 {
        let mut v: Vec<Moment> = Vec::new();
        v.push(*now);
        Some(v)
    } else {
        None
    }
}

} // verus!

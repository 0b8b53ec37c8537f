//! A date and time as RFC 2822 or RFC 3339 writes it.

use crate::clock::{from_rfc2822, from_rfc3339, rfc2822_seconds, rfc3339_seconds, Moment};
use crate::moment::candidate;
use vstd::prelude::*;

verus! {

/// The seconds since the epoch of the moment that `s` writes: as RFC 2822
/// has it, and where that fails, as RFC 3339 has it.
pub open spec fn seconds_of(s: Seq<char>) -> Option<i64> {
    if rfc2822_seconds(s) is Some {
        rfc2822_seconds(s)
    } else {
        rfc3339_seconds(s)
    }
}

/// Reads `s` as RFC 2822 and then as RFC 3339, and gives the moment on the
/// local clock: one exactly where `s` is one of the two, and then it is the
/// instant that `s` writes.
pub fn parse(s: &str) -> (r: Option<Vec<Moment>>)
    ensures
        r is Some <==> seconds_of(s@) is Some,
        r matches Some(v) ==> v@.len() == 1 && v@[0].well_formed() && seconds_of(s@) == Some(
            v@[0].timestamp,
        ),
{
    if let Some(m) = from_rfc2822(s) {
        return candidate(Some(m));
    }
    if let Some(m) = from_rfc3339(s) {
        return candidate(Some(m));
    }
    None
}

} // verus!

//! Resolves free-form time expressions ("now", a timestamp, a date, a time of
//! day, an RFC string) and signed offsets ("+1day", "-3h") to local moments.

pub mod args;
pub mod clock;
pub mod delta;
pub mod moment;
pub mod pattern;
pub mod resolve;
pub mod text;

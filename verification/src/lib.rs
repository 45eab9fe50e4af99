//! Render a machine uptime, given as a whole number of seconds, as a
//! human-readable English phrase such as
//! `"27 years, 4 months, 16 days, 11 hours, 45 minutes, and 36 seconds"`,
//! with an optional single-letter shorthand for the unit names.
//!
//! The formatting is pure and fully specified: every public function
//! carries a contract that pins its result down to the exact sequence of
//! characters. Querying the operating system for the uptime itself is I/O
//! and lives with the caller; the library only consumes the plain count of
//! seconds.

use vstd::prelude::*;

pub mod digits;
pub mod duration;
pub mod replace;
pub mod shorthand;

verus! {

/// The one failure the surrounding program can meet: the platform query
/// for the boot time did not succeed. The library itself never fails; the
/// type is offered so that callers can report the query's outcome as a
/// typed value instead of a bare string.
#[derive(Clone, Copy, Debug, PartialEq, Eq, Structural)]
pub enum ErrorKind {
    SystemQueryFailed,
}

impl ErrorKind {
    /// A short diagnostic text for the error, for callers that print it.
    pub fn message(&self) -> (r: String)
        ensures
            r@ == "system uptime query failed"@,
    {
        String::from_str("system uptime query failed")
    }
}

/// Format `seconds` of uptime as an English phrase; with `short`, the unit
/// names are further abbreviated to single letters.
pub fn uptime(seconds: u64, short: bool) -> (r: String)
    ensures
        short ==> r@ == shorthand::spec_to_shorthand(duration::spec_format_duration(seconds as int)),
        !short ==> r@ == duration::spec_format_duration(seconds as int),
{
    let phrase = duration::format_duration(seconds);
    if short {
        shorthand::parse_for_shorthand_time(phrase)
    } else {
        phrase
    }
}

} // verus!

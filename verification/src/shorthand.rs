//! The shorthand transform: unit names give way to single letters, by
//! plain global substring replacement, plural before singular, largest
//! unit first. Numerals, punctuation and the word `"and"` stay; so does
//! `"month"`, which has no abbreviation.

use crate::replace::{contains_pat, lemma_replace_absent, replace, spec_replace};
use vstd::prelude::*;

verus! {

/// The shorthand of a phrase: each unit token replaced by its letter, in
/// the fixed order years, year, days, day, hours, hour, minutes, minute,
/// seconds, second.
pub open spec fn spec_to_shorthand(s: Seq<char>) -> Seq<char> {
    let s1 = spec_replace(s, "years"@, "y"@);
    let s2 = spec_replace(s1, "year"@, "y"@);
    let s3 = spec_replace(s2, "days"@, "d"@);
    let s4 = spec_replace(s3, "day"@, "d"@);
    let s5 = spec_replace(s4, "hours"@, "h"@);
    let s6 = spec_replace(s5, "hour"@, "h"@);
    let s7 = spec_replace(s6, "minutes"@, "m"@);
    let s8 = spec_replace(s7, "minute"@, "m"@);
    let s9 = spec_replace(s8, "seconds"@, "s"@);
    spec_replace(s9, "second"@, "s"@)
}

/// Abbreviate the unit names of a formatted phrase to single letters:
/// `"1 minute, and 36 seconds"` becomes `"1 m, and 36 s"`.
pub fn parse_for_shorthand_time(uptime: String) -> (r: String)
    ensures
        r@ == spec_to_shorthand(uptime@),
{
    proof {
        reveal_strlit("years");
        reveal_strlit("year");
        reveal_strlit("days");
        reveal_strlit("day");
        reveal_strlit("hours");
        reveal_strlit("hour");
        reveal_strlit("minutes");
        reveal_strlit("minute");
        reveal_strlit("seconds");
        reveal_strlit("second");
    }
    let t = replace(uptime.as_str(), "years", "y");
    let t = replace(t.as_str(), "year", "y");
    let t = replace(t.as_str(), "days", "d");
    let t = replace(t.as_str(), "day", "d");
    let t = replace(t.as_str(), "hours", "h");
    let t = replace(t.as_str(), "hour", "h");
    let t = replace(t.as_str(), "minutes", "m");
    let t = replace(t.as_str(), "minute", "m");
    let t = replace(t.as_str(), "seconds", "s");
    replace(t.as_str(), "second", "s")
}

/// The shorthand transform is idempotent on any phrase whose shorthand
/// holds no further unit token: once every token has given way to its
/// letter, a second pass finds nothing to replace. A full-unit phrase as
/// the formatter builds it is of this kind; an arbitrary string need not
/// be, since a replacement can splice a fresh token together out of its
/// neighbours.
pub proof fn lemma_shorthand_idempotent(p: Seq<char>)
    requires
        !contains_pat(spec_to_shorthand(p), "years"@),
        !contains_pat(spec_to_shorthand(p), "year"@),
        !contains_pat(spec_to_shorthand(p), "days"@),
        !contains_pat(spec_to_shorthand(p), "day"@),
        !contains_pat(spec_to_shorthand(p), "hours"@),
        !contains_pat(spec_to_shorthand(p), "hour"@),
        !contains_pat(spec_to_shorthand(p), "minutes"@),
        !contains_pat(spec_to_shorthand(p), "minute"@),
        !contains_pat(spec_to_shorthand(p), "seconds"@),
        !contains_pat(spec_to_shorthand(p), "second"@),
    ensures
        spec_to_shorthand(spec_to_shorthand(p)) == spec_to_shorthand(p),
{
    reveal_strlit("years");
    reveal_strlit("year");
    reveal_strlit("days");
    reveal_strlit("day");
    reveal_strlit("hours");
    reveal_strlit("hour");
    reveal_strlit("minutes");
    reveal_strlit("minute");
    reveal_strlit("seconds");
    reveal_strlit("second");
    let q = spec_to_shorthand(p);
    lemma_replace_absent(q, "years"@, "y"@);
    lemma_replace_absent(q, "year"@, "y"@);
    lemma_replace_absent(q, "days"@, "d"@);
    lemma_replace_absent(q, "day"@, "d"@);
    lemma_replace_absent(q, "hours"@, "h"@);
    lemma_replace_absent(q, "hour"@, "h"@);
    lemma_replace_absent(q, "minutes"@, "m"@);
    lemma_replace_absent(q, "minute"@, "m"@);
    lemma_replace_absent(q, "seconds"@, "s"@);
    lemma_replace_absent(q, "second"@, "s"@);
}

} // verus!

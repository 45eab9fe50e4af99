//! Decomposing a duration into calendar units and rendering it as an
//! English phrase: `"1 day, 0 hour, and 1 second"`.

use crate::digits::{is_digit_char, lemma_digits_shape, spec_digits, u64_to_string};
use crate::replace::occurs_at;
use vstd::prelude::*;

verus! {

/// Seconds in an average year of 365.25 days.
pub const YEAR_SECONDS: u64 = 31557600;

/// Seconds in an average month of 30.44 days.
pub const MONTH_SECONDS: u64 = 2630016;

/// Seconds in a day.
pub const DAY_SECONDS: u64 = 86400;

/// Seconds in an hour.
pub const HOUR_SECONDS: u64 = 3600;

/// Seconds in a minute.
pub const MINUTE_SECONDS: u64 = 60;

/// Whole years in a duration of `s` seconds.
pub open spec fn spec_years(s: int) -> int {
    s / (YEAR_SECONDS as int)
}

/// What is left of `s` seconds once the whole years are taken out.
pub open spec fn spec_after_years(s: int) -> int {
    s % (YEAR_SECONDS as int)
}

/// Whole months left after the years.
pub open spec fn spec_months(s: int) -> int {
    spec_after_years(s) / (MONTH_SECONDS as int)
}

/// Remainder after years and months.
pub open spec fn spec_after_months(s: int) -> int {
    spec_after_years(s) % (MONTH_SECONDS as int)
}

/// Whole days left after years and months.
pub open spec fn spec_days(s: int) -> int {
    spec_after_months(s) / (DAY_SECONDS as int)
}

/// Remainder after years, months and days.
pub open spec fn spec_after_days(s: int) -> int {
    spec_after_months(s) % (DAY_SECONDS as int)
}

/// Whole hours left after years, months and days.
pub open spec fn spec_hours(s: int) -> int {
    spec_after_days(s) / (HOUR_SECONDS as int)
}

/// Remainder after years, months, days and hours.
pub open spec fn spec_after_hours(s: int) -> int {
    spec_after_days(s) % (HOUR_SECONDS as int)
}

/// Whole minutes left after years, months, days and hours.
pub open spec fn spec_minutes(s: int) -> int {
    spec_after_hours(s) / (MINUTE_SECONDS as int)
}

/// The seconds that remain below a minute.
pub open spec fn spec_seconds_rem(s: int) -> int {
    spec_after_hours(s) % (MINUTE_SECONDS as int)
}

/// A duration broken into calendar units, largest first.
pub struct Units {
    pub years: u64,
    pub months: u64,
    pub days: u64,
    pub hours: u64,
    pub minutes: u64,
    pub seconds: u64,
}

impl Units {
    /// The units describe exactly the duration `s`: each field is the
    /// quotient the successive division gives, and the weighted sum of all
    /// six fields rebuilds `s`.
    pub open spec fn decomposes(self, s: int) -> bool {
        &&& self.years == spec_years(s)
        &&& self.months == spec_months(s)
        &&& self.days == spec_days(s)
        &&& self.hours == spec_hours(s)
        &&& self.minutes == spec_minutes(s)
        &&& self.seconds == spec_seconds_rem(s)
    }
}

/// Break `seconds` into years, months, days, hours, minutes and seconds,
/// largest unit first. The sum in the contract is the round-trip fact: the
/// decomposition loses nothing, and every unit but the years stays under
/// the size of the next larger one.
pub fn decompose(seconds: u64) -> (u: Units)
    ensures
        u.decomposes(seconds as int),
        u.years * YEAR_SECONDS + u.months * MONTH_SECONDS + u.days * DAY_SECONDS + u.hours
            * HOUR_SECONDS + u.minutes * MINUTE_SECONDS + u.seconds == seconds,
        u.months < 12,
        u.days < 31,
        u.hours < 24,
        u.minutes < 60,
        u.seconds < 60,
{
    let years = seconds / YEAR_SECONDS;
    let r1 = seconds % YEAR_SECONDS;
    let months = r1 / MONTH_SECONDS;
    let r2 = r1 % MONTH_SECONDS;
    let days = r2 / DAY_SECONDS;
    let r3 = r2 % DAY_SECONDS;
    let hours = r3 / HOUR_SECONDS;
    let r4 = r3 % HOUR_SECONDS;
    let minutes = r4 / MINUTE_SECONDS;
    let secs = r4 % MINUTE_SECONDS;
    proof {
        lemma_round_trip(seconds as int);
    }
    Units { years, months, days, hours, minutes, seconds: secs }
}

/// One clause of the phrase: the count in decimal, a space, the unit name,
/// and a plural `'s'` exactly when the count is above one. A count of zero
/// (possible in a bridged hour or minute clause) stays singular, as in
/// `"0 hour"`.
pub open spec fn spec_clause(count: int, name: Seq<char>) -> Seq<char>
    recommends
        count >= 0,
{
    spec_digits(count as nat) + seq![' '] + name + (if count > 1 {
        seq!['s']
    } else {
        Seq::<char>::empty()
    })
}

/// A clause list of zero or one entries, depending on `emit`.
pub open spec fn opt_clause(emit: bool, count: int, name: Seq<char>) -> Seq<Seq<char>> {
    if emit {
        seq![spec_clause(count, name)]
    } else {
        Seq::<Seq<char>>::empty()
    }
}

/// The clauses the phrase is built from, in fixed order from years down to
/// seconds. A unit appears when its count is nonzero; in addition, the
/// hours clause bridges the gap when days are present but only minutes or
/// seconds follow, and the minutes clause bridges likewise between hours
/// and seconds.
pub open spec fn spec_clauses(y: int, mo: int, d: int, h: int, mi: int, se: int) -> Seq<Seq<char>> {
    opt_clause(y > 0, y, "year"@) + opt_clause(mo > 0, mo, "month"@) + opt_clause(d > 0, d, "day"@)
        + opt_clause(h > 0 || (d > 0 && (mi > 0 || se > 0)), h, "hour"@) + opt_clause(
        mi > 0 || (h > 0 && se > 0),
        mi,
        "minute"@,
    ) + opt_clause(se > 0, se, "second"@)
}

/// The clauses of a duration of `s` seconds.
pub open spec fn spec_clauses_of(s: int) -> Seq<Seq<char>> {
    spec_clauses(
        spec_years(s),
        spec_months(s),
        spec_days(s),
        spec_hours(s),
        spec_minutes(s),
        spec_seconds_rem(s),
    )
}

/// The clauses joined by `", "`, with no conjunction yet.
pub open spec fn spec_sep_join(cs: Seq<Seq<char>>) -> Seq<char>
    decreases cs.len(),
{
    if cs.len() == 0 {
        Seq::<char>::empty()
    } else if cs.len() == 1 {
        cs[0]
    } else {
        spec_sep_join(cs.drop_last()) + ", "@ + cs.last()
    }
}

/// The finished phrase: the clauses joined by `", "`, with the word
/// `"and "` inserted after the separator that precedes the last clause
/// whenever there are at least two clauses.
pub open spec fn spec_phrase(cs: Seq<Seq<char>>) -> Seq<char> {
    if cs.len() <= 1 {
        spec_sep_join(cs)
    } else {
        spec_sep_join(cs.drop_last()) + ", "@ + "and "@ + cs.last()
    }
}

/// The phrase for a duration of `s` seconds. A duration that yields no
/// clause at all — only zero seconds does — reads `"0 seconds"`.
pub open spec fn spec_format_duration(s: int) -> Seq<char> {
    let cs = spec_clauses_of(s);
    if cs.len() == 0 {
        "0 seconds"@
    } else {
        spec_phrase(cs)
    }
}

/// The views of a list of built strings.
pub open spec fn views(v: Seq<String>) -> Seq<Seq<char>> {
    v.map_values(|c: String| c@)
}

/// Build one clause: count, space, name, and the plural `'s'` for counts
/// above one.
fn clause_string(count: u64, name: &str) -> (r: String)
    ensures
        r@ == spec_clause(count as int, name@),
{
    let mut r = u64_to_string(count);
    r.append(" ");
    r.append(name);
    proof {
        reveal_strlit(" ");
    }
    if count > 1 {
        r.append("s");
        proof {
            reveal_strlit("s");
            assert(r@ =~= spec_clause(count as int, name@));
        }
    } else {
        proof {
            assert(r@ =~= spec_clause(count as int, name@));
        }
    }
    r
}

/// Appending one clause to the joined front of a clause list extends the
/// join by one separator and that clause.
proof fn lemma_sep_join_step(cs: Seq<Seq<char>>, i: int)
    requires
        1 <= i < cs.len(),
    ensures
        spec_sep_join(cs.take(i + 1)) == spec_sep_join(cs.take(i)) + ", "@ + cs[i],
{
    assert(cs.take(i + 1).drop_last() =~= cs.take(i));
    assert(cs.take(i + 1).last() == cs[i]);
}

/// The decomposition is exhaustive: multiplying each unit count by its
/// seconds and summing, with the final remainder, rebuilds the duration
/// exactly.
pub proof fn lemma_round_trip(s: int)
    requires
        s >= 0,
    ensures
        spec_years(s) * YEAR_SECONDS + spec_months(s) * MONTH_SECONDS + spec_days(s) * DAY_SECONDS
            + spec_hours(s) * HOUR_SECONDS + spec_minutes(s) * MINUTE_SECONDS + spec_seconds_rem(
            s,
        ) == s,
{
    vstd::arithmetic::div_mod::lemma_fundamental_div_mod(s, YEAR_SECONDS as int);
    vstd::arithmetic::div_mod::lemma_fundamental_div_mod(spec_after_years(s), MONTH_SECONDS as int);
    vstd::arithmetic::div_mod::lemma_fundamental_div_mod(spec_after_months(s), DAY_SECONDS as int);
    vstd::arithmetic::div_mod::lemma_fundamental_div_mod(spec_after_days(s), HOUR_SECONDS as int);
    vstd::arithmetic::div_mod::lemma_fundamental_div_mod(spec_after_hours(s), MINUTE_SECONDS as int);
}

/// The clause list is empty exactly for the zero duration: every positive
/// duration puts at least one unit count above zero, and a positive count
/// always emits its clause.
pub proof fn lemma_zero_clauses_iff_zero(s: int)
    requires
        s >= 0,
    ensures
        spec_clauses_of(s).len() == 0 <==> s == 0,
{
    lemma_counts_nonneg(s);
    lemma_round_trip(s);
}

/// A count of one — and, in a bridged clause, a count of zero — reads
/// singular; a count above one takes the plural `'s'`. The zero case
/// keeps the reference quirk: `"0 hour"`, not `"0 hours"`.
pub proof fn lemma_pluralization(count: u64, name: Seq<char>)
    ensures
        count > 1 ==> spec_clause(count as int, name) == spec_digits(count as nat) + seq![' ']
            + name + seq!['s'],
        count <= 1 ==> spec_clause(count as int, name) == spec_digits(count as nat) + seq![' ']
            + name,
{
    if count <= 1 {
        assert(spec_clause(count as int, name) =~= spec_digits(count as nat) + seq![' '] + name);
    }
}

/// Every `'a'` in the string is followed, within the string, by `'r'` or
/// `'y'` — as in `"year"` and `"day"`. Such a string cannot hold the word
/// `"and "`, and no `'a'` stands at its end.
pub open spec fn no_conj(s: Seq<char>) -> bool {
    forall|i: int|
        0 <= i < s.len() && (#[trigger] s[i]) == 'a' ==> i + 1 < s.len() && (s[i + 1] == 'r' || s[
            i + 1
        ] == 'y')
}

/// `no_conj` survives concatenation.
proof fn lemma_no_conj_concat(x: Seq<char>, y: Seq<char>)
    requires
        no_conj(x),
        no_conj(y),
    ensures
        no_conj(x + y),
{
    assert forall|i: int|
        0 <= i < (x + y).len() && (#[trigger] (x + y)[i]) == 'a' implies i + 1 < (x + y).len() && ((
        x + y)[i + 1] == 'r' || (x + y)[i + 1] == 'y') by {
        if i < x.len() {
            assert(x[i] == 'a');
            assert((x + y)[i + 1] == x[i + 1]);
        } else {
            assert(y[i - x.len()] == 'a');
            assert((x + y)[i + 1] == y[i + 1 - x.len()]);
        }
    }
}

/// A string in which every `'a'` is followed by `'r'` or `'y'` holds no
/// occurrence of `"and "`.
proof fn lemma_no_conj_no_and(s: Seq<char>)
    requires
        no_conj(s),
    ensures
        forall|i: int| !occurs_at(s, "and "@, i),
{
    reveal_strlit("and ");
    assert forall|i: int| !occurs_at(s, "and "@, i) by {
        if occurs_at(s, "and "@, i) {
            assert(s.subrange(i, i + 4)[0] == 'a');
            assert(s.subrange(i, i + 4)[1] == 'n');
            assert(s[i] == 'a' && s[i + 1] == 'n');
        }
    }
}

/// In `x + "and " + y`, with both sides free of conjunction material, the
/// word `"and "` occurs exactly once: at the seam.
proof fn lemma_and_occurrences(x: Seq<char>, y: Seq<char>)
    requires
        no_conj(x),
        no_conj(y),
    ensures
        forall|i: int| occurs_at(x + "and "@ + y, "and "@, i) <==> i == x.len(),
{
    reveal_strlit("and ");
    let a = "and "@;
    let ph = x + a + y;
    assert(ph.subrange(x.len() as int, x.len() as int + 4) =~= a);
    assert forall|i: int| occurs_at(ph, a, i) <==> i == x.len() by {
        if occurs_at(ph, a, i) && i != x.len() {
            assert(ph.subrange(i, i + 4)[0] == 'a');
            assert(ph.subrange(i, i + 4)[1] == 'n');
            assert(ph[i] == 'a' && ph[i + 1] == 'n');
            if i < x.len() {
                assert(x[i] == 'a');
                assert(ph[i + 1] == x[i + 1]);
            } else if i < x.len() + 4 {
                assert(ph[i] == a[i - x.len()]);
            } else {
                assert(y[i - x.len() - 4] == 'a');
                assert(ph[i + 1] == y[i + 1 - x.len() - 4]);
            }
        }
    }
}

/// The shape every emitted clause has: non-empty, opening with a digit,
/// closing with a letter, and free of conjunction material.
pub open spec fn clause_ok(cl: Seq<char>) -> bool {
    &&& cl.len() >= 1
    &&& is_digit_char(cl[0])
    &&& cl.last() != ' '
    &&& cl.last() != ','
    &&& no_conj(cl)
}

/// Every clause of the list is well shaped.
pub open spec fn all_ok(cs: Seq<Seq<char>>) -> bool {
    forall|i: int| 0 <= i < cs.len() ==> clause_ok(#[trigger] cs[i])
}

proof fn lemma_all_ok_concat(a: Seq<Seq<char>>, b: Seq<Seq<char>>)
    requires
        all_ok(a),
        all_ok(b),
    ensures
        all_ok(a + b),
{
    assert forall|i: int| 0 <= i < (a + b).len() implies clause_ok(#[trigger] (a + b)[i]) by {
        if i < a.len() {
            assert((a + b)[i] == a[i]);
        } else {
            assert((a + b)[i] == b[i - a.len()]);
        }
    }
}

/// Digit strings take no part in a conjunction: they hold no `'a'` at all.
proof fn lemma_digits_no_conj(n: nat)
    ensures
        no_conj(spec_digits(n)),
{
    lemma_digits_shape(n);
}

/// A clause built from a well-shaped unit name is well shaped.
proof fn lemma_clause_ok(count: int, name: Seq<char>)
    requires
        count >= 0,
        name.len() >= 1,
        no_conj(name),
        name.last() != ' ',
        name.last() != ',',
    ensures
        clause_ok(spec_clause(count, name)),
{
    let ds = spec_digits(count as nat);
    lemma_digits_shape(count as nat);
    lemma_digits_no_conj(count as nat);
    assert(no_conj(seq![' ']));
    assert(no_conj(seq!['s']));
    lemma_no_conj_concat(ds, seq![' ']);
    lemma_no_conj_concat(ds + seq![' '], name);
    let cl = spec_clause(count, name);
    if count > 1 {
        lemma_no_conj_concat(ds + seq![' '] + name, seq!['s']);
        assert(cl.last() == 's');
    } else {
        assert(cl =~= ds + seq![' '] + name);
        assert(cl.last() == name.last());
    }
    assert(cl[0] == ds[0]);
}

proof fn lemma_opt_clause_ok(emit: bool, count: int, name: Seq<char>)
    requires
        count >= 0,
        name.len() >= 1,
        no_conj(name),
        name.last() != ' ',
        name.last() != ',',
    ensures
        all_ok(opt_clause(emit, count, name)),
{
    if emit {
        lemma_clause_ok(count, name);
    }
}

/// All clauses the formatter can emit for non-negative counts are well
/// shaped.
proof fn lemma_clauses_ok(y: int, mo: int, d: int, h: int, mi: int, se: int)
    requires
        y >= 0,
        mo >= 0,
        d >= 0,
        h >= 0,
        mi >= 0,
        se >= 0,
    ensures
        all_ok(spec_clauses(y, mo, d, h, mi, se)),
{
    reveal_strlit("year");
    reveal_strlit("month");
    reveal_strlit("day");
    reveal_strlit("hour");
    reveal_strlit("minute");
    reveal_strlit("second");
    assert(no_conj("year"@));
    assert(no_conj("month"@));
    assert(no_conj("day"@));
    assert(no_conj("hour"@));
    assert(no_conj("minute"@));
    assert(no_conj("second"@));
    let c1 = opt_clause(y > 0, y, "year"@);
    let c2 = opt_clause(mo > 0, mo, "month"@);
    let c3 = opt_clause(d > 0, d, "day"@);
    let c4 = opt_clause(h > 0 || (d > 0 && (mi > 0 || se > 0)), h, "hour"@);
    let c5 = opt_clause(mi > 0 || (h > 0 && se > 0), mi, "minute"@);
    let c6 = opt_clause(se > 0, se, "second"@);
    lemma_opt_clause_ok(y > 0, y, "year"@);
    lemma_opt_clause_ok(mo > 0, mo, "month"@);
    lemma_opt_clause_ok(d > 0, d, "day"@);
    lemma_opt_clause_ok(h > 0 || (d > 0 && (mi > 0 || se > 0)), h, "hour"@);
    lemma_opt_clause_ok(mi > 0 || (h > 0 && se > 0), mi, "minute"@);
    lemma_opt_clause_ok(se > 0, se, "second"@);
    lemma_all_ok_concat(c1, c2);
    lemma_all_ok_concat(c1 + c2, c3);
    lemma_all_ok_concat(c1 + c2 + c3, c4);
    lemma_all_ok_concat(c1 + c2 + c3 + c4, c5);
    lemma_all_ok_concat(c1 + c2 + c3 + c4 + c5, c6);
}

/// The six unit counts of a non-negative duration are non-negative.
proof fn lemma_counts_nonneg(s: int)
    requires
        s >= 0,
    ensures
        spec_years(s) >= 0,
        spec_after_years(s) >= 0,
        spec_months(s) >= 0,
        spec_after_months(s) >= 0,
        spec_days(s) >= 0,
        spec_after_days(s) >= 0,
        spec_hours(s) >= 0,
        spec_after_hours(s) >= 0,
        spec_minutes(s) >= 0,
        spec_seconds_rem(s) >= 0,
{
}

/// The join of well-shaped clauses is non-empty, starts with the first
/// clause's first character, ends with the last clause's last character,
/// and stays free of conjunction material.
proof fn lemma_sep_join_props(cs: Seq<Seq<char>>)
    requires
        cs.len() >= 1,
        all_ok(cs),
    ensures
        spec_sep_join(cs).len() >= 1,
        no_conj(spec_sep_join(cs)),
        spec_sep_join(cs)[0] == cs[0][0],
        spec_sep_join(cs).last() == cs.last().last(),
    decreases cs.len(),
{
    reveal_strlit(", ");
    assert(no_conj(", "@));
    if cs.len() == 1 {
        assert(clause_ok(cs[0]));
    } else {
        let front = cs.drop_last();
        assert(all_ok(front));
        assert(front[0] == cs[0]);
        lemma_sep_join_props(front);
        let j = spec_sep_join(front);
        lemma_no_conj_concat(j, ", "@);
        lemma_no_conj_concat(j + ", "@, cs.last());
        assert(clause_ok(cs.last()));
        assert(spec_sep_join(cs)[0] == j[0]);
        assert(spec_sep_join(cs).last() == cs.last().last());
    }
}

/// The phrase never carries a stray separator: it is non-empty, opens with
/// a digit, and closes with neither a space nor a comma. (That it never
/// fails is not a separate claim: `format_duration` is total and verified
/// free of panics.)
pub proof fn lemma_no_stray_separator(seconds: u64)
    ensures
        ({
            let ph = spec_format_duration(seconds as int);
            &&& ph.len() >= 1
            &&& is_digit_char(ph[0])
            &&& ph.last() != ' '
            &&& ph.last() != ','
        }),
{
    let s = seconds as int;
    let cs = spec_clauses_of(s);
    let ph = spec_format_duration(s);
    lemma_counts_nonneg(s);
    lemma_clauses_ok(
        spec_years(s),
        spec_months(s),
        spec_days(s),
        spec_hours(s),
        spec_minutes(s),
        spec_seconds_rem(s),
    );
    if cs.len() == 0 {
        reveal_strlit("0 seconds");
        assert(ph == "0 seconds"@);
        assert(ph[0] == '0');
        assert(ph.last() == 's');
    } else if cs.len() == 1 {
        assert(ph == cs[0]);
        assert(clause_ok(cs[0]));
    } else {
        reveal_strlit(", ");
        reveal_strlit("and ");
        let front = cs.drop_last();
        assert(all_ok(front));
        assert(front[0] == cs[0]);
        lemma_sep_join_props(front);
        let j = spec_sep_join(front);
        assert(ph == j + ", "@ + "and "@ + cs.last());
        assert(ph[0] == j[0]);
        assert(clause_ok(cs.last()));
        assert(ph.last() == cs.last().last());
    }
}

/// A phrase of at least two clauses holds exactly one occurrence of the
/// word `"and "` — at the seam before the last clause — and a phrase of at
/// most one clause holds none.
pub proof fn lemma_single_conjunction(seconds: u64)
    ensures
        ({
            let cs = spec_clauses_of(seconds as int);
            let ph = spec_format_duration(seconds as int);
            &&& cs.len() >= 2 ==> (forall|i: int|
                occurs_at(ph, "and "@, i) <==> i == spec_sep_join(cs.drop_last()).len() + 2)
            &&& cs.len() < 2 ==> (forall|i: int| !occurs_at(ph, "and "@, i))
        }),
{
    let s = seconds as int;
    let cs = spec_clauses_of(s);
    let ph = spec_format_duration(s);
    lemma_counts_nonneg(s);
    lemma_clauses_ok(
        spec_years(s),
        spec_months(s),
        spec_days(s),
        spec_hours(s),
        spec_minutes(s),
        spec_seconds_rem(s),
    );
    if cs.len() == 0 {
        reveal_strlit("0 seconds");
        assert(no_conj(ph));
        lemma_no_conj_no_and(ph);
    } else if cs.len() == 1 {
        assert(ph == cs[0]);
        assert(clause_ok(cs[0]));
        lemma_no_conj_no_and(ph);
    } else {
        reveal_strlit(", ");
        let front = cs.drop_last();
        assert(all_ok(front));
        lemma_sep_join_props(front);
        let j = spec_sep_join(front);
        assert(no_conj(", "@));
        lemma_no_conj_concat(j, ", "@);
        assert(clause_ok(cs.last()));
        lemma_and_occurrences(j + ", "@, cs.last());
        assert(ph =~= (j + ", "@) + "and "@ + cs.last());
        assert((j + ", "@).len() == j.len() + 2);
    }
}

/// Render `seconds` as the English phrase `spec_format_duration` gives:
/// clauses from years down to seconds, comma-separated, with `"and "`
/// before the last clause and `"0 seconds"` for a zero duration. Total on
/// all inputs; never panics.
pub fn format_duration(seconds: u64) -> (r: String)
    ensures
        r@ == spec_format_duration(seconds as int),
{
    let u = decompose(seconds);
    let ghost s = seconds as int;
    let ghost c1 = opt_clause(u.years > 0, u.years as int, "year"@);
    let ghost c2 = opt_clause(u.months > 0, u.months as int, "month"@);
    let ghost c3 = opt_clause(u.days > 0, u.days as int, "day"@);
    let ghost c4 = opt_clause(
        u.hours > 0 || (u.days > 0 && (u.minutes > 0 || u.seconds > 0)),
        u.hours as int,
        "hour"@,
    );
    let ghost c5 = opt_clause(
        u.minutes > 0 || (u.hours > 0 && u.seconds > 0),
        u.minutes as int,
        "minute"@,
    );
    let ghost c6 = opt_clause(u.seconds > 0, u.seconds as int, "second"@);
    let mut clauses: Vec<String> = Vec::new();
    proof {
        assert(views(clauses@) =~= Seq::<Seq<char>>::empty());
    }
    if u.years > 0 {
        clauses.push(clause_string(u.years, "year"));
    }
    proof {
        assert(views(clauses@) =~= c1);
    }
    if u.months > 0 {
        clauses.push(clause_string(u.months, "month"));
    }
    proof {
        assert(views(clauses@) =~= c1 + c2);
    }
    if u.days > 0 {
        clauses.push(clause_string(u.days, "day"));
    }
    proof {
        assert(views(clauses@) =~= c1 + c2 + c3);
    }
    if u.hours > 0 || (u.days > 0 && (u.minutes > 0 || u.seconds > 0)) {
        clauses.push(clause_string(u.hours, "hour"));
    }
    proof {
        assert(views(clauses@) =~= c1 + c2 + c3 + c4);
    }
    if u.minutes > 0 || (u.hours > 0 && u.seconds > 0) {
        clauses.push(clause_string(u.minutes, "minute"));
    }
    proof {
        assert(views(clauses@) =~= c1 + c2 + c3 + c4 + c5);
    }
    if u.seconds > 0 {
        clauses.push(clause_string(u.seconds, "second"));
    }
    proof {
        assert(views(clauses@) =~= c1 + c2 + c3 + c4 + c5 + c6);
        assert(views(clauses@) =~= spec_clauses_of(s));
    }
    let ghost csv = views(clauses@);
    let n = clauses.len();
    if n == 0 {
        let mut r = String::new();
        r.append("0 seconds");
        proof {
            assert(r@ =~= "0 seconds"@);
        }
        return r;
    }
    let mut out = String::new();
    out.append(clauses[0].as_str());
    proof {
        assert(csv.take(1) =~= seq![csv[0]]);
        assert(spec_sep_join(csv.take(1)) == csv[0]);
        if n == 1 {
            assert(csv.take(1) =~= csv);
        }
    }
    let mut i: usize = 1;
    while i < n
        invariant
            1 <= i <= n,
            n == clauses@.len(),
            csv == views(clauses@),
            csv.len() == n,
            i < n ==> out@ == spec_sep_join(csv.take(i as int)),
            i == n ==> out@ == spec_phrase(csv),
        decreases n - i,
    {
        if i + 1 < n {
            out.append(", ");
            out.append(clauses[i].as_str());
            proof {
                lemma_sep_join_step(csv, i as int);
                assert(out@ == spec_sep_join(csv.take(i + 1)));
            }
        } else {
            out.append(", ");
            out.append("and ");
            out.append(clauses[i].as_str());
            proof {
                assert(csv.take(i as int) =~= csv.drop_last());
                assert(csv[i as int] == csv.last());
                assert(out@ == spec_phrase(csv));
            }
        }
        i = i + 1;
    }
    proof {
        assert(out@ == spec_phrase(spec_clauses_of(s)));
    }
    out
}

} // verus!

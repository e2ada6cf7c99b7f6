//! Instants are whole seconds since 1970-01-01T00:00:00Z, held as `i64`.
use vstd::arithmetic::div_mod::{lemma_hoist_over_denominator, lemma_mod_multiples_vanish};
use vstd::prelude::*;

verus! {

/// Seconds in one day.
pub const SECS_PER_DAY: i64 = 86400;

/// The last second of the year 9999.
pub const MAX_INSTANT: i64 = 253402300799;

/// Bound on the instants that the day arithmetic below accepts.
pub const MAX_SPAN: i64 = 1013609203196;

/// A whole number of weeks, larger than `MAX_SPAN`, used to move an instant
/// into the non-negative range before dividing.
const WEEKS_SHIFT: i64 = 1209600000000;

/// An instant that the library accepts as input.
pub open spec fn valid_instant(t: int) -> bool {
    -MAX_INSTANT <= t <= MAX_INSTANT
}

/// An instant within reach of the day arithmetic.
pub open spec fn in_span(t: int) -> bool {
    -MAX_SPAN <= t <= MAX_SPAN
}

/// Day number of an instant (day 0 is 1970-01-01).
pub open spec fn day_of(t: int) -> int {
    t / (SECS_PER_DAY as int)
}

/// Seconds since midnight UTC.
pub open spec fn time_of_day(t: int) -> int {
    t % (SECS_PER_DAY as int)
}

/// Day of the week, 0 for Monday to 6 for Sunday (1970-01-01 was a Thursday).
pub open spec fn weekday_of(t: int) -> int {
    (day_of(t) + 3) % 7
}

proof fn lemma_shift(t: int)
    ensures
        (t + WEEKS_SHIFT) % (SECS_PER_DAY as int) == time_of_day(t),
        (t + WEEKS_SHIFT) / (SECS_PER_DAY as int) == day_of(t) + 14000000,
{
    lemma_mod_multiples_vanish(14000000, t, SECS_PER_DAY as int);
    assert(14000000 * (SECS_PER_DAY as int) == WEEKS_SHIFT as int);
    lemma_hoist_over_denominator(t, 14000000, SECS_PER_DAY as nat);
    assert(14000000 * (SECS_PER_DAY as int) == 14000000int * 86400) by (nonlinear_arith);
}

/// Seconds since midnight UTC of `t`.
pub fn time_of_day_secs(t: i64) -> (r: i64)
    requires
        in_span(t as int),
    ensures
        r == time_of_day(t as int),
        0 <= r < SECS_PER_DAY,
{
    proof {
        lemma_shift(t as int);
    }
    let shifted: i64 = t + WEEKS_SHIFT;
    shifted % SECS_PER_DAY
}

/// Day of the week of `t`, 0 for Monday to 6 for Sunday.
pub fn weekday(t: i64) -> (r: u8)
    requires
        in_span(t as int),
    ensures
        r as int == weekday_of(t as int),
        r < 7,
{
    proof {
        lemma_shift(t as int);
        lemma_mod_multiples_vanish(2000000, day_of(t as int) + 3, 7);
    }
    let shifted: i64 = t + WEEKS_SHIFT;
    let days: i64 = shifted / SECS_PER_DAY;
    ((days + 3) % 7) as u8
}

} // verus!

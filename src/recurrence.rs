//! Weekly recurrence rules and the search for their next occurrence.
use crate::instant::{
    day_of, in_span, time_of_day, time_of_day_secs, valid_instant, weekday, weekday_of,
    MAX_INSTANT, SECS_PER_DAY,
};
use vstd::arithmetic::div_mod::{lemma_add_mod_noop, lemma_fundamental_div_mod_converse};
use vstd::prelude::*;

verus! {

/// A weekly repetition anchored at `start`. Weekdays run from 0 (Monday) to
/// 6 (Sunday).
#[derive(Clone, Debug, PartialEq, Eq)]
pub struct RecurrenceRule {
    pub start: i64,
    pub by_weekday: Option<Vec<u8>>,
    pub interval: Option<u8>,
    pub frequency: Option<u8>,
}

/// A rule as a mathematical value.
pub struct RuleView {
    pub start: int,
    pub by_weekday: Option<Seq<u8>>,
    pub interval: Option<u8>,
    pub frequency: Option<u8>,
}

impl View for RecurrenceRule {
    type V = RuleView;

    open spec fn view(&self) -> RuleView {
        RuleView {
            start: self.start as int,
            by_weekday: match self.by_weekday {
                Some(v) => Some(v@),
                None => None,
            },
            interval: self.interval,
            frequency: self.frequency,
        }
    }
}

/// The rule has no weekday that can ever match, so no occurrence exists.
#[derive(Clone, Copy, Debug, PartialEq, Eq, Structural)]
pub struct InvalidRuleError;

/// The weekdays of a rule, empty when it names none.
pub open spec fn days_of(r: RuleView) -> Seq<u8> {
    match r.by_weekday {
        Some(d) => d,
        None => Seq::empty(),
    }
}

/// Some listed weekday is a real day of the week.
pub open spec fn has_valid_day(r: RuleView) -> bool {
    exists|i: int| 0 <= i < days_of(r).len() && days_of(r)[i] < 7
}

/// The rule lists the weekday on which `t` falls.
pub open spec fn on_listed_day(r: RuleView, t: int) -> bool {
    r.by_weekday is Some && exists|i: int|
        0 <= i < days_of(r).len() && days_of(r)[i] as int == weekday_of(t)
}

/// `target` repeats `start` under the rule: same time of day, on a listed weekday.
pub open spec fn repeats(start: int, target: int, r: RuleView) -> bool {
    on_listed_day(r, target) && time_of_day(start) == time_of_day(target)
}

/// `t` is an occurrence of the rule: the anchor's time of day on a listed weekday.
pub open spec fn is_occurrence(r: RuleView, t: int) -> bool {
    repeats(r.start, t, r)
}

/// The next occurrence of `r` strictly after both `from` and `now`.
pub open spec fn is_next_occurrence(r: RuleView, from: int, now: int, t: int) -> bool {
    &&& t > from
    &&& t > now
    &&& is_occurrence(r, t)
    &&& forall|u: int| from < u < t && now < u ==> !is_occurrence(r, u)
}

/// Whether `days` holds `d`.
pub fn contains_day(days: &Vec<u8>, d: u8) -> (r: bool)
    ensures
        r == exists|i: int| 0 <= i < days@.len() && days@[i] == d,
{
    let mut i: usize = 0;
    while i < days.len()
        invariant
            i <= days@.len(),
            forall|j: int| 0 <= j < i ==> days@[j] != d,
        decreases days@.len() - i,
    {
        if days[i] == d {
            return true;
        }
        i = i + 1;
    }
    false
}

/// Whether `target` falls on a weekday of `rule` at the time of day of `start`.
pub fn is_repeated(start: i64, target: i64, rule: &RecurrenceRule) -> (r: bool)
    requires
        in_span(start as int),
        in_span(target as int),
    ensures
        r == repeats(start as int, target as int, rule@),
{
    match &rule.by_weekday {
        Some(days) => {
            let target_day = weekday(target);
            let listed = contains_day(days, target_day);
            proof {
                assert(days_of(rule@) == days@);
                if listed {
                    let i = choose|i: int| 0 <= i < days@.len() && days@[i] == target_day;
                    assert(days_of(rule@)[i] as int == weekday_of(target as int));
                } else {
                    assert forall|i: int| 0 <= i < days_of(rule@).len() implies days_of(rule@)[i] as int
                        != weekday_of(target as int) by {
                        assert(days@[i] != target_day);
                    }
                }
            }
            listed && time_of_day_secs(start) == time_of_day_secs(target)
        },
        None => false,
    }
}

pub(crate) proof fn lemma_split(t: int)
    ensures
        t == day_of(t) * SECS_PER_DAY + time_of_day(t),
        0 <= time_of_day(t) < SECS_PER_DAY,
{
    vstd::arithmetic::div_mod::lemma_fundamental_div_mod(t, SECS_PER_DAY as int);
}

pub(crate) proof fn lemma_compose(q: int, r: int)
    requires
        0 <= r < SECS_PER_DAY,
    ensures
        day_of(q * SECS_PER_DAY + r) == q,
        time_of_day(q * SECS_PER_DAY + r) == r,
{
    lemma_fundamental_div_mod_converse(q * SECS_PER_DAY + r, SECS_PER_DAY as int, q, r);
}

/// Two instants at the same time of day lie a whole number of days apart.
pub(crate) proof fn lemma_same_time_apart(u: int, v: int)
    requires
        time_of_day(u) == time_of_day(v),
        u < v,
    ensures
        u + SECS_PER_DAY <= v,
{
    lemma_split(u);
    lemma_split(v);
    let du = day_of(u);
    let dv = day_of(v);
    assert(du < dv) by (nonlinear_arith)
        requires
            u == du * 86400 + time_of_day(u),
            v == dv * 86400 + time_of_day(u),
            u < v,
    ;
    assert(du * 86400 + 86400 <= dv * 86400) by (nonlinear_arith)
        requires
            du < dv,
    ;
}

/// A day later: same time of day, next weekday.
pub(crate) proof fn lemma_next_day(t: int)
    ensures
        time_of_day(t + SECS_PER_DAY) == time_of_day(t),
        weekday_of(t + SECS_PER_DAY) == (weekday_of(t) + 1) % 7,
{
    lemma_split(t);
    let q = day_of(t);
    assert(t + SECS_PER_DAY == (q + 1) * SECS_PER_DAY + time_of_day(t)) by (nonlinear_arith)
        requires
            t == q * SECS_PER_DAY + time_of_day(t),
    ;
    lemma_compose(q + 1, time_of_day(t));
    lemma_add_mod_noop(q + 3, 1, 7);
}

proof fn lemma_search(r: RuleView, base: int, cand: int, target: u8)
    requires
        target < 7,
        exists|j: int| 0 <= j < days_of(r).len() && days_of(r)[j] == target,
        r.by_weekday is Some,
        base < cand,
        time_of_day(cand) == time_of_day(r.start),
        forall|u: int| base < u < cand ==> !is_occurrence(r, u),
    ensures
        exists|t: int| base < t && is_occurrence(r, t) && forall|u: int| base < u < t ==> !is_occurrence(r, u),
    decreases (target as int - weekday_of(cand)) % 7,
{
    if on_listed_day(r, cand) {
        assert(is_occurrence(r, cand));
    } else {
        let j = choose|j: int| 0 <= j < days_of(r).len() && days_of(r)[j] == target;
        assert(weekday_of(cand) != target);
        lemma_next_day(cand);
        lemma_add_mod_noop(weekday_of(cand), 1, 7);
        assert forall|u: int| base < u < cand + SECS_PER_DAY implies !is_occurrence(r, u) by {
            if is_occurrence(r, u) && u != cand {
                lemma_same_time_apart(u, cand + SECS_PER_DAY);
            }
        }
        lemma_search(r, base, cand + SECS_PER_DAY, target);
    }
}

/// A rule that lists a real weekday always has a next occurrence.
pub proof fn lemma_next_exists(r: RuleView, from: int, now: int)
    requires
        has_valid_day(r),
    ensures
        exists|t: int| is_next_occurrence(r, from, now, t),
{
    let i = choose|i: int| 0 <= i < days_of(r).len() && days_of(r)[i] < 7;
    let target = days_of(r)[i];
    let base = if from > now { from } else { now };
    lemma_split(base);
    lemma_split(r.start);
    let first0 = day_of(base) * SECS_PER_DAY + time_of_day(r.start);
    lemma_compose(day_of(base), time_of_day(r.start));
    let first = if first0 <= base { first0 + SECS_PER_DAY } else { first0 };
    if first0 <= base {
        lemma_next_day(first0);
    }
    assert forall|u: int| base < u < first implies !is_occurrence(r, u) by {
        if is_occurrence(r, u) {
            lemma_same_time_apart(u, first);
        }
    }
    lemma_search(r, base, first, target);
    let t = choose|t: int| base < t && is_occurrence(r, t) && forall|u: int| base < u < t ==> !is_occurrence(r, u);
    assert(is_next_occurrence(r, from, now, t));
}

impl RecurrenceRule {
    /// The first instant after both `start` and `now` at the time of day of
    /// the rule's anchor and on one of its weekdays, found one day at a time.
    /// Fails when the rule lists no weekday from 0 to 6.
    pub fn next_date(&self, start: i64, now: i64) -> (r: Result<i64, InvalidRuleError>)
        requires
            valid_instant(self.start as int),
            valid_instant(start as int),
            valid_instant(now as int),
        ensures
            r is Err <==> !has_valid_day(self@),
            r matches Ok(t) ==> is_next_occurrence(self@, start as int, now as int, t as int),
            r matches Ok(t) ==> t <= MAX_INSTANT + 8 * SECS_PER_DAY,
    {
        let days = match &self.by_weekday {
            Some(days) => days,
            None => {
                return Err(InvalidRuleError);
            },
        };
        let mut found: Option<u8> = None;
        let mut i: usize = 0;
        while i < days.len()
            invariant
                i <= days@.len(),
                self.by_weekday == Some(*days),
                found matches Some(d) ==> d < 7 && exists|j: int| 0 <= j < days@.len() && days@[j] == d,
                found is None ==> forall|j: int| 0 <= j < i ==> days@[j] >= 7,
            decreases days@.len() - i,
        {
            if days[i] < 7 {
                found = Some(days[i]);
            }
            i = i + 1;
        }
        let target = match found {
            Some(d) => d,
            None => {
                proof {
                    assert(days_of(self@) == days@);
                    assert forall|j: int| 0 <= j < days_of(self@).len() implies !(days_of(self@)[j] < 7) by {
                        assert(days@[j] >= 7);
                    }
                }
                return Err(InvalidRuleError);
            },
        };
        proof {
            assert(days_of(self@) == days@);
            let j = choose|j: int| 0 <= j < days@.len() && days@[j] == target;
            assert(days_of(self@)[j] < 7);
        }
        let base: i64 = if start > now { start } else { now };
        let anchor_time = time_of_day_secs(self.start);
        let base_time = time_of_day_secs(base);
        let mut next: i64 = base - base_time + anchor_time;
        proof {
            lemma_split(base as int);
            lemma_compose(day_of(base as int), anchor_time as int);
        }
        if next <= base {
            proof {
                lemma_next_day(next as int);
            }
            next = next + SECS_PER_DAY;
        }
        assert forall|u: int| base < u < next implies !is_occurrence(self@, u) by {
            if is_occurrence(self@, u) {
                lemma_same_time_apart(u, next as int);
            }
        }
        let ghost first = next as int;
        let ghost steps0 = (target as int - weekday_of(first)) % 7;
        loop
            invariant
                self.by_weekday == Some(*days),
                has_valid_day(self@),
                target < 7,
                exists|j: int| 0 <= j < days@.len() && days@[j] == target,
                base as int == if start > now { start as int } else { now as int },
                valid_instant(base as int),
                base < next,
                next <= base + 7 * SECS_PER_DAY,
                first <= base + SECS_PER_DAY,
                0 <= steps0 < 7,
                in_span(next as int),
                time_of_day(next as int) == time_of_day(self.start as int),
                next + (target as int - weekday_of(next as int)) % 7 * SECS_PER_DAY
                    == first + steps0 * SECS_PER_DAY,
                forall|u: int| base < u < next ==> !is_occurrence(self@, u),
            decreases (target as int - weekday_of(next as int)) % 7,
        {
            let day = weekday(next);
            if contains_day(days, day) {
                return Ok(next);
            }
            assert(day != target);
            proof {
                let steps = (target as int - weekday_of(next as int)) % 7;
                assert(steps >= 1);
                assert(steps * SECS_PER_DAY >= SECS_PER_DAY) by (nonlinear_arith)
                    requires
                        steps >= 1,
                ;
                assert(steps0 * SECS_PER_DAY <= 6 * SECS_PER_DAY) by (nonlinear_arith)
                    requires
                        steps0 < 7,
                ;
                assert(next + SECS_PER_DAY <= base + 7 * SECS_PER_DAY);
                lemma_next_day(next as int);
                lemma_add_mod_noop(weekday_of(next as int), 1, 7);
                assert forall|u: int| base < u < next + SECS_PER_DAY implies !is_occurrence(
                    self@,
                    u,
                ) by {
                    if is_occurrence(self@, u) && u != next {
                        lemma_same_time_apart(u, next + SECS_PER_DAY);
                    }
                }
            }
            next = next + SECS_PER_DAY;
        }
    }
}

} // verus!

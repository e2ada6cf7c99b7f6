//! Whether a mirror event already stands for a create payload.
use crate::events::{CreateDiscordEvent, DiscordEvent, MirrorView, PayloadView};
use crate::instant::in_span;
use crate::recurrence::{is_repeated, repeats, RecurrenceRule};
use vstd::prelude::*;

verus! {

/// All instants of a payload lie within reach of the day arithmetic.
pub open spec fn payload_in_span(e: PayloadView) -> bool {
    &&& in_span(e.start)
    &&& in_span(e.end)
    &&& (e.rule matches Some(r) ==> in_span(r.start))
}

/// All instants of a mirror event lie within reach of the day arithmetic.
pub open spec fn mirror_in_span(d: MirrorView) -> bool {
    &&& in_span(d.start)
    &&& in_span(d.end)
    &&& (d.rule matches Some(r) ==> in_span(r.start))
}

/// The mirror event `d` represents the payload `e`: same title and
/// description; rules with the same weekdays, interval and frequency, or no
/// rule on either side; a start and an end that equal the payload's, or,
/// under a rule, repeat them on one of its weekdays.
pub open spec fn equivalent(e: PayloadView, d: MirrorView) -> bool {
    &&& e.name == d.name
    &&& e.description == d.description
    &&& match e.rule {
        Some(r) => match d.rule {
            Some(dr) => {
                &&& r.by_weekday == dr.by_weekday
                &&& r.interval == dr.interval
                &&& r.frequency == dr.frequency
            },
            None => false,
        },
        None => d.rule is None,
    }
    &&& (e.start == d.start || (e.rule matches Some(r) && repeats(e.start, d.start, r)))
    &&& (e.end == d.end || (e.rule matches Some(r) && repeats(e.end, d.end, r)))
}

pub open spec fn days_view(d: Option<Vec<u8>>) -> Option<Seq<u8>> {
    match d {
        Some(v) => Some(v@),
        None => None,
    }
}

/// Whether two optional weekday lists hold the same days in the same order.
fn same_days(a: &Option<Vec<u8>>, b: &Option<Vec<u8>>) -> (r: bool)
    ensures
        r == (days_view(*a) == days_view(*b)),
{
    let (x, y) = match a {
        Some(x) => match b {
            Some(y) => (x, y),
            None => {
                return false;
            },
        },
        None => {
            return b.is_none();
        },
    };
    if x.len() != y.len() {
        assert(x@.len() != y@.len());
        return false;
    }
    let mut i: usize = 0;
    while i < x.len()
        invariant
            days_view(*a) == Some(x@),
            days_view(*b) == Some(y@),
            x@.len() == y@.len(),
            i <= x@.len(),
            forall|j: int| 0 <= j < i ==> x@[j] == y@[j],
        decreases x@.len() - i,
    {
        if x[i] != y[i] {
            assert(x@[i as int] != y@[i as int]);
            return false;
        }
        i = i + 1;
    }
    assert(x@ =~= y@);
    true
}

/// The rules agree in weekdays, interval and frequency; their anchors may differ.
fn same_rule(rule: &RecurrenceRule, d_rule: &RecurrenceRule) -> (r: bool)
    ensures
        r == {
            &&& rule@.by_weekday == d_rule@.by_weekday
            &&& rule@.interval == d_rule@.interval
            &&& rule@.frequency == d_rule@.frequency
        },
{
    same_days(&rule.by_weekday, &d_rule.by_weekday) && rule.interval == d_rule.interval
        && rule.frequency == d_rule.frequency
}

/// Whether `d_e` already represents `e`, so that no update is needed.
pub fn compare_events(e: &CreateDiscordEvent, d_e: &DiscordEvent) -> (r: bool)
    requires
        payload_in_span(e@),
        mirror_in_span(d_e@),
    ensures
        r == equivalent(e@, d_e@),
{
    if e.name != d_e.name {
        return false;
    }
    if e.description != d_e.description {
        return false;
    }
    match &e.recurrence_rule {
        Some(rule) => match &d_e.recurrence_rule {
            Some(d_rule) => {
                if !same_rule(rule, d_rule) {
                    return false;
                }
            },
            None => {
                return false;
            },
        },
        None => {
            if d_e.recurrence_rule.is_some() {
                return false;
            }
        },
    }
    if e.scheduled_start_time != d_e.scheduled_start_time {
        match &e.recurrence_rule {
            Some(rule) => {
                if !is_repeated(e.scheduled_start_time, d_e.scheduled_start_time, rule) {
                    return false;
                }
            },
            None => {
                return false;
            },
        }
    }
    if e.scheduled_end_time != d_e.scheduled_end_time {
        match &e.recurrence_rule {
            Some(rule) => {
                if !is_repeated(e.scheduled_end_time, d_e.scheduled_end_time, rule) {
                    return false;
                }
            },
            None => {
                return false;
            },
        }
    }
    true
}

} // verus!

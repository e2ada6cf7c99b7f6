//! Entries of the schedule feed: their properties, the wall-clock times they
//! give in a named zone, and the weekly repetition of an `RRULE` value such
//! as `FREQ=WEEKLY;BYDAY=FR`.
use crate::events::{RepeatRule, SourceView, TwitchEvent};
use crate::instant::{valid_instant, MAX_INSTANT};
use crate::recurrence::InvalidRuleError;
use chrono::{Datelike, TimeZone, Timelike};
use vstd::prelude::*;
use vstd::string::{StrSliceExecFns, StringExecFns};

verus! {

/// What follows the first `c` of `s`, if `s` holds one.
pub open spec fn after_first(s: Seq<char>, c: char) -> Option<Seq<char>>
    decreases s.len(),
{
    if s.len() == 0 {
        None
    } else if s[0] == c {
        Some(s.drop_first())
    } else {
        after_first(s.drop_first(), c)
    }
}

/// What precedes the first `c` of `s`, or all of `s`.
pub open spec fn before_first(s: Seq<char>, c: char) -> Seq<char>
    decreases s.len(),
{
    if s.len() == 0 {
        s
    } else if s[0] == c {
        Seq::empty()
    } else {
        seq![s[0]] + before_first(s.drop_first(), c)
    }
}

/// The text that opens a weekly rule.
pub open spec fn weekly_marker() -> Seq<char> {
    seq!['F', 'R', 'E', 'Q', '=', 'W', 'E', 'E', 'K', 'L', 'Y']
}

/// The weekday that a two-letter code names, 0 for `MO` to 6 for `SU`.
pub open spec fn weekday_code(code: Seq<char>) -> Option<u8> {
    if code == seq!['M', 'O'] {
        Some(0u8)
    } else if code == seq!['T', 'U'] {
        Some(1u8)
    } else if code == seq!['W', 'E'] {
        Some(2u8)
    } else if code == seq!['T', 'H'] {
        Some(3u8)
    } else if code == seq!['F', 'R'] {
        Some(4u8)
    } else if code == seq!['S', 'A'] {
        Some(5u8)
    } else if code == seq!['S', 'U'] {
        Some(6u8)
    } else {
        None
    }
}

/// The value of the second `;`-separated part: the text between its first
/// and second `=`.
pub open spec fn day_text(s: Seq<char>) -> Option<Seq<char>> {
    match after_first(s, ';') {
        Some(rest) => match after_first(before_first(rest, ';'), '=') {
            Some(v) => Some(before_first(v, '=')),
            None => None,
        },
        None => None,
    }
}

pub open spec fn is_weekly(s: Seq<char>) -> bool {
    s.len() >= weekly_marker().len() && s.subrange(0, weekly_marker().len() as int) == weekly_marker()
}

proof fn lemma_scan(s: Seq<char>, a: int, b: int, c: char, j: int)
    requires
        0 <= a <= j <= b <= s.len(),
        forall|k: int| a <= k < j ==> s[k] != c,
        j == b || s[j] == c,
    ensures
        after_first(s.subrange(a, b), c) == if j < b {
            Some(s.subrange(j + 1, b))
        } else {
            None::<Seq<char>>
        },
        before_first(s.subrange(a, b), c) == s.subrange(a, j),
    decreases j - a,
{
    let t = s.subrange(a, b);
    if a == j {
        if j < b {
            assert(t[0] == c);
            assert(t.drop_first() =~= s.subrange(j + 1, b));
        }
        assert(s.subrange(a, j) =~= Seq::<char>::empty());
    } else {
        assert(t[0] != c);
        assert(t.drop_first() =~= s.subrange(a + 1, b));
        lemma_scan(s, a + 1, b, c, j);
        assert(seq![t[0]] + s.subrange(a + 1, j) =~= s.subrange(a, j));
    }
}

/// The first position in `from..to` that holds `c`, or `to`.
fn find_char(s: &str, c: char, from: usize, to: usize) -> (r: usize)
    requires
        from <= to <= s@.len(),
    ensures
        from <= r <= to,
        forall|k: int| from <= k < r ==> s@[k] != c,
        r == to || s@[r as int] == c,
{
    let mut i = from;
    while i < to
        invariant
            from <= i <= to,
            to <= s@.len(),
            forall|k: int| from <= k < i ==> s@[k] != c,
        decreases to - i,
    {
        if s.get_char(i) == c {
            return i;
        }
        i = i + 1;
    }
    i
}

/// The weekday that the two characters at `at` name.
fn code_at(s: &str, at: usize) -> (r: Option<u8>)
    requires
        at + 2 <= s@.len() <= usize::MAX,
    ensures
        r == weekday_code(s@.subrange(at as int, at + 2)),
{
    let a = s.get_char(at);
    let b = s.get_char(at + 1);
    let ghost code = s@.subrange(at as int, at + 2);
    assert(code =~= seq![a, b]);
    if a == 'M' && b == 'O' {
        Some(0)
    } else if a == 'T' && b == 'U' {
        Some(1)
    } else if a == 'W' && b == 'E' {
        Some(2)
    } else if a == 'T' && b == 'H' {
        Some(3)
    } else if a == 'F' && b == 'R' {
        Some(4)
    } else if a == 'S' && b == 'A' {
        Some(5)
    } else if a == 'S' && b == 'U' {
        Some(6)
    } else {
        proof {
            assert(code != seq!['M', 'O']);
            assert(code != seq!['T', 'U']);
            assert(code != seq!['W', 'E']);
            assert(code != seq!['T', 'H']);
            assert(code != seq!['F', 'R']);
            assert(code != seq!['S', 'A']);
            assert(code != seq!['S', 'U']);
        }
        None
    }
}

/// Reads an `RRULE` value: a weekly rule gives its weekday, any other rule
/// gives `None`. A weekly rule without a weekday code in its second part
/// fails.
pub fn parse_repeat_rule(value: &str) -> (r: Result<Option<RepeatRule>, InvalidRuleError>)
    ensures
        !is_weekly(value@) ==> r == Ok::<Option<RepeatRule>, InvalidRuleError>(None),
        is_weekly(value@) ==> match day_text(value@) {
            Some(t) => match weekday_code(t) {
                Some(d) => r == Ok::<Option<RepeatRule>, InvalidRuleError>(Some(RepeatRule::Weekly(d))),
                None => r is Err,
            },
            None => r is Err,
        },
{
    let n = value.unicode_len();
    let marker = "FREQ=WEEKLY";
    proof {
        reveal_strlit("FREQ=WEEKLY");
    }
    if n < 11 {
        return Ok(None);
    }
    let mut k: usize = 0;
    while k < 11
        invariant
            k <= 11,
            n == value@.len(),
            n >= 11,
            marker@ == weekly_marker(),
            forall|j: int| 0 <= j < k ==> value@[j] == weekly_marker()[j],
        decreases 11 - k,
    {
        if value.get_char(k) != marker.get_char(k) {
            proof {
                assert(value@.subrange(0, 11)[k as int] != weekly_marker()[k as int]);
            }
            return Ok(None);
        }
        k = k + 1;
    }
    assert(value@.subrange(0, 11) =~= weekly_marker());
    let ghost s = value@;
    let i1 = find_char(value, ';', 0, n);
    proof {
        lemma_scan(s, 0, n as int, ';', i1 as int);
        assert(s.subrange(0, n as int) =~= s);
    }
    if i1 == n {
        return Err(InvalidRuleError);
    }
    let i2 = find_char(value, ';', i1 + 1, n);
    let i3 = find_char(value, '=', i1 + 1, i2);
    proof {
        lemma_scan(s, i1 + 1, n as int, ';', i2 as int);
        lemma_scan(s, i1 + 1, i2 as int, '=', i3 as int);
    }
    if i3 == i2 {
        return Err(InvalidRuleError);
    }
    let i4 = find_char(value, '=', i3 + 1, i2);
    proof {
        lemma_scan(s, i3 + 1, i2 as int, '=', i4 as int);
    }
    if i4 - (i3 + 1) != 2 {
        proof {
            let t = s.subrange(i3 + 1, i4 as int);
            assert(t.len() != 2);
            assert(t != seq!['M', 'O']);
            assert(t != seq!['T', 'U']);
            assert(t != seq!['W', 'E']);
            assert(t != seq!['T', 'H']);
            assert(t != seq!['F', 'R']);
            assert(t != seq!['S', 'A']);
            assert(t != seq!['S', 'U']);
        }
        return Err(InvalidRuleError);
    }
    match code_at(value, i3 + 1) {
        Some(d) => Ok(Some(RepeatRule::Weekly(d))),
        None => Err(InvalidRuleError),
    }
}

} // verus!

verus! {

/// A date and a time of day on a wall clock, in no particular zone.
#[derive(Clone, Copy, Debug, PartialEq, Eq, Structural)]
pub struct LocalTime {
    pub year: i32,
    pub month: u32,
    pub day: u32,
    pub hour: u32,
    pub minute: u32,
    pub second: u32,
}

/// The date and time that a text such as `20240105T190000` writes.
pub uninterp spec fn local_time_of(text: Seq<char>) -> Option<LocalTime>;

/// The instant, in seconds since the Unix epoch, at which the clocks of the
/// named zone show `t`, when there is exactly one.
pub uninterp spec fn zone_instant_of(zone: Seq<char>, t: LocalTime) -> Option<int>;

pub open spec fn opt_int(r: Option<i64>) -> Option<int> {
    match r {
        Some(x) => Some(x as int),
        None => None,
    }
}

/// Relies on chrono's `NaiveDateTime::parse_from_str` with the format
/// `%Y%m%dT%H%M%S`: the date and time that the text writes, if any.
#[verifier::external_body]
fn parse_local(text: &str) -> (r: Option<LocalTime>)
    ensures
        r == local_time_of(text@),
{
    match chrono::NaiveDateTime::parse_from_str(text, "%Y%m%dT%H%M%S") {
        Ok(dt) => Some(LocalTime {
            year: dt.year(),
            month: dt.month(),
            day: dt.day(),
            hour: dt.hour(),
            minute: dt.minute(),
            second: dt.second(),
        }),
        Err(_) => None,
    }
}

/// Relies on chrono-tz's `Tz::from_str`, chrono's `TimeZone::with_ymd_and_hms`
/// and `MappedLocalTime::single`: the instant at which the clocks of the IANA
/// zone `zone` show `t`, or `None` for an unknown zone, a time that does not
/// exist there, or one that occurs twice.
#[verifier::external_body]
fn zone_instant(zone: &str, t: &LocalTime) -> (r: Option<i64>)
    ensures
        opt_int(r) == zone_instant_of(zone@, *t),
{
    let tz: chrono_tz::Tz = zone.parse().ok()?;
    let local = tz.with_ymd_and_hms(t.year, t.month, t.day, t.hour, t.minute, t.second);
    local.single().map(|d| d.timestamp())
}

/// One property of a feed entry: its name, its value, and the value of its
/// first parameter (the zone of a date-time, written after one leading
/// character, as in `/Europe/Berlin`).
#[derive(Clone, Debug, PartialEq, Eq)]
pub struct FeedProperty {
    pub name: String,
    pub value: String,
    pub zone: Option<String>,
}

/// A feed property as a mathematical value.
pub struct PropView {
    pub name: Seq<char>,
    pub value: Seq<char>,
    pub zone: Option<Seq<char>>,
}

impl View for FeedProperty {
    type V = PropView;

    open spec fn view(&self) -> PropView {
        PropView {
            name: self.name@,
            value: self.value@,
            zone: match self.zone {
                Some(z) => Some(z@),
                None => None,
            },
        }
    }
}

/// Why a feed entry could not be read.
#[derive(Clone, Copy, Debug, PartialEq, Eq, Structural)]
pub enum FeedError {
    MissingUid,
    MissingStart,
    MissingEnd,
    MissingSummary,
    BadTime,
    BadRule,
}

pub open spec fn props_view(ps: Seq<FeedProperty>) -> Seq<PropView> {
    ps.map_values(|p: FeedProperty| p@)
}

/// `i` is the first property named `n`.
pub open spec fn is_first_named(ps: Seq<PropView>, n: Seq<char>, i: int) -> bool {
    &&& 0 <= i < ps.len()
    &&& ps[i].name == n
    &&& forall|j: int| 0 <= j < i ==> ps[j].name != n
}

/// The first property named `n`.
pub open spec fn named(ps: Seq<PropView>, n: Seq<char>) -> Option<PropView> {
    if exists|i: int| is_first_named(ps, n, i) {
        Some(ps[choose|i: int| is_first_named(ps, n, i)])
    } else {
        None
    }
}

/// The instant that a date-time property gives, if it names a zone and
/// falls within the supported range.
pub open spec fn instant_of(p: PropView) -> Option<int> {
    match p.zone {
        Some(z) => if z.len() == 0 {
            None
        } else {
            match local_time_of(p.value) {
                Some(t) => match zone_instant_of(z.subrange(1, z.len() as int), t) {
                    Some(x) => if valid_instant(x) {
                        Some(x)
                    } else {
                        None
                    },
                    None => None,
                },
                None => None,
            }
        },
        None => None,
    }
}

/// The weekday of a weekly `RRULE` value, `Some(None)` for another rule, and
/// `None` for a weekly rule without a day.
pub open spec fn rule_day(s: Seq<char>) -> Option<Option<u8>> {
    if !is_weekly(s) {
        Some(None)
    } else {
        match day_text(s) {
            Some(t) => match weekday_code(t) {
                Some(d) => Some(Some(d)),
                None => None,
            },
            None => None,
        }
    }
}

pub open spec fn value_of(p: Option<PropView>) -> Option<Seq<char>> {
    match p {
        Some(q) => Some(q.value),
        None => None,
    }
}

pub open spec fn uid_name() -> Seq<char> {
    seq!['U', 'I', 'D']
}

pub open spec fn start_name() -> Seq<char> {
    seq!['D', 'T', 'S', 'T', 'A', 'R', 'T']
}

pub open spec fn end_name() -> Seq<char> {
    seq!['D', 'T', 'E', 'N', 'D']
}

pub open spec fn summary_name() -> Seq<char> {
    seq!['S', 'U', 'M', 'M', 'A', 'R', 'Y']
}

pub open spec fn description_name() -> Seq<char> {
    seq!['D', 'E', 'S', 'C', 'R', 'I', 'P', 'T', 'I', 'O', 'N']
}

pub open spec fn categories_name() -> Seq<char> {
    seq!['C', 'A', 'T', 'E', 'G', 'O', 'R', 'I', 'E', 'S']
}

pub open spec fn rrule_name() -> Seq<char> {
    seq!['R', 'R', 'U', 'L', 'E']
}

/// The weekday of the entry's `RRULE`, `Some(None)` when it has none that
/// is weekly, `None` when its weekly rule names no day.
pub open spec fn entry_rule(ps: Seq<PropView>) -> Option<Option<u8>> {
    match named(ps, rrule_name()) {
        Some(p) => rule_day(p.value),
        None => Some(None),
    }
}

/// The source event that a feed entry describes, or why there is none.
pub open spec fn entry_of(ps: Seq<PropView>) -> Result<SourceView, FeedError> {
    match named(ps, uid_name()) {
        None => Err(FeedError::MissingUid),
        Some(uid) => match named(ps, start_name()) {
            None => Err(FeedError::MissingStart),
            Some(st) => match instant_of(st) {
                None => Err(FeedError::BadTime),
                Some(start) => match named(ps, end_name()) {
                    None => Err(FeedError::MissingEnd),
                    Some(en) => match instant_of(en) {
                        None => Err(FeedError::BadTime),
                        Some(end) => match named(ps, summary_name()) {
                            None => Err(FeedError::MissingSummary),
                            Some(sm) => match entry_rule(ps) {
                                None => Err(FeedError::BadRule),
                                Some(w) => Ok(
                                    SourceView {
                                        uid: uid.value,
                                        start_at: start,
                                        end_at: end,
                                        name: sm.value,
                                        description: value_of(named(ps, description_name())),
                                        categories: value_of(named(ps, categories_name())),
                                        weekly_on: w,
                                    },
                                ),
                            },
                        },
                    },
                },
            },
        },
    }
}

} // verus!

verus! {

proof fn lemma_named_at(ps: Seq<PropView>, n: Seq<char>, i: int)
    requires
        is_first_named(ps, n, i),
    ensures
        named(ps, n) == Some(ps[i]),
{
    let k = choose|k: int| is_first_named(ps, n, k);
    assert(is_first_named(ps, n, k));
    if k < i {
        assert(ps[k].name != n);
    } else if i < k {
        assert(ps[i].name != n);
    }
}

/// The position of the first property named `name`.
pub fn find_property(props: &Vec<FeedProperty>, name: &str) -> (r: Option<usize>)
    ensures
        r matches Some(i) ==> i < props@.len() && named(props_view(props@), name@) == Some(props@[i as int]@),
        r is None ==> named(props_view(props@), name@) is None,
{
    let ghost ps = props_view(props@);
    let wanted = String::from_str(name);
    let mut i: usize = 0;
    while i < props.len()
        invariant
            i <= props@.len(),
            ps == props_view(props@),
            wanted@ == name@,
            forall|j: int| 0 <= j < i ==> ps[j].name != name@,
        decreases props@.len() - i,
    {
        assert(ps[i as int] == props@[i as int]@);
        if props[i].name == wanted {
            proof {
                lemma_named_at(ps, name@, i as int);
            }
            return Some(i);
        }
        i = i + 1;
    }
    proof {
        if exists|k: int| is_first_named(ps, name@, k) {
            let k = choose|k: int| is_first_named(ps, name@, k);
            assert(ps[k].name == name@);
        }
    }
    None
}

/// The instant that a date-time property gives: its value read as a wall
/// clock time in the zone of its parameter. `None` where the zone or the
/// time cannot be read, or the instant falls outside the supported range.
pub fn property_instant(p: &FeedProperty) -> (r: Option<i64>)
    ensures
        opt_int(r) == instant_of(p@),
        r matches Some(x) ==> valid_instant(x as int),
{
    let zone_param = match &p.zone {
        Some(z) => z.as_str(),
        None => {
            return None;
        },
    };
    let n = zone_param.unicode_len();
    if n == 0 {
        return None;
    }
    let zone = zone_param.substring_char(1, n);
    let local = match parse_local(p.value.as_str()) {
        Some(t) => t,
        None => {
            return None;
        },
    };
    match zone_instant(zone, &local) {
        Some(x) => if -MAX_INSTANT <= x && x <= MAX_INSTANT {
            Some(x)
        } else {
            None
        },
        None => None,
    }
}

fn property_value(props: &Vec<FeedProperty>, name: &str) -> (r: Option<String>)
    ensures
        crate::events::opt_view(r) == value_of(named(props_view(props@), name@)),
{
    match find_property(props, name) {
        Some(i) => Some(props[i].value.clone()),
        None => None,
    }
}

impl TwitchEvent {
    /// The source event that a feed entry describes: its `UID`, `DTSTART`,
    /// `DTEND` and `SUMMARY` (the first of each name), its optional
    /// `DESCRIPTION` and `CATEGORIES`, and the weekday of a weekly `RRULE`.
    /// Fails on the first required property that is missing or unreadable,
    /// in that order, then on a weekly rule without a day.
    pub fn from_properties(props: &Vec<FeedProperty>) -> (r: Result<TwitchEvent, FeedError>)
        ensures
            r matches Ok(e) ==> entry_of(props_view(props@)) == Ok::<SourceView, FeedError>(e@),
            r matches Err(x) ==> entry_of(props_view(props@)) == Err::<SourceView, FeedError>(x),
    {
        proof {
            reveal_strlit("UID");
            reveal_strlit("DTSTART");
            reveal_strlit("DTEND");
            reveal_strlit("SUMMARY");
            reveal_strlit("DESCRIPTION");
            reveal_strlit("CATEGORIES");
            reveal_strlit("RRULE");
            assert("UID"@ =~= uid_name());
            assert("DTSTART"@ =~= start_name());
            assert("DTEND"@ =~= end_name());
            assert("SUMMARY"@ =~= summary_name());
            assert("DESCRIPTION"@ =~= description_name());
            assert("CATEGORIES"@ =~= categories_name());
            assert("RRULE"@ =~= rrule_name());
        }
        let uid = match property_value(props, "UID") {
            Some(v) => v,
            None => {
                return Err(FeedError::MissingUid);
            },
        };
        let start_at = match find_property(props, "DTSTART") {
            Some(i) => match property_instant(&props[i]) {
                Some(x) => x,
                None => {
                    return Err(FeedError::BadTime);
                },
            },
            None => {
                return Err(FeedError::MissingStart);
            },
        };
        let end_at = match find_property(props, "DTEND") {
            Some(i) => match property_instant(&props[i]) {
                Some(x) => x,
                None => {
                    return Err(FeedError::BadTime);
                },
            },
            None => {
                return Err(FeedError::MissingEnd);
            },
        };
        let name = match property_value(props, "SUMMARY") {
            Some(v) => v,
            None => {
                return Err(FeedError::MissingSummary);
            },
        };
        let repeat_rule = match find_property(props, "RRULE") {
            Some(i) => match parse_repeat_rule(props[i].value.as_str()) {
                Ok(rule) => rule,
                Err(_) => {
                    return Err(FeedError::BadRule);
                },
            },
            None => None,
        };
        let description = property_value(props, "DESCRIPTION");
        let categories = property_value(props, "CATEGORIES");
        Ok(TwitchEvent { uid, start_at, end_at, name, description, categories, repeat_rule })
    }
}

} // verus!

verus! {

/// The property lists of the components of an iCalendar text, if it reads.
pub uninterp spec fn entries_of(text: Seq<char>) -> Option<Seq<Seq<PropView>>>;

pub open spec fn entries_view(es: Seq<Vec<FeedProperty>>) -> Seq<Seq<PropView>> {
    es.map_values(|e: Vec<FeedProperty>| props_view(e@))
}

/// Relies on icalendar's `parser::read_calendar`: the components of the
/// text, each as its properties, with the value of each property's first
/// parameter.
#[verifier::external_body]
fn read_entries(text: &str) -> (r: Option<Vec<Vec<FeedProperty>>>)
    ensures
        match r {
            Some(es) => entries_of(text@) == Some(entries_view(es@)),
            None => entries_of(text@) is None,
        },
{
    let calendar = icalendar::parser::read_calendar(text).ok()?;
    Some(calendar.components.iter().map(|c| c.properties.iter().map(|p| FeedProperty {
        name: p.name.to_string(),
        value: p.val.to_string(),
        zone: p.params.first().and_then(|q| q.val.as_ref()).map(|v| v.to_string()),
    }).collect()).collect())
}

/// The source event still matters at `now`: it starts later, or repeats.
pub open spec fn upcoming(s: SourceView, now: int) -> bool {
    s.start_at > now || s.weekly_on is Some
}

/// The upcoming source events of a feed's entries, in order, or the first
/// entry's error.
pub open spec fn schedule_of(es: Seq<Seq<PropView>>, now: int) -> Result<Seq<SourceView>, FeedError>
    decreases es.len(),
{
    if es.len() == 0 {
        Ok(Seq::empty())
    } else {
        match schedule_of(es.drop_last(), now) {
            Err(x) => Err(x),
            Ok(prev) => match entry_of(es.last()) {
                Err(x) => Err(x),
                Ok(s) => Ok(
                    if upcoming(s, now) {
                        prev.push(s)
                    } else {
                        prev
                    },
                ),
            },
        }
    }
}

/// Why a feed could not be read: the text, or one of its entries.
#[derive(Clone, Copy, Debug, PartialEq, Eq, Structural)]
pub enum ScheduleError {
    Unreadable,
    Entry(FeedError),
}

proof fn lemma_error_stays(es: Seq<Seq<PropView>>, now: int, k: int)
    requires
        0 <= k <= es.len(),
        schedule_of(es.subrange(0, k), now) is Err,
    ensures
        schedule_of(es, now) == schedule_of(es.subrange(0, k), now),
    decreases es.len() - k,
{
    if k < es.len() {
        assert(es.subrange(0, k + 1).drop_last() =~= es.subrange(0, k));
        lemma_error_stays(es, now, k + 1);
    } else {
        assert(es.subrange(0, k) =~= es);
    }
}

/// The source events of a feed's entries that still matter at `now`, in
/// order: those that start later and those that repeat. Fails with the
/// error of the first entry that cannot be read.
pub fn schedule_from_entries(entries: &Vec<Vec<FeedProperty>>, now: i64) -> (r: Result<Vec<TwitchEvent>, FeedError>)
    ensures
        match schedule_of(entries_view(entries@), now as int) {
            Ok(ss) => r matches Ok(v) && crate::sync::sources_view(v@) == ss,
            Err(x) => r == Err::<Vec<TwitchEvent>, FeedError>(x),
        },
{
    let ghost es = entries_view(entries@);
    let mut events: Vec<TwitchEvent> = Vec::new();
    let mut i: usize = 0;
    assert(es.subrange(0, 0) =~= Seq::<Seq<PropView>>::empty());
    assert(crate::sync::sources_view(events@) =~= Seq::<SourceView>::empty());
    while i < entries.len()
        invariant
            i <= entries@.len(),
            es == entries_view(entries@),
            schedule_of(es.subrange(0, i as int), now as int) == Ok::<Seq<SourceView>, FeedError>(
                crate::sync::sources_view(events@),
            ),
        decreases entries@.len() - i,
    {
        proof {
            assert(es.subrange(0, i + 1).drop_last() =~= es.subrange(0, i as int));
            assert(es.subrange(0, i + 1).last() == props_view(entries@[i as int]@));
        }
        match TwitchEvent::from_properties(&entries[i]) {
            Ok(e) => {
                let keep = e.is_upcoming(now);
                if keep {
                    events.push(e);
                }
                proof {
                    assert(crate::sync::sources_view(events@) =~= match schedule_of(es.subrange(0, i + 1), now as int) {
                        Ok(v) => v,
                        Err(_) => Seq::empty(),
                    });
                }
            },
            Err(x) => {
                proof {
                    lemma_error_stays(es, now as int, i + 1);
                }
                return Err(x);
            },
        }
        i = i + 1;
    }
    assert(es.subrange(0, entries@.len() as int) =~= es);
    Ok(events)
}

/// The events of the schedule feed `text` that still matter at `now`: those
/// that start later and those that repeat. Fails when the text is not a
/// calendar or an entry cannot be read.
pub fn read_schedule(text: &str, now: i64) -> (r: Result<Vec<TwitchEvent>, ScheduleError>)
    ensures
        entries_of(text@) is None ==> r == Err::<Vec<TwitchEvent>, ScheduleError>(ScheduleError::Unreadable),
        entries_of(text@) matches Some(es) ==> match schedule_of(es, now as int) {
            Ok(ss) => r matches Ok(v) && crate::sync::sources_view(v@) == ss,
            Err(x) => r == Err::<Vec<TwitchEvent>, ScheduleError>(ScheduleError::Entry(x)),
        },
{
    let entries = match read_entries(text) {
        Some(es) => es,
        None => {
            return Err(ScheduleError::Unreadable);
        },
    };
    match schedule_from_entries(&entries, now) {
        Ok(events) => Ok(events),
        Err(x) => Err(ScheduleError::Entry(x)),
    }
}

} // verus!

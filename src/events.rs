//! Events of the source schedule and of the mirror calendar, the payloads
//! sent to the mirror, and the correlation key carried in descriptions.
use crate::instant::valid_instant;
use crate::recurrence::{RecurrenceRule, RuleView};
use vstd::prelude::*;
use vstd::string::{StrSliceExecFns, StringExecFns};

verus! {

/// How a source event repeats: weekly on one weekday (0 Monday to 6 Sunday).
#[derive(Clone, Debug, PartialEq, Eq)]
pub enum RepeatRule {
    Weekly(u8),
}

/// An event of the source schedule.
#[derive(Clone, Debug, PartialEq, Eq)]
pub struct TwitchEvent {
    pub uid: String,
    pub start_at: i64,
    pub end_at: i64,
    pub name: String,
    pub description: Option<String>,
    pub categories: Option<String>,
    pub repeat_rule: Option<RepeatRule>,
}

/// An event of the mirror calendar.
#[derive(Clone, Debug, PartialEq, Eq)]
pub struct DiscordEvent {
    pub id: String,
    pub name: String,
    pub description: String,
    pub scheduled_start_time: i64,
    pub scheduled_end_time: i64,
    pub recurrence_rule: Option<RecurrenceRule>,
    pub creator_id: u128,
}

/// Where a mirrored event takes place.
#[derive(Clone, Debug, PartialEq, Eq)]
pub struct EntityMetadata {
    pub location: String,
}

/// What the mirror is asked to create.
#[derive(Clone, Debug, PartialEq, Eq)]
pub struct CreateDiscordEvent {
    pub name: String,
    pub description: String,
    pub privacy_level: u32,
    pub entity_type: u32,
    pub entity_metadata: EntityMetadata,
    pub scheduled_start_time: i64,
    pub scheduled_end_time: i64,
    pub recurrence_rule: Option<RecurrenceRule>,
}

/// What the mirror is asked to change on an existing event.
#[derive(Clone, Debug, PartialEq, Eq)]
pub struct UpdateDiscordEvent {
    pub name: String,
    pub description: String,
    pub scheduled_start_time: i64,
    pub scheduled_end_time: i64,
    pub recurrence_rule: Option<RecurrenceRule>,
}

/// Privacy level of mirrored events: visible to the guild only.
pub const GUILD_ONLY: u32 = 2;

/// Entity type of mirrored events: hosted elsewhere.
pub const EXTERNAL_ENTITY: u32 = 3;

/// Frequency code of a weekly rule.
pub const WEEKLY: u8 = 2;

/// A source event as a mathematical value.
pub struct SourceView {
    pub uid: Seq<char>,
    pub start_at: int,
    pub end_at: int,
    pub name: Seq<char>,
    pub description: Option<Seq<char>>,
    pub categories: Option<Seq<char>>,
    pub weekly_on: Option<u8>,
}

/// A mirror event as a mathematical value.
pub struct MirrorView {
    pub id: Seq<char>,
    pub name: Seq<char>,
    pub description: Seq<char>,
    pub start: int,
    pub end: int,
    pub rule: Option<RuleView>,
    pub creator_id: u128,
}

/// A create payload as a mathematical value.
pub struct PayloadView {
    pub name: Seq<char>,
    pub description: Seq<char>,
    pub privacy_level: u32,
    pub entity_type: u32,
    pub location: Seq<char>,
    pub start: int,
    pub end: int,
    pub rule: Option<RuleView>,
}

/// An update payload as a mathematical value.
pub struct UpdateView {
    pub name: Seq<char>,
    pub description: Seq<char>,
    pub start: int,
    pub end: int,
    pub rule: Option<RuleView>,
}

pub open spec fn opt_view(s: Option<String>) -> Option<Seq<char>> {
    match s {
        Some(v) => Some(v@),
        None => None,
    }
}

pub open spec fn opt_rule_view(r: Option<RecurrenceRule>) -> Option<RuleView> {
    match r {
        Some(v) => Some(v@),
        None => None,
    }
}

impl View for TwitchEvent {
    type V = SourceView;

    open spec fn view(&self) -> SourceView {
        SourceView {
            uid: self.uid@,
            start_at: self.start_at as int,
            end_at: self.end_at as int,
            name: self.name@,
            description: opt_view(self.description),
            categories: opt_view(self.categories),
            weekly_on: match self.repeat_rule {
                Some(RepeatRule::Weekly(d)) => Some(d),
                None => None,
            },
        }
    }
}

impl View for DiscordEvent {
    type V = MirrorView;

    open spec fn view(&self) -> MirrorView {
        MirrorView {
            id: self.id@,
            name: self.name@,
            description: self.description@,
            start: self.scheduled_start_time as int,
            end: self.scheduled_end_time as int,
            rule: opt_rule_view(self.recurrence_rule),
            creator_id: self.creator_id,
        }
    }
}

impl View for CreateDiscordEvent {
    type V = PayloadView;

    open spec fn view(&self) -> PayloadView {
        PayloadView {
            name: self.name@,
            description: self.description@,
            privacy_level: self.privacy_level,
            entity_type: self.entity_type,
            location: self.entity_metadata.location@,
            start: self.scheduled_start_time as int,
            end: self.scheduled_end_time as int,
            rule: opt_rule_view(self.recurrence_rule),
        }
    }
}

impl View for UpdateDiscordEvent {
    type V = UpdateView;

    open spec fn view(&self) -> UpdateView {
        UpdateView {
            name: self.name@,
            description: self.description@,
            start: self.scheduled_start_time as int,
            end: self.scheduled_end_time as int,
            rule: opt_rule_view(self.recurrence_rule),
        }
    }
}

/// A source event that the library accepts: instants in range, a real weekday.
pub open spec fn source_wf(s: SourceView) -> bool {
    &&& valid_instant(s.start_at)
    &&& valid_instant(s.end_at)
    &&& (s.weekly_on matches Some(d) ==> d < 7)
}

/// A mirror event that the library accepts.
pub open spec fn mirror_wf(m: MirrorView) -> bool {
    &&& valid_instant(m.start)
    &&& valid_instant(m.end)
    &&& (m.rule matches Some(r) ==> valid_instant(r.start))
}

pub open spec fn text_or_empty(s: Option<Seq<char>>) -> Seq<char> {
    match s {
        Some(v) => v,
        None => Seq::empty(),
    }
}

/// Separator between an event's title and its category.
pub open spec fn title_separator() -> Seq<char> {
    seq![' ', '|', ' ']
}

/// Blank lines and the marker that precede the correlation key in a description.
pub open spec fn key_marker() -> Seq<char> {
    seq!['\n', '\n', '\n', '\n', '#']
}

/// Where every mirrored event points.
pub open spec fn stream_location() -> Seq<char> {
    seq!['h', 't', 't', 'p', 's', ':', '/', '/', 't', 'w', 'i', 't', 'c', 'h', '.', 't', 'v', '/', 'h', 'a', 'f', 'm', 'c']
}

/// The title of the mirror event for `s`: its title, then its category.
pub open spec fn mirror_title(s: SourceView) -> Seq<char> {
    s.name + title_separator() + text_or_empty(s.categories)
}

/// The description of the mirror event for `s`, ending in `#` and its uid.
pub open spec fn mirror_description(s: SourceView) -> Seq<char> {
    text_or_empty(s.description) + key_marker() + s.uid
}

/// The rule of the mirror event for `s`, anchored at its start.
pub open spec fn mirror_rule(s: SourceView) -> Option<RuleView> {
    match s.weekly_on {
        Some(d) => Some(
            RuleView {
                start: s.start_at,
                by_weekday: Some(seq![d]),
                interval: Some(1),
                frequency: Some(WEEKLY),
            },
        ),
        None => None,
    }
}

/// The create payload for a source event.
pub open spec fn payload_of(s: SourceView) -> PayloadView {
    PayloadView {
        name: mirror_title(s),
        description: mirror_description(s),
        privacy_level: GUILD_ONLY,
        entity_type: EXTERNAL_ENTITY,
        location: stream_location(),
        start: s.start_at,
        end: s.end_at,
        rule: mirror_rule(s),
    }
}

/// `i` is the position of the last `#` of `s`.
pub open spec fn is_last_marker(s: Seq<char>, i: int) -> bool {
    &&& 0 <= i < s.len()
    &&& s[i] == '#'
    &&& forall|j: int| i < j < s.len() ==> s[j] != '#'
}

/// The correlation key embedded in a description: what follows its last `#`.
pub open spec fn correlation_key(s: Seq<char>) -> Option<Seq<char>> {
    if exists|i: int| is_last_marker(s, i) {
        let i = choose|i: int| is_last_marker(s, i);
        Some(s.subrange(i + 1, s.len() as int))
    } else {
        None
    }
}

proof fn lemma_last_marker_unique(s: Seq<char>, i: int, k: int)
    requires
        is_last_marker(s, i),
        is_last_marker(s, k),
    ensures
        i == k,
{
    if i < k {
        assert(s[k] != '#');
    } else if k < i {
        assert(s[i] != '#');
    }
}

/// The correlation key of a mirror description, if it carries one.
pub fn extract_key(description: &String) -> (r: Option<String>)
    ensures
        opt_view(r) == correlation_key(description@),
{
    let text = description.as_str();
    let n = text.unicode_len();
    let mut i: usize = n;
    while i > 0
        invariant
            i <= n,
            n == description@.len(),
            text@ == description@,
            forall|j: int| i <= j < n ==> description@[j] != '#',
        decreases i,
    {
        if text.get_char(i - 1) == '#' {
            let key = text.substring_char(i, n);
            proof {
                assert(is_last_marker(description@, i - 1));
                let k = choose|k: int| is_last_marker(description@, k);
                lemma_last_marker_unique(description@, i - 1, k);
            }
            return Some(String::from_str(key));
        }
        i = i - 1;
    }
    proof {
        if exists|k: int| is_last_marker(description@, k) {
            let k = choose|k: int| is_last_marker(description@, k);
            assert(description@[k] == '#');
        }
    }
    None
}

/// A copy of a weekday list.
fn copy_days(days: &Vec<u8>) -> (r: Vec<u8>)
    ensures
        r@ == days@,
{
    let mut r: Vec<u8> = Vec::new();
    let mut i: usize = 0;
    while i < days.len()
        invariant
            i <= days@.len(),
            r@ == days@.subrange(0, i as int),
        decreases days@.len() - i,
    {
        r.push(days[i]);
        i = i + 1;
    }
    assert(r@ =~= days@);
    r
}

impl RecurrenceRule {
    /// A copy of the rule with its anchor moved to `start`.
    pub fn anchored_at(&self, start: i64) -> (r: RecurrenceRule)
        ensures
            r@ == (RuleView { start: start as int, ..self@ }),
    {
        let by_weekday = match &self.by_weekday {
            Some(days) => Some(copy_days(days)),
            None => None,
        };
        RecurrenceRule { start, by_weekday, interval: self.interval, frequency: self.frequency }
    }
}

fn copy_text(s: &Option<String>) -> (r: String)
    ensures
        r@ == text_or_empty(opt_view(*s)),
{
    match s {
        Some(v) => v.clone(),
        None => String::new(),
    }
}

impl CreateDiscordEvent {
    /// The create payload that mirrors a source event: title and category,
    /// description with the correlation key appended, the same times, and a
    /// weekly rule anchored at the event's start where the event repeats.
    pub fn from(val: &TwitchEvent) -> (r: CreateDiscordEvent)
        ensures
            r@ == payload_of(val@),
    {
        let mut name = val.name.clone();
        name.append(" | ");
        let categories = copy_text(&val.categories);
        name.append(categories.as_str());
        let mut description = copy_text(&val.description);
        description.append("\n\n\n\n#");
        description.append(val.uid.as_str());
        let location = String::from_str("https://twitch.tv/hafmc");
        proof {
            reveal_strlit(" | ");
            reveal_strlit("\n\n\n\n#");
            reveal_strlit("https://twitch.tv/hafmc");
        }
        let recurrence_rule = match &val.repeat_rule {
            Some(RepeatRule::Weekly(day)) => {
                let mut days: Vec<u8> = Vec::new();
                days.push(*day);
                assert(days@ =~= seq![*day]);
                Some(
                    RecurrenceRule {
                        start: val.start_at,
                        frequency: Some(WEEKLY),
                        interval: Some(1),
                        by_weekday: Some(days),
                    },
                )
            },
            None => None,
        };
        let r = CreateDiscordEvent {
            name,
            description,
            privacy_level: GUILD_ONLY,
            entity_type: EXTERNAL_ENTITY,
            entity_metadata: EntityMetadata { location },
            scheduled_start_time: val.start_at,
            scheduled_end_time: val.end_at,
            recurrence_rule,
        };
        proof {
            assert(r@.name =~= payload_of(val@).name);
            assert(r@.description =~= payload_of(val@).description);
            assert(r@.location =~= stream_location());
            assert(r@.rule == payload_of(val@).rule);
            assert(r@.privacy_level == payload_of(val@).privacy_level);
        }
        r
    }
}

} // verus!

verus! {

impl TwitchEvent {
    /// Whether the event lies within the range the library accepts.
    pub fn is_well_formed(&self) -> (r: bool)
        ensures
            r == source_wf(self@),
    {
        let day_ok = match &self.repeat_rule {
            Some(RepeatRule::Weekly(d)) => *d < 7,
            None => true,
        };
        -crate::instant::MAX_INSTANT <= self.start_at && self.start_at <= crate::instant::MAX_INSTANT
            && -crate::instant::MAX_INSTANT <= self.end_at && self.end_at <= crate::instant::MAX_INSTANT
            && day_ok
    }

    /// Whether the event still matters at `now`: it starts later, or repeats.
    pub fn is_upcoming(&self, now: i64) -> (r: bool)
        ensures
            r == (self.start_at > now || self.repeat_rule is Some),
    {
        self.start_at > now || self.repeat_rule.is_some()
    }
}

impl DiscordEvent {
    /// Whether the event lies within the range the library accepts.
    pub fn is_well_formed(&self) -> (r: bool)
        ensures
            r == mirror_wf(self@),
    {
        let m = crate::instant::MAX_INSTANT;
        let rule_ok = match &self.recurrence_rule {
            Some(rule) => -m <= rule.start && rule.start <= m,
            None => true,
        };
        -m <= self.scheduled_start_time && self.scheduled_start_time <= m
            && -m <= self.scheduled_end_time && self.scheduled_end_time <= m && rule_ok
    }
}

} // verus!

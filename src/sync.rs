//! The diff between the source schedule and the mirror calendar.
use crate::compare::{compare_events, equivalent};
use crate::events::{
    correlation_key, extract_key, mirror_wf, opt_view, payload_of, source_wf, CreateDiscordEvent,
    DiscordEvent, MirrorView, PayloadView, SourceView, TwitchEvent, UpdateDiscordEvent, UpdateView,
};
use crate::instant::{valid_instant, MAX_INSTANT, SECS_PER_DAY};
use crate::recurrence::{days_of, has_valid_day, is_next_occurrence, is_occurrence, RuleView};
use vstd::prelude::*;

verus! {

/// A change to an existing mirror event.
#[derive(Clone, Debug, PartialEq, Eq)]
pub struct EventEdit {
    pub id: String,
    pub event: UpdateDiscordEvent,
}

/// The actions that bring the mirror in line with the source.
#[derive(Clone, Debug, PartialEq, Eq)]
pub struct SyncPlan {
    pub to_create: Vec<CreateDiscordEvent>,
    pub to_delete: Vec<String>,
    pub to_update: Vec<EventEdit>,
}

/// An edit as a mathematical value.
pub struct EditView {
    pub id: Seq<char>,
    pub event: UpdateView,
}

/// A plan as a mathematical value.
pub struct PlanView {
    pub to_create: Seq<PayloadView>,
    pub to_delete: Seq<Seq<char>>,
    pub to_update: Seq<EditView>,
}

impl View for EventEdit {
    type V = EditView;

    open spec fn view(&self) -> EditView {
        EditView { id: self.id@, event: self.event@ }
    }
}

impl View for SyncPlan {
    type V = PlanView;

    open spec fn view(&self) -> PlanView {
        PlanView {
            to_create: self.to_create@.map_values(|c: CreateDiscordEvent| c@),
            to_delete: self.to_delete@.map_values(|s: String| s@),
            to_update: self.to_update@.map_values(|e: EventEdit| e@),
        }
    }
}

/// The correlation key of a mirror event that this system created.
pub open spec fn mirror_key(m: MirrorView, bot: u128) -> Option<Seq<char>> {
    if m.creator_id == bot {
        correlation_key(m.description)
    } else {
        None
    }
}

/// Some mirror event created by `bot` carries `uid` as its key.
pub open spec fn mirrored(ms: Seq<MirrorView>, bot: u128, uid: Seq<char>) -> bool {
    exists|j: int| 0 <= j < ms.len() && mirror_key(ms[j], bot) == Some(uid)
}

/// Some source event has `key` as its uid.
pub open spec fn sourced(ss: Seq<SourceView>, key: Seq<char>) -> bool {
    exists|i: int| 0 <= i < ss.len() && ss[i].uid == key
}

/// `i` is the first source event with uid `key`.
pub open spec fn is_first_source(ss: Seq<SourceView>, key: Seq<char>, i: int) -> bool {
    &&& 0 <= i < ss.len()
    &&& ss[i].uid == key
    &&& forall|j: int| 0 <= j < i ==> ss[j].uid != key
}

/// The first source event with uid `key`.
pub open spec fn first_source(ss: Seq<SourceView>, key: Seq<char>) -> SourceView {
    ss[choose|i: int| is_first_source(ss, key, i)]
}

/// The next occurrence of `r` after `from` and `now`.
pub open spec fn next_occurrence(r: RuleView, from: int, now: int) -> int {
    choose|t: int| is_next_occurrence(r, from, now, t)
}

/// What is created for a source event: its payload, moved to the rule's next
/// occurrence (keeping its length) when it repeats and has already started.
pub open spec fn created(s: SourceView, now: int) -> PayloadView {
    let p = payload_of(s);
    match p.rule {
        Some(r) => if s.start_at <= now {
            let t = next_occurrence(r, s.start_at, now);
            PayloadView { start: t, end: t + (s.end_at - s.start_at), rule: Some(RuleView { start: t, ..r }), ..p }
        } else {
            p
        },
        None => p,
    }
}

/// The update that brings mirror event `m` in line with source event `s`:
/// a repeating event moves to the rule's next occurrence after its current
/// start, with the length of the source event.
pub open spec fn update_of(s: SourceView, m: MirrorView, now: int) -> UpdateView {
    let p = payload_of(s);
    match p.rule {
        Some(r) => {
            let t = next_occurrence(r, m.start, now);
            UpdateView {
                name: p.name,
                description: p.description,
                start: t,
                end: t + (s.end_at - s.start_at),
                rule: Some(RuleView { start: t, ..r }),
            }
        },
        None => UpdateView {
            name: p.name,
            description: p.description,
            start: p.start,
            end: p.end,
            rule: None,
        },
    }
}

/// The payloads to create: one for each source event, in order, that no
/// mirror event of `bot` carries the key of.
pub open spec fn creates(ss: Seq<SourceView>, ms: Seq<MirrorView>, bot: u128, now: int) -> Seq<PayloadView>
    decreases ss.len(),
{
    if ss.len() == 0 {
        Seq::empty()
    } else {
        let rest = creates(ss.drop_last(), ms, bot, now);
        if mirrored(ms, bot, ss.last().uid) {
            rest
        } else {
            rest.push(created(ss.last(), now))
        }
    }
}

/// The ids to delete: those of the mirror events of `bot`, in order, whose key
/// no source event has.
pub open spec fn deletes(ms: Seq<MirrorView>, ss: Seq<SourceView>, bot: u128) -> Seq<Seq<char>>
    decreases ms.len(),
{
    if ms.len() == 0 {
        Seq::empty()
    } else {
        let rest = deletes(ms.drop_last(), ss, bot);
        match mirror_key(ms.last(), bot) {
            Some(k) => if sourced(ss, k) {
                rest
            } else {
                rest.push(ms.last().id)
            },
            None => rest,
        }
    }
}

/// The edits: one for each mirror event of `bot`, in order, whose key a source
/// event has and which does not already represent that event's payload.
pub open spec fn updates(ms: Seq<MirrorView>, ss: Seq<SourceView>, bot: u128, now: int) -> Seq<EditView>
    decreases ms.len(),
{
    if ms.len() == 0 {
        Seq::empty()
    } else {
        let rest = updates(ms.drop_last(), ss, bot, now);
        let m = ms.last();
        match mirror_key(m, bot) {
            Some(k) => if sourced(ss, k) && !equivalent(payload_of(first_source(ss, k)), m) {
                rest.push(EditView { id: m.id, event: update_of(first_source(ss, k), m, now) })
            } else {
                rest
            },
            None => rest,
        }
    }
}

/// The whole plan for one cycle.
pub open spec fn plan_of(ss: Seq<SourceView>, ms: Seq<MirrorView>, bot: u128, now: int) -> PlanView {
    PlanView {
        to_create: creates(ss, ms, bot, now),
        to_delete: deletes(ms, ss, bot),
        to_update: updates(ms, ss, bot, now),
    }
}

pub open spec fn sources_view(v: Seq<TwitchEvent>) -> Seq<SourceView> {
    v.map_values(|e: TwitchEvent| e@)
}

pub open spec fn mirrors_view(v: Seq<DiscordEvent>) -> Seq<MirrorView> {
    v.map_values(|e: DiscordEvent| e@)
}

} // verus!

verus! {

proof fn lemma_next_unique(r: RuleView, from: int, now: int, t: int)
    requires
        is_next_occurrence(r, from, now, t),
    ensures
        next_occurrence(r, from, now) == t,
{
    let c = next_occurrence(r, from, now);
    assert(is_next_occurrence(r, from, now, c));
    if c < t {
        assert(!is_occurrence(r, c));
    } else if t < c {
        assert(!is_occurrence(r, t));
    }
}

pub(crate) proof fn lemma_first_unique(ss: Seq<SourceView>, key: Seq<char>, i: int)
    requires
        is_first_source(ss, key, i),
    ensures
        first_source(ss, key) == ss[i],
{
    let k = choose|k: int| is_first_source(ss, key, k);
    assert(is_first_source(ss, key, k));
    if k < i {
        assert(ss[k].uid != key);
    } else if i < k {
        assert(ss[i].uid != key);
    }
}

/// The rule of a source event's payload always lists a real weekday.
proof fn lemma_payload_rule_valid(s: SourceView)
    requires
        source_wf(s),
    ensures
        payload_of(s).rule matches Some(r) ==> has_valid_day(r) && valid_instant(r.start),
{
    if let Some(r) = payload_of(s).rule {
        assert(days_of(r)[0] < 7);
    }
}

/// The event to create for one source event.
fn create_for(s: &TwitchEvent, now: i64) -> (r: CreateDiscordEvent)
    requires
        source_wf(s@),
        valid_instant(now as int),
    ensures
        r@ == created(s@, now as int),
{
    let mut p = CreateDiscordEvent::from(s);
    proof {
        lemma_payload_rule_valid(s@);
    }
    if s.start_at <= now {
        let moved = match &p.recurrence_rule {
            Some(rule) => match rule.next_date(s.start_at, now) {
                Ok(t) => {
                    proof {
                        lemma_next_unique(rule@, s.start_at as int, now as int, t as int);
                    }
                    Some((t, rule.anchored_at(t)))
                },
                Err(_) => None,
            },
            None => None,
        };
        if let Some((t, rule)) = moved {
            p.scheduled_start_time = t;
            p.scheduled_end_time = t + (s.end_at - s.start_at);
            p.recurrence_rule = Some(rule);
        }
    }
    p
}

/// The update for mirror event `m`, which carries the key of source event `s`.
fn update_for(s: &TwitchEvent, m: &DiscordEvent, now: i64) -> (r: UpdateDiscordEvent)
    requires
        source_wf(s@),
        mirror_wf(m@),
        valid_instant(now as int),
    ensures
        r@ == update_of(s@, m@, now as int),
{
    let p = CreateDiscordEvent::from(s);
    proof {
        lemma_payload_rule_valid(s@);
    }
    match &p.recurrence_rule {
        Some(rule) => match rule.next_date(m.scheduled_start_time, now) {
            Ok(t) => {
                proof {
                    lemma_next_unique(rule@, m.scheduled_start_time as int, now as int, t as int);
                }
                let anchored = rule.anchored_at(t);
                UpdateDiscordEvent {
                    name: p.name,
                    description: p.description,
                    scheduled_start_time: t,
                    scheduled_end_time: t + (s.end_at - s.start_at),
                    recurrence_rule: Some(anchored),
                }
            },
            Err(_) => {
                proof {
                    assert(false);
                }
                UpdateDiscordEvent {
                    name: p.name,
                    description: p.description,
                    scheduled_start_time: p.scheduled_start_time,
                    scheduled_end_time: p.scheduled_end_time,
                    recurrence_rule: None,
                }
            },
        },
        None => UpdateDiscordEvent {
            name: p.name,
            description: p.description,
            scheduled_start_time: p.scheduled_start_time,
            scheduled_end_time: p.scheduled_end_time,
            recurrence_rule: None,
        },
    }
}

} // verus!

verus! {

/// The key of each mirror event that `bot` created, `None` for the others.
fn mirror_keys(mirror: &Vec<DiscordEvent>, bot_id: u128) -> (r: Vec<Option<String>>)
    ensures
        r@.len() == mirror@.len(),
        forall|j: int| 0 <= j < mirror@.len() ==> opt_view(#[trigger] r@[j]) == mirror_key(mirror@[j]@, bot_id),
{
    let mut r: Vec<Option<String>> = Vec::new();
    let mut j: usize = 0;
    while j < mirror.len()
        invariant
            j <= mirror@.len(),
            r@.len() == j,
            forall|k: int| 0 <= k < j ==> opt_view(#[trigger] r@[k]) == mirror_key(mirror@[k]@, bot_id),
        decreases mirror@.len() - j,
    {
        let m = &mirror[j];
        if m.creator_id == bot_id {
            r.push(extract_key(&m.description));
        } else {
            r.push(None);
        }
        j = j + 1;
    }
    r
}

/// Whether some key equals `uid`.
fn has_key(keys: &Vec<Option<String>>, uid: &String) -> (r: bool)
    ensures
        r == exists|j: int| 0 <= j < keys@.len() && opt_view(#[trigger] keys@[j]) == Some(uid@),
{
    let mut j: usize = 0;
    while j < keys.len()
        invariant
            j <= keys@.len(),
            forall|k: int| 0 <= k < j ==> opt_view(#[trigger] keys@[k]) != Some(uid@),
        decreases keys@.len() - j,
    {
        if let Some(k) = &keys[j] {
            if *k == *uid {
                assert(opt_view(keys@[j as int]) == Some(uid@));
                return true;
            }
        }
        j = j + 1;
    }
    false
}

/// The position of the first source event with uid `key`.
fn find_source(source: &Vec<TwitchEvent>, key: &String) -> (r: Option<usize>)
    ensures
        r is None <==> !sourced(sources_view(source@), key@),
        r matches Some(i) ==> is_first_source(sources_view(source@), key@, i as int),
{
    let ghost ss = sources_view(source@);
    let mut i: usize = 0;
    while i < source.len()
        invariant
            i <= source@.len(),
            ss == sources_view(source@),
            forall|j: int| 0 <= j < i ==> ss[j].uid != key@,
        decreases source@.len() - i,
    {
        assert(ss[i as int] == source@[i as int]@);
        if source[i].uid == *key {
            return Some(i);
        }
        i = i + 1;
    }
    assert forall|j: int| 0 <= j < ss.len() implies ss[j].uid != key@ by {}
    None
}

/// The plan that brings the mirror in line with the source at instant `now`:
/// what to create, which of `bot_id`'s mirror events to delete, and which to
/// change. Mirror events that another creator made, or whose description
/// carries no key, are left out of every list.
pub fn reconcile(source: &Vec<TwitchEvent>, mirror: &Vec<DiscordEvent>, bot_id: u128, now: i64) -> (r: SyncPlan)
    requires
        forall|i: int| 0 <= i < source@.len() ==> source_wf(#[trigger] source@[i]@),
        forall|j: int| 0 <= j < mirror@.len() ==> mirror_wf(#[trigger] mirror@[j]@),
        valid_instant(now as int),
    ensures
        r@ == plan_of(sources_view(source@), mirrors_view(mirror@), bot_id, now as int),
{
    let ghost ss = sources_view(source@);
    let ghost ms = mirrors_view(mirror@);
    let keys = mirror_keys(mirror, bot_id);
    let mut to_create: Vec<CreateDiscordEvent> = Vec::new();
    let mut i: usize = 0;
    while i < source.len()
        invariant
            i <= source@.len(),
            ss == sources_view(source@),
            ms == mirrors_view(mirror@),
            keys@.len() == mirror@.len(),
            forall|j: int| 0 <= j < mirror@.len() ==> opt_view(#[trigger] keys@[j]) == mirror_key(mirror@[j]@, bot_id),
            forall|k: int| 0 <= k < source@.len() ==> source_wf(#[trigger] source@[k]@),
            valid_instant(now as int),
            to_create@.map_values(|c: CreateDiscordEvent| c@) == creates(ss.subrange(0, i as int), ms, bot_id, now as int),
        decreases source@.len() - i,
    {
        let s = &source[i];
        let found = has_key(&keys, &s.uid);
        proof {
            assert(ss.subrange(0, i + 1).drop_last() =~= ss.subrange(0, i as int));
            assert(ss.subrange(0, i + 1).last() == s@);
            if found {
                let j = choose|j: int| 0 <= j < keys@.len() && opt_view(#[trigger] keys@[j]) == Some(s.uid@);
                assert(mirror_key(ms[j], bot_id) == Some(s.uid@));
            } else {
                assert forall|j: int| 0 <= j < ms.len() implies mirror_key(ms[j], bot_id) != Some(s.uid@) by {
                    assert(opt_view(keys@[j]) == mirror_key(mirror@[j]@, bot_id));
                }
            }
        }
        if !found {
            let c = create_for(s, now);
            to_create.push(c);
        }
        proof {
            assert(to_create@.map_values(|c: CreateDiscordEvent| c@) =~= creates(ss.subrange(0, i + 1), ms, bot_id, now as int));
        }
        i = i + 1;
    }
    assert(ss.subrange(0, source@.len() as int) =~= ss);
    let mut to_delete: Vec<String> = Vec::new();
    let mut to_update: Vec<EventEdit> = Vec::new();
    let mut j: usize = 0;
    while j < mirror.len()
        invariant
            j <= mirror@.len(),
            ss == sources_view(source@),
            ms == mirrors_view(mirror@),
            keys@.len() == mirror@.len(),
            forall|k: int| 0 <= k < mirror@.len() ==> opt_view(#[trigger] keys@[k]) == mirror_key(mirror@[k]@, bot_id),
            forall|k: int| 0 <= k < source@.len() ==> source_wf(#[trigger] source@[k]@),
            forall|k: int| 0 <= k < mirror@.len() ==> mirror_wf(#[trigger] mirror@[k]@),
            valid_instant(now as int),
            to_delete@.map_values(|s: String| s@) == deletes(ms.subrange(0, j as int), ss, bot_id),
            to_update@.map_values(|e: EventEdit| e@) == updates(ms.subrange(0, j as int), ss, bot_id, now as int),
        decreases mirror@.len() - j,
    {
        let m = &mirror[j];
        proof {
            assert(ms.subrange(0, j + 1).drop_last() =~= ms.subrange(0, j as int));
            assert(ms.subrange(0, j + 1).last() == m@);
            assert(opt_view(keys@[j as int]) == mirror_key(m@, bot_id));
        }
        if let Some(key) = &keys[j] {
            match find_source(source, key) {
                None => {
                    to_delete.push(m.id.clone());
                },
                Some(k) => {
                    let s = &source[k];
                    proof {
                        lemma_first_unique(ss, key@, k as int);
                    }
                    let p = CreateDiscordEvent::from(s);
                    if !compare_events(&p, m) {
                        let event = update_for(s, m, now);
                        to_update.push(EventEdit { id: m.id.clone(), event });
                    }
                },
            }
        }
        proof {
            assert(to_delete@.map_values(|s: String| s@) =~= deletes(ms.subrange(0, j + 1), ss, bot_id));
            assert(to_update@.map_values(|e: EventEdit| e@) =~= updates(ms.subrange(0, j + 1), ss, bot_id, now as int));
        }
        j = j + 1;
    }
    assert(ms.subrange(0, mirror@.len() as int) =~= ms);
    SyncPlan { to_create, to_delete, to_update }
}

} // verus!

verus! {

/// Relies on std's `SystemTime::duration_since`, applied to
/// `SystemTime::now()` and `UNIX_EPOCH`: the time now, in whole seconds
/// since the Unix epoch, or `None` for a clock before the epoch or beyond
/// the range of `i64`. Nothing is promised of its value.
#[verifier::external_body]
fn now_seconds() -> (r: Option<i64>) {
    match std::time::SystemTime::now().duration_since(std::time::UNIX_EPOCH) {
        Ok(d) => i64::try_from(d.as_secs()).ok(),
        Err(_) => None,
    }
}

/// The plan at instant `now`, or `None` when `now` lies outside the
/// supported range.
pub fn plan_at(source: &Vec<TwitchEvent>, mirror: &Vec<DiscordEvent>, bot_id: u128, now: i64) -> (r: Option<SyncPlan>)
    requires
        forall|i: int| 0 <= i < source@.len() ==> source_wf(#[trigger] source@[i]@),
        forall|j: int| 0 <= j < mirror@.len() ==> mirror_wf(#[trigger] mirror@[j]@),
    ensures
        r is None <==> !valid_instant(now as int),
        r matches Some(p) ==> p@ == plan_of(sources_view(source@), mirrors_view(mirror@), bot_id, now as int),
{
    if now < -MAX_INSTANT || now > MAX_INSTANT {
        return None;
    }
    Some(reconcile(source, mirror, bot_id, now))
}

/// The plan for the current time, or `None` when the clock cannot be read
/// or reads an instant outside the supported range.
pub fn plan_now(source: &Vec<TwitchEvent>, mirror: &Vec<DiscordEvent>, bot_id: u128) -> (r: Option<SyncPlan>)
    requires
        forall|i: int| 0 <= i < source@.len() ==> source_wf(#[trigger] source@[i]@),
        forall|j: int| 0 <= j < mirror@.len() ==> mirror_wf(#[trigger] mirror@[j]@),
    ensures
        r matches Some(p) ==> exists|now: int| valid_instant(now)
            && p@ == #[trigger] plan_of(sources_view(source@), mirrors_view(mirror@), bot_id, now),
{
    match now_seconds() {
        Some(now) => plan_at(source, mirror, bot_id, now),
        None => None,
    }
}

} // verus!

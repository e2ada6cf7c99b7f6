use event_mirror::compare::compare_events;
use event_mirror::events::{
    extract_key, CreateDiscordEvent, DiscordEvent, RepeatRule, TwitchEvent,
};
use event_mirror::recurrence::RecurrenceRule;
use event_mirror::sync::{plan_at, reconcile, SyncPlan};

const BOT: u128 = 42;
const HOUR: i64 = 3600;
// Monday 2026-10-19 12:00 UTC.
const NOW: i64 = 1792411200;
// Friday 2030-01-04 18:00 UTC.
const FUTURE_FRIDAY: i64 = 1893780000;
// Friday 2024-01-05 18:00 UTC.
const PAST_FRIDAY: i64 = 1704477600;
// Friday 2024-03-01 18:00 UTC.
const LATER_PAST_FRIDAY: i64 = 1709316000;
// Friday 2026-10-23 18:00 UTC, the first Friday evening after NOW.
const NEXT_FRIDAY: i64 = 1792778400;

fn source(uid: &str, title: &str, start: i64, end: i64, weekly: Option<u8>) -> TwitchEvent {
    TwitchEvent {
        uid: uid.to_string(),
        start_at: start,
        end_at: end,
        name: title.to_string(),
        description: Some("Come along".to_string()),
        categories: Some("Software".to_string()),
        repeat_rule: weekly.map(RepeatRule::Weekly),
    }
}

fn mirror_of(id: &str, p: &CreateDiscordEvent, creator: u128) -> DiscordEvent {
    DiscordEvent {
        id: id.to_string(),
        name: p.name.clone(),
        description: p.description.clone(),
        scheduled_start_time: p.scheduled_start_time,
        scheduled_end_time: p.scheduled_end_time,
        recurrence_rule: p.recurrence_rule.clone(),
        creator_id: creator,
    }
}

fn plain_mirror(id: &str, description: &str, creator: u128) -> DiscordEvent {
    DiscordEvent {
        id: id.to_string(),
        name: "Dev Stream | Software".to_string(),
        description: description.to_string(),
        scheduled_start_time: FUTURE_FRIDAY,
        scheduled_end_time: FUTURE_FRIDAY + 2 * HOUR,
        recurrence_rule: None,
        creator_id: creator,
    }
}

fn is_empty(plan: &SyncPlan) -> bool {
    plan.to_create.is_empty() && plan.to_delete.is_empty() && plan.to_update.is_empty()
}

#[test]
fn new_source_event_is_created() {
    let src = vec![source("a1", "Dev Stream", FUTURE_FRIDAY, FUTURE_FRIDAY + 2 * HOUR, None)];
    let plan = reconcile(&src, &vec![], BOT, NOW);
    assert_eq!(plan.to_create.len(), 1);
    let c = &plan.to_create[0];
    assert_eq!(c.name, "Dev Stream | Software");
    assert_eq!(c.description, "Come along\n\n\n\n#a1");
    assert_eq!(c.scheduled_start_time, FUTURE_FRIDAY);
    assert_eq!(c.scheduled_end_time, FUTURE_FRIDAY + 2 * HOUR);
    assert_eq!(c.privacy_level, 2);
    assert_eq!(c.entity_type, 3);
    assert_eq!(c.entity_metadata.location, "https://twitch.tv/hafmc");
    assert!(c.recurrence_rule.is_none());
    assert!(plan.to_delete.is_empty());
    assert!(plan.to_update.is_empty());
}

#[test]
fn orphan_mirror_event_is_deleted() {
    let mirror = vec![plain_mirror("m1", "Old stream\n\n\n\n#a1", BOT)];
    let plan = reconcile(&vec![], &mirror, BOT, NOW);
    assert_eq!(plan.to_delete, vec!["m1".to_string()]);
    assert!(plan.to_create.is_empty());
    assert!(plan.to_update.is_empty());
}

#[test]
fn recurring_event_on_past_pattern_day_is_equivalent() {
    let s = source("a1", "Dev Stream", PAST_FRIDAY, PAST_FRIDAY + 2 * HOUR, Some(4));
    let mut m = mirror_of("m1", &CreateDiscordEvent::from(&s), BOT);
    m.scheduled_start_time = LATER_PAST_FRIDAY;
    m.scheduled_end_time = LATER_PAST_FRIDAY + 2 * HOUR;
    m.recurrence_rule = Some(RecurrenceRule {
        start: LATER_PAST_FRIDAY,
        by_weekday: Some(vec![4]),
        interval: Some(1),
        frequency: Some(2),
    });
    assert!(compare_events(&CreateDiscordEvent::from(&s), &m));
    let plan = reconcile(&vec![s], &vec![m], BOT, NOW);
    assert!(is_empty(&plan));
}

#[test]
fn changed_title_is_updated() {
    let s = source("a1", "Dev Stream", FUTURE_FRIDAY, FUTURE_FRIDAY + 2 * HOUR, None);
    let m = plain_mirror("m1", "Come along\n\n\n\n#a1", BOT);
    let mut old = m;
    old.name = "Old title | Software".to_string();
    let plan = reconcile(&vec![s], &vec![old], BOT, NOW);
    assert!(plan.to_create.is_empty());
    assert!(plan.to_delete.is_empty());
    assert_eq!(plan.to_update.len(), 1);
    assert_eq!(plan.to_update[0].id, "m1");
    assert_eq!(plan.to_update[0].event.name, "Dev Stream | Software");
    assert_eq!(plan.to_update[0].event.scheduled_start_time, FUTURE_FRIDAY);
    assert_eq!(plan.to_update[0].event.scheduled_end_time, FUTURE_FRIDAY + 2 * HOUR);
}

#[test]
fn past_recurring_event_is_created_at_next_occurrence() {
    let s = source("a1", "Dev Stream", PAST_FRIDAY, PAST_FRIDAY + 2 * HOUR, Some(4));
    let plan = reconcile(&vec![s], &vec![], BOT, NOW);
    assert_eq!(plan.to_create.len(), 1);
    let c = &plan.to_create[0];
    assert_eq!(c.scheduled_start_time, NEXT_FRIDAY);
    assert_eq!(c.scheduled_end_time, NEXT_FRIDAY + 2 * HOUR);
    let rule = c.recurrence_rule.as_ref().unwrap();
    assert_eq!(rule.start, NEXT_FRIDAY);
    assert_eq!(rule.by_weekday, Some(vec![4]));
    assert_eq!(rule.interval, Some(1));
    assert_eq!(rule.frequency, Some(2));
}

#[test]
fn past_single_event_is_created_as_is() {
    let s = source("a1", "Dev Stream", PAST_FRIDAY, PAST_FRIDAY + 2 * HOUR, None);
    let plan = reconcile(&vec![s], &vec![], BOT, NOW);
    assert_eq!(plan.to_create.len(), 1);
    assert_eq!(plan.to_create[0].scheduled_start_time, PAST_FRIDAY);
}

#[test]
fn recurring_update_moves_to_next_occurrence_with_source_length() {
    let s = source("a1", "Dev Stream", PAST_FRIDAY, PAST_FRIDAY + 2 * HOUR, Some(4));
    let mut m = mirror_of("m1", &CreateDiscordEvent::from(&s), BOT);
    m.name = "Renamed".to_string();
    m.scheduled_end_time = PAST_FRIDAY + 3 * HOUR;
    let plan = reconcile(&vec![s], &vec![m], BOT, NOW);
    assert_eq!(plan.to_update.len(), 1);
    let e = &plan.to_update[0].event;
    assert_eq!(e.scheduled_start_time, NEXT_FRIDAY);
    assert_eq!(e.scheduled_end_time, NEXT_FRIDAY + 2 * HOUR);
    assert_eq!(e.recurrence_rule.as_ref().unwrap().start, NEXT_FRIDAY);
}

#[test]
fn keyless_mirror_event_is_ignored() {
    let s = source("a1", "Dev Stream", FUTURE_FRIDAY, FUTURE_FRIDAY + 2 * HOUR, None);
    let keyless = plain_mirror("m1", "Come along", BOT);
    let plan = reconcile(&vec![s], &vec![keyless], BOT, NOW);
    assert_eq!(plan.to_create.len(), 1);
    assert!(plan.to_delete.is_empty());
    assert!(plan.to_update.is_empty());
}

#[test]
fn mirror_event_of_other_creator_is_ignored() {
    let other = plain_mirror("m1", "Someone else\n\n\n\n#a9", 7);
    let plan = reconcile(&vec![], &vec![other], BOT, NOW);
    assert!(is_empty(&plan));
}

#[test]
fn created_payload_is_equivalent_to_its_mirror() {
    let s = source("a1", "Dev Stream", FUTURE_FRIDAY, FUTURE_FRIDAY + 2 * HOUR, Some(4));
    let p = CreateDiscordEvent::from(&s);
    let m = mirror_of("m1", &p, BOT);
    assert!(compare_events(&p, &m));
}

#[test]
fn second_cycle_after_applying_plan_is_empty() {
    let src = vec![
        source("a1", "Dev Stream", FUTURE_FRIDAY, FUTURE_FRIDAY + 2 * HOUR, None),
        source("a2", "Weekly", PAST_FRIDAY, PAST_FRIDAY + 2 * HOUR, Some(4)),
        source("a3", "Renamed", FUTURE_FRIDAY + 24 * HOUR, FUTURE_FRIDAY + 26 * HOUR, None),
    ];
    let stale = source("a3", "Old", FUTURE_FRIDAY + 24 * HOUR, FUTURE_FRIDAY + 26 * HOUR, None);
    let mirror = vec![
        plain_mirror("m0", "Gone\n\n\n\n#zz", BOT),
        mirror_of("m3", &CreateDiscordEvent::from(&stale), BOT),
    ];
    let plan = reconcile(&src, &mirror, BOT, NOW);
    assert_eq!(plan.to_create.len(), 2);
    assert_eq!(plan.to_delete, vec!["m0".to_string()]);
    assert_eq!(plan.to_update.len(), 1);

    let mut applied: Vec<DiscordEvent> = Vec::new();
    for m in &mirror {
        if plan.to_delete.contains(&m.id) {
            continue;
        }
        let mut m2 = m.clone();
        for edit in &plan.to_update {
            if edit.id == m.id {
                m2.name = edit.event.name.clone();
                m2.description = edit.event.description.clone();
                m2.scheduled_start_time = edit.event.scheduled_start_time;
                m2.scheduled_end_time = edit.event.scheduled_end_time;
                m2.recurrence_rule = edit.event.recurrence_rule.clone();
            }
        }
        applied.push(m2);
    }
    for (k, c) in plan.to_create.iter().enumerate() {
        applied.push(mirror_of(&format!("new{}", k), c, BOT));
    }
    let again = reconcile(&src, &applied, BOT, NOW);
    assert!(is_empty(&again));
}

#[test]
fn key_is_text_after_last_marker() {
    assert_eq!(extract_key(&"a#b\n\n#uid-7".to_string()), Some("uid-7".to_string()));
    assert_eq!(extract_key(&"ends with#".to_string()), Some(String::new()));
    assert_eq!(extract_key(&"no marker".to_string()), None);
}

#[test]
fn rule_anchor_of_mirror_is_not_compared() {
    let s = source("a1", "Dev Stream", FUTURE_FRIDAY, FUTURE_FRIDAY + 2 * HOUR, Some(4));
    let p = CreateDiscordEvent::from(&s);
    let mut m = mirror_of("m1", &p, BOT);
    m.recurrence_rule.as_mut().unwrap().start = FUTURE_FRIDAY + HOUR;
    assert!(compare_events(&p, &m));
    let plan = reconcile(&vec![s], &vec![m], BOT, NOW);
    assert!(is_empty(&plan));
}

#[test]
fn recurring_mirror_of_other_length_settles_after_one_update() {
    let src = vec![source("a1", "Dev Stream", PAST_FRIDAY, PAST_FRIDAY + 2 * HOUR, Some(4))];
    let mut m = mirror_of("m1", &CreateDiscordEvent::from(&src[0]), BOT);
    m.scheduled_end_time = PAST_FRIDAY + 5 * HOUR;
    let plan = reconcile(&src, &vec![m.clone()], BOT, NOW);
    assert_eq!(plan.to_update.len(), 1);
    let e = &plan.to_update[0].event;
    m.name = e.name.clone();
    m.description = e.description.clone();
    m.scheduled_start_time = e.scheduled_start_time;
    m.scheduled_end_time = e.scheduled_end_time;
    m.recurrence_rule = e.recurrence_rule.clone();
    let again = reconcile(&src, &vec![m], BOT, NOW);
    assert!(is_empty(&again));
}

#[test]
fn keyless_bot_event_resembling_source_with_empty_uid_is_untouched() {
    let s = source("", "Dev Stream", FUTURE_FRIDAY, FUTURE_FRIDAY + 2 * HOUR, None);
    let keyless = plain_mirror("m1", "Come along", BOT);
    let plan = reconcile(&vec![s], &vec![keyless], BOT, NOW);
    assert_eq!(plan.to_create.len(), 1);
    assert!(plan.to_delete.is_empty());
    assert!(plan.to_update.is_empty());
}

#[test]
fn plan_at_rejects_instants_out_of_range() {
    let src = vec![source("a1", "Dev Stream", FUTURE_FRIDAY, FUTURE_FRIDAY + 2 * HOUR, None)];
    assert!(plan_at(&src, &vec![], BOT, 253402300800).is_none());
    assert!(plan_at(&src, &vec![], BOT, -253402300800).is_none());
    let plan = plan_at(&src, &vec![], BOT, NOW).unwrap();
    assert_eq!(plan, reconcile(&src, &vec![], BOT, NOW));
    assert_eq!(plan.to_create.len(), 1);
}

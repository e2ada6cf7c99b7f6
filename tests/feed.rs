use event_mirror::events::{RepeatRule, TwitchEvent};
use event_mirror::feed::{
    find_property, property_instant, read_schedule, schedule_from_entries, FeedError, FeedProperty, ScheduleError,
};

// Friday 2024-01-05 18:00 UTC.
const FRIDAY_UTC: i64 = 1704477600;

fn prop(name: &str, value: &str) -> FeedProperty {
    FeedProperty { name: name.to_string(), value: value.to_string(), zone: None }
}

fn zoned(name: &str, value: &str, zone: &str) -> FeedProperty {
    FeedProperty { name: name.to_string(), value: value.to_string(), zone: Some(zone.to_string()) }
}

fn entry() -> Vec<FeedProperty> {
    vec![
        prop("UID", "a1"),
        zoned("DTSTART", "20240105T190000", "/Europe/Berlin"),
        zoned("DTEND", "20240105T210000", "/Europe/Berlin"),
        prop("SUMMARY", "Dev Stream"),
        prop("CATEGORIES", "Software"),
        prop("RRULE", "FREQ=WEEKLY;BYDAY=FR"),
    ]
}

#[test]
fn zoned_time_becomes_utc_instant() {
    assert_eq!(property_instant(&zoned("DTSTART", "20240105T190000", "/Europe/Berlin")), Some(FRIDAY_UTC));
    assert_eq!(property_instant(&zoned("DTSTART", "20240105T180000", "/UTC")), Some(FRIDAY_UTC));
    assert_eq!(property_instant(&zoned("DTSTART", "20240105T190000", "/Nowhere/Land")), None);
    assert_eq!(property_instant(&zoned("DTSTART", "2024-01-05", "/Europe/Berlin")), None);
    assert_eq!(property_instant(&prop("DTSTART", "20240105T190000")), None);
}

#[test]
fn first_property_of_a_name_wins() {
    let props = vec![prop("X", "1"), prop("UID", "a"), prop("UID", "b")];
    assert_eq!(find_property(&props, "UID"), Some(1));
    assert_eq!(find_property(&props, "SUMMARY"), None);
}

#[test]
fn entry_becomes_source_event() {
    let e = TwitchEvent::from_properties(&entry()).unwrap();
    assert_eq!(e.uid, "a1");
    assert_eq!(e.start_at, FRIDAY_UTC);
    assert_eq!(e.end_at, FRIDAY_UTC + 2 * 3600);
    assert_eq!(e.name, "Dev Stream");
    assert_eq!(e.description, None);
    assert_eq!(e.categories, Some("Software".to_string()));
    assert_eq!(e.repeat_rule, Some(RepeatRule::Weekly(4)));
}

#[test]
fn entry_errors_name_the_first_problem() {
    let without = |name: &str| -> Vec<FeedProperty> { entry().into_iter().filter(|p| p.name != name).collect() };
    assert_eq!(TwitchEvent::from_properties(&without("UID")).err(), Some(FeedError::MissingUid));
    assert_eq!(TwitchEvent::from_properties(&without("DTSTART")).err(), Some(FeedError::MissingStart));
    assert_eq!(TwitchEvent::from_properties(&without("DTEND")).err(), Some(FeedError::MissingEnd));
    assert_eq!(TwitchEvent::from_properties(&without("SUMMARY")).err(), Some(FeedError::MissingSummary));
    let mut bad_time = entry();
    bad_time[2] = zoned("DTEND", "soon", "/Europe/Berlin");
    assert_eq!(TwitchEvent::from_properties(&bad_time).err(), Some(FeedError::BadTime));
    let mut bad_rule = entry();
    bad_rule[5] = prop("RRULE", "FREQ=WEEKLY;BYDAY=XX");
    assert_eq!(TwitchEvent::from_properties(&bad_rule).err(), Some(FeedError::BadRule));
}

const CALENDAR: &str = "BEGIN:VCALENDAR\r\nVERSION:2.0\r\nBEGIN:VEVENT\r\nUID:a1\r\nDTSTART;TZID=/Europe/Berlin:20240105T190000\r\nDTEND;TZID=/Europe/Berlin:20240105T210000\r\nSUMMARY:Dev Stream\r\nCATEGORIES:Software\r\nRRULE:FREQ=WEEKLY;BYDAY=FR\r\nEND:VEVENT\r\nBEGIN:VEVENT\r\nUID:b2\r\nDTSTART;TZID=/Europe/Berlin:20240105T190000\r\nDTEND;TZID=/Europe/Berlin:20240105T210000\r\nSUMMARY:One-off\r\nEND:VEVENT\r\nEND:VCALENDAR\r\n";

#[test]
fn schedule_keeps_upcoming_and_repeating_events() {
    let later = read_schedule(CALENDAR, FRIDAY_UTC + 86400).unwrap();
    assert_eq!(later.len(), 1);
    assert_eq!(later[0].uid, "a1");
    assert_eq!(later[0].repeat_rule, Some(RepeatRule::Weekly(4)));
    let earlier = read_schedule(CALENDAR, FRIDAY_UTC - 86400).unwrap();
    assert_eq!(earlier.len(), 2);
    assert_eq!(earlier[1].uid, "b2");
    assert_eq!(earlier[1].start_at, FRIDAY_UTC);
}

#[test]
fn schedule_errors() {
    assert_eq!(read_schedule("BEGIN:", 0).err(), Some(ScheduleError::Unreadable));
    let no_uid = CALENDAR.replace("UID:b2\r\n", "");
    assert_eq!(read_schedule(&no_uid, 0).err(), Some(ScheduleError::Entry(FeedError::MissingUid)));
}

#[test]
fn entries_filter_past_one_offs_and_stop_at_first_error() {
    let one_off: Vec<FeedProperty> = entry().into_iter().filter(|p| p.name != "RRULE").collect();
    let entries = vec![entry(), one_off.clone()];
    let later = schedule_from_entries(&entries, FRIDAY_UTC + 86400).unwrap();
    assert_eq!(later.len(), 1);
    assert_eq!(later[0].repeat_rule, Some(RepeatRule::Weekly(4)));
    let earlier = schedule_from_entries(&entries, FRIDAY_UTC - 86400).unwrap();
    assert_eq!(earlier.len(), 2);
    assert_eq!(earlier[1].repeat_rule, None);
    let no_summary: Vec<FeedProperty> = one_off.into_iter().filter(|p| p.name != "SUMMARY").collect();
    let broken = vec![entry(), no_summary, vec![]];
    assert_eq!(schedule_from_entries(&broken, 0).err(), Some(FeedError::MissingSummary));
    assert_eq!(schedule_from_entries(&vec![], 0).unwrap().len(), 0);
}

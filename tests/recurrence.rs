use event_mirror::events::RepeatRule;
use event_mirror::feed::parse_repeat_rule;
use event_mirror::config::{parse_decimal, Config, ConfigError};
use event_mirror::instant::{time_of_day_secs, weekday};
use event_mirror::recurrence::{is_repeated, InvalidRuleError, RecurrenceRule};

const HOUR: i64 = 3600;
const DAY: i64 = 86400;
// Friday 2030-01-04 18:00 UTC.
const FRIDAY: i64 = 1893780000;
// Monday 2030-01-07 10:00 UTC.
const MONDAY: i64 = 1894010400;
// Friday 2030-01-11 18:00 UTC.
const NEXT_FRIDAY: i64 = 1894384800;

fn weekly(start: i64, days: Option<Vec<u8>>) -> RecurrenceRule {
    RecurrenceRule { start, by_weekday: days, interval: Some(1), frequency: Some(2) }
}

#[test]
fn epoch_was_a_thursday() {
    assert_eq!(weekday(0), 3);
    assert_eq!(weekday(-1), 2);
    assert_eq!(time_of_day_secs(-1), DAY - 1);
    assert_eq!(weekday(FRIDAY), 4);
    assert_eq!(time_of_day_secs(FRIDAY), 18 * HOUR);
}

#[test]
fn next_date_takes_anchor_time_on_listed_day() {
    let rule = weekly(FRIDAY, Some(vec![4]));
    assert_eq!(rule.next_date(MONDAY, MONDAY - DAY), Ok(NEXT_FRIDAY));
    assert_eq!(rule.next_date(MONDAY - DAY, MONDAY), Ok(NEXT_FRIDAY));
}

#[test]
fn next_date_is_strictly_later() {
    let rule = weekly(FRIDAY, Some(vec![4]));
    assert_eq!(rule.next_date(FRIDAY, FRIDAY - DAY), Ok(NEXT_FRIDAY));
    let any_day = weekly(FRIDAY, Some(vec![0, 1, 2, 3, 4, 5, 6]));
    assert_eq!(any_day.next_date(FRIDAY, 0), Ok(FRIDAY + DAY));
    assert_eq!(any_day.next_date(FRIDAY + HOUR, 0), Ok(FRIDAY + DAY));
    assert_eq!(any_day.next_date(FRIDAY - HOUR, 0), Ok(FRIDAY));
}

#[test]
fn next_date_rejects_rule_without_weekday() {
    assert_eq!(weekly(FRIDAY, Some(vec![])).next_date(MONDAY, MONDAY), Err(InvalidRuleError));
    assert_eq!(weekly(FRIDAY, None).next_date(MONDAY, MONDAY), Err(InvalidRuleError));
    assert_eq!(weekly(FRIDAY, Some(vec![7, 9])).next_date(MONDAY, MONDAY), Err(InvalidRuleError));
}

#[test]
fn repetition_needs_same_time_and_listed_day() {
    let rule = weekly(FRIDAY, Some(vec![4]));
    assert!(is_repeated(FRIDAY, NEXT_FRIDAY, &rule));
    assert!(!is_repeated(FRIDAY, NEXT_FRIDAY + HOUR, &rule));
    assert!(!is_repeated(FRIDAY, FRIDAY + DAY, &rule));
    assert!(!is_repeated(FRIDAY, NEXT_FRIDAY, &weekly(FRIDAY, None)));
}

#[test]
fn config_reads_decimal_settings() {
    let c = Config::load("123", "987654321012", "SECRET-REDACTED", "340282366920938463463374607431768211455").unwrap();
    assert_eq!(c.broadcast_id, 123);
    assert_eq!(c.guild_id, 987654321012);
    assert_eq!(c.bot_token, "SECRET-REDACTED");
    assert_eq!(c.bot_id, u128::MAX);
}

#[test]
fn config_names_the_bad_setting() {
    assert_eq!(Config::load("4294967296", "1", "t", "1").err(), Some(ConfigError::BroadcastId));
    assert_eq!(Config::load("1", "", "t", "1").err(), Some(ConfigError::GuildId));
    assert_eq!(Config::load("1", "2", "t", "12a").err(), Some(ConfigError::BotId));
}

#[test]
fn decimal_bounds() {
    assert_eq!(parse_decimal("4294967295", u32::MAX as u128), Some(4294967295));
    assert_eq!(parse_decimal("4294967296", u32::MAX as u128), None);
    assert_eq!(parse_decimal("007", 10), Some(7));
    assert_eq!(parse_decimal("-1", 10), None);
    assert_eq!(parse_decimal("+12", 100), Some(12));
    assert_eq!(parse_decimal("+", 100), None);
    assert_eq!(parse_decimal("++1", 100), None);
}

#[test]
fn weekly_rule_gives_its_day() {
    assert_eq!(parse_repeat_rule("FREQ=WEEKLY;BYDAY=FR"), Ok(Some(RepeatRule::Weekly(4))));
    assert_eq!(parse_repeat_rule("FREQ=WEEKLY;BYDAY=MO;INTERVAL=1"), Ok(Some(RepeatRule::Weekly(0))));
    assert_eq!(parse_repeat_rule("FREQ=WEEKLY;BYDAY=SU"), Ok(Some(RepeatRule::Weekly(6))));
}

#[test]
fn other_rules_give_none_or_fail() {
    assert_eq!(parse_repeat_rule("FREQ=DAILY;COUNT=3"), Ok(None));
    assert_eq!(parse_repeat_rule(""), Ok(None));
    assert_eq!(parse_repeat_rule("FREQ=WEEKLY"), Err(InvalidRuleError));
    assert_eq!(parse_repeat_rule("FREQ=WEEKLY;BYDAY"), Err(InvalidRuleError));
    assert_eq!(parse_repeat_rule("FREQ=WEEKLY;BYDAY=XX"), Err(InvalidRuleError));
    assert_eq!(parse_repeat_rule("FREQ=WEEKLY;BYDAY=FRI"), Err(InvalidRuleError));
}

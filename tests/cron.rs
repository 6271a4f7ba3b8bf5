use std::str::FromStr;

use windmill_core::cron_time::{next_fire, upcoming_after, validate_cron};
use windmill_core::error::Error;
use windmill_core::schedule::{get_owner_from_path, preview_schedule, schedule_to_user, PreviewPayload};

// 2022-01-01T12:00:00Z
const NOON: i64 = 1_641_038_400;

#[test]
fn next_fire_basic() {
    assert_eq!(next_fire("0 */5 * * * *", 0, NOON + 2), Ok(NOON + 300));
    // exactly on an occurrence: the one-second guard skips past it
    assert_eq!(next_fire("0 */5 * * * *", 0, NOON - 1), Ok(NOON + 300));
    assert_eq!(next_fire("0 */5 * * * *", 0, NOON - 2), Ok(NOON));
}

#[test]
fn next_fire_with_offset() {
    // 09:00 on the wall clock of a zone 60 minutes west of UTC is 10:00 UTC
    assert_eq!(next_fire("0 0 9 * * *", 60, NOON - 3 * 3600), Ok(NOON - 2 * 3600));
    // 09:00 on the wall clock of a zone 60 minutes east of UTC is 08:00 UTC; next day
    assert_eq!(next_fire("0 0 9 * * *", -60, NOON), Ok(NOON + 20 * 3600));
}

#[test]
fn next_fire_errors() {
    assert!(matches!(next_fire("not a cron", 0, NOON), Err(Error::BadRequest(_))));
    assert!(matches!(next_fire("0 0 0 30 2 *", 0, NOON), Err(Error::BadRequest(_))));
    assert!(matches!(next_fire("0 */5 * * * *", 0, -10), Err(Error::Internal(_))));
}

#[test]
fn validate_cron_cases() {
    assert_eq!(validate_cron("0 */5 * * * *"), Ok(()));
    assert!(matches!(validate_cron("61 * * * * *"), Err(Error::BadRequest(_))));
}

#[test]
fn preview_ten_occurrences() {
    let p = PreviewPayload { schedule: "0 */5 * * * *".to_string(), offset: None };
    let v = preview_schedule(&p, NOON + 2).unwrap();
    let expected: Vec<i64> = (1..=10).map(|k| NOON + 300 * k).collect();
    assert_eq!(v, expected);
}

#[test]
fn preview_with_offset_and_errors() {
    let p = PreviewPayload { schedule: "0 0 9 * * *".to_string(), offset: Some(60) };
    let v = preview_schedule(&p, NOON).unwrap();
    assert_eq!(v.len(), 10);
    assert_eq!(v[0], NOON + 22 * 3600);
    assert_eq!(v[9], NOON + 22 * 3600 + 9 * 86400);
    let bad = PreviewPayload { schedule: "x".to_string(), offset: None };
    assert!(matches!(preview_schedule(&bad, NOON), Err(Error::BadRequest(_))));
}

#[test]
fn upcoming_stops_when_schedule_ends() {
    // 2100 is the last year the cron engine searches
    let v = upcoming_after("0 0 0 1 1 * 2099-2100", 0, NOON, 10).unwrap();
    assert_eq!(v, vec![4_070_908_800, 4_102_444_800]);
}

#[test]
fn schedule_user_names() {
    assert_eq!(schedule_to_user("u/bob/daily"), "schedule-u-bob-daily");
    assert_eq!(schedule_to_user(""), "schedule-");
    assert_eq!(schedule_to_user("plain"), "schedule-plain");
}

#[test]
fn cron_format_round_trip() {
    for expr in ["0 */5 * * * *", "0 0 9 * * Mon-Fri", "@daily", "0 0 0 1 1 * 2099-2100"] {
        let parsed = cron::Schedule::from_str(expr).unwrap();
        let again = cron::Schedule::from_str(&parsed.to_string()).unwrap();
        for t in [NOON, NOON + 12_345, NOON + 86_400 * 40] {
            assert_eq!(next_fire(expr, 0, t), next_fire(&again.to_string(), 0, t));
        }
    }
}

#[test]
fn owner_of_paths() {
    assert_eq!(get_owner_from_path("u/alice/jobs/nightly"), "u/alice");
    assert_eq!(get_owner_from_path("g/ops"), "g/ops");
    assert_eq!(get_owner_from_path("plain"), "plain");
    assert_eq!(get_owner_from_path(""), "");
}

use camellia_nexus_desktop::update_schedule::ScheduleBook;

const SECOND: u64 = 1_000;
const START: u64 = 1_000_000;

fn policy(id: &str, interval_seconds: u64, last_completed: Option<u64>) -> (String, u64, Option<u64>) {
    (id.to_owned(), interval_seconds * SECOND, last_completed)
}

#[test]
fn schedule_starts_after_the_interval_and_resets_when_changed() {
    let mut schedule = ScheduleBook::new();
    assert!(schedule.due(vec![policy("alpha", 60, None)], START).is_empty());
    assert_eq!(schedule.due(vec![policy("alpha", 60, None)], START + 60 * SECOND), vec!["alpha"]);
    assert!(schedule.due(vec![policy("alpha", 120, None)], START + 61 * SECOND).is_empty());
    assert!(schedule.due(Vec::new(), START + 500 * SECOND).is_empty());
    assert_eq!(schedule.len(), 0);
}

#[test]
fn completed_manual_update_resets_the_automatic_deadline() {
    let completed = START + 50 * SECOND;
    let mut schedule = ScheduleBook::new();
    schedule.due(vec![policy("alpha", 60, None)], START);
    assert!(schedule.due(vec![policy("alpha", 60, Some(completed))], START + 60 * SECOND).is_empty());
    assert_eq!(
        schedule.due(vec![policy("alpha", 60, Some(completed))], completed + 60 * SECOND),
        vec!["alpha"]
    );
}

#[test]
fn failure_uses_the_shorter_retry_window() {
    let mut schedule = ScheduleBook::new();
    schedule.due(vec![policy("alpha", 3600, None)], START);
    schedule.retry_soon("alpha", START + 10 * SECOND);
    assert_eq!(schedule.due(vec![policy("alpha", 3600, None)], START + 310 * SECOND), vec!["alpha"]);
}

#[test]
fn programs_are_scheduled_independently_and_dropped_without_a_policy() {
    let mut schedule = ScheduleBook::new();
    schedule.due(vec![policy("alpha", 10, None), policy("beta", 20, None)], START);
    assert_eq!(schedule.len(), 2);
    assert_eq!(
        schedule.due(vec![policy("alpha", 10, None), policy("beta", 20, None)], START + 20 * SECOND),
        vec!["alpha", "beta"]
    );
    assert_eq!(schedule.due(vec![policy("beta", 20, None)], START + 40 * SECOND), vec!["beta"]);
    assert_eq!(schedule.len(), 1);
    schedule.retry_soon("missing", START);
    assert_eq!(schedule.len(), 1);
}

#[test]
fn a_short_interval_is_kept_after_a_failure() {
    let mut schedule = ScheduleBook::new();
    schedule.due(vec![policy("alpha", 60, None)], START);
    schedule.retry_soon("alpha", START + 10 * SECOND);
    assert!(schedule.due(vec![policy("alpha", 60, None)], START + 69 * SECOND).is_empty());
    assert_eq!(schedule.due(vec![policy("alpha", 60, None)], START + 70 * SECOND), vec!["alpha"]);
}

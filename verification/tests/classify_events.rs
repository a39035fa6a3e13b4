use notor::classify::{arrange, classify, select, Bucket, Clock};
use notor::event::Event;

const MINUTE: i64 = 60;
const NOW: i64 = 1_710_084_600; // 2024-03-10 15:30:00 UTC
const TOMORROW_START: i64 = 1_710_115_200; // 2024-03-11 00:00:00 UTC
const TOMORROW_END: i64 = 1_710_201_540; // 2024-03-11 23:59:00 UTC

fn event(id: &str, start: i64, end: i64) -> Event {
    Event {
        id: id.to_string(),
        summary: format!("summary of {}", id),
        start: Some(start),
        end: Some(end),
        creator: Some("a@x.com".to_string()),
        attendees: vec![],
    }
}

fn clock() -> Clock {
    Clock::new(NOW, TOMORROW_START, TOMORROW_END).unwrap()
}

fn ids(events: &[Event]) -> Vec<String> {
    events.iter().map(|e| e.id.clone()).collect()
}

#[test]
fn clock_needs_its_instants_in_order() {
    assert!(Clock::new(10, 20, 30).is_some());
    assert!(Clock::new(10, 20, 20).is_some());
    assert!(Clock::new(20, 20, 30).is_none());
    assert!(Clock::new(10, 30, 20).is_none());
    let c = Clock::new(10, 20, 30).unwrap();
    assert_eq!((c.now(), c.tomorrow_start(), c.tomorrow_end()), (10, 20, 30));
}

#[test]
fn running_event_lands_only_in_now() {
    let groups = classify(&vec![event("run", NOW - MINUTE, NOW + MINUTE)], &clock());
    assert_eq!(ids(&groups.now), vec!["run"]);
    assert!(groups.upcoming.is_empty());
    assert!(groups.tomorrow.is_empty());
}

#[test]
fn event_later_today_lands_only_in_upcoming() {
    let groups = classify(&vec![event("soon", NOW + 30 * MINUTE, NOW + 60 * MINUTE)], &clock());
    assert!(groups.now.is_empty());
    assert_eq!(ids(&groups.upcoming), vec!["soon"]);
    assert!(groups.tomorrow.is_empty());
}

#[test]
fn event_after_midnight_lands_only_in_tomorrow() {
    let start = TOMORROW_START + MINUTE;
    let groups = classify(&vec![event("next", start, start + 30 * MINUTE)], &clock());
    assert!(groups.now.is_empty());
    assert!(groups.upcoming.is_empty());
    assert_eq!(ids(&groups.tomorrow), vec!["next"]);
}

#[test]
fn event_two_days_out_lands_nowhere() {
    let start = NOW + 2 * 24 * 60 * MINUTE;
    let groups = classify(&vec![event("far", start, start + MINUTE)], &clock());
    assert!(groups.now.is_empty() && groups.upcoming.is_empty() && groups.tomorrow.is_empty());
}

#[test]
fn past_event_lands_nowhere() {
    let groups = classify(&vec![event("gone", NOW - 60 * MINUTE, NOW - 30 * MINUTE)], &clock());
    assert!(groups.now.is_empty() && groups.upcoming.is_empty() && groups.tomorrow.is_empty());
}

#[test]
fn bucket_bounds_are_as_stated() {
    let c = clock();
    // start == now is running; end == now is over
    assert!(event("a", NOW, NOW + 1).falls_in(&c, Bucket::Now));
    assert!(!event("a", NOW, NOW + 1).falls_in(&c, Bucket::Upcoming));
    assert!(!event("b", NOW - 10, NOW).falls_in(&c, Bucket::Now));
    // start == tomorrow's start belongs to tomorrow, not to upcoming
    assert!(event("c", TOMORROW_START, TOMORROW_START + 1).falls_in(&c, Bucket::Tomorrow));
    assert!(!event("c", TOMORROW_START, TOMORROW_START + 1).falls_in(&c, Bucket::Upcoming));
    assert!(event("d", TOMORROW_START - 1, TOMORROW_START).falls_in(&c, Bucket::Upcoming));
    // start == tomorrow's end belongs nowhere
    assert!(!event("e", TOMORROW_END, TOMORROW_END + 1).falls_in(&c, Bucket::Tomorrow));
    assert!(event("f", TOMORROW_END - 1, TOMORROW_END + 1).falls_in(&c, Bucket::Tomorrow));
}

#[test]
fn unresolved_event_lands_nowhere() {
    let mut no_end = event("x", NOW - MINUTE, NOW + MINUTE);
    no_end.end = None;
    let mut no_start = event("y", NOW + MINUTE, NOW + 2 * MINUTE);
    no_start.start = None;
    let groups = classify(&vec![no_end, no_start], &clock());
    assert!(groups.now.is_empty() && groups.upcoming.is_empty() && groups.tomorrow.is_empty());
}

#[test]
fn now_is_sorted_by_end() {
    let a = event("A", NOW - MINUTE, NOW + 10 * MINUTE);
    let b = event("B", NOW - 2 * MINUTE, NOW + 5 * MINUTE);
    let groups = classify(&vec![a, b], &clock());
    assert_eq!(ids(&groups.now), vec!["B", "A"]);
}

#[test]
fn upcoming_and_tomorrow_are_sorted_by_start() {
    let events = vec![
        event("u3", NOW + 30 * MINUTE, NOW + 31 * MINUTE),
        event("t2", TOMORROW_START + 120 * MINUTE, TOMORROW_START + 121 * MINUTE),
        event("u1", NOW + 10 * MINUTE, NOW + 90 * MINUTE),
        event("t1", TOMORROW_START, TOMORROW_START + MINUTE),
        event("u2", NOW + 20 * MINUTE, NOW + 21 * MINUTE),
    ];
    let groups = classify(&events, &clock());
    assert_eq!(ids(&groups.upcoming), vec!["u1", "u2", "u3"]);
    assert_eq!(ids(&groups.tomorrow), vec!["t1", "t2"]);
    assert!(groups.now.is_empty());
}

#[test]
fn equal_keys_keep_their_order() {
    let events = vec![
        event("first", NOW + 10 * MINUTE, NOW + 20 * MINUTE),
        event("early", NOW + 5 * MINUTE, NOW + 20 * MINUTE),
        event("second", NOW + 10 * MINUTE, NOW + 30 * MINUTE),
    ];
    let sorted = arrange(&events, Bucket::Upcoming);
    assert_eq!(ids(&sorted), vec!["early", "first", "second"]);
}

#[test]
fn select_keeps_the_order_of_the_poll() {
    let events = vec![
        event("late", NOW + 30 * MINUTE, NOW + 40 * MINUTE),
        event("running", NOW - MINUTE, NOW + MINUTE),
        event("early", NOW + 10 * MINUTE, NOW + 20 * MINUTE),
    ];
    assert_eq!(ids(&select(&events, &clock(), Bucket::Upcoming)), vec!["late", "early"]);
    assert_eq!(ids(&select(&events, &clock(), Bucket::Now)), vec!["running"]);
}

#[test]
fn empty_poll_gives_empty_groups() {
    let groups = classify(&vec![], &clock());
    assert!(groups.now.is_empty() && groups.upcoming.is_empty() && groups.tomorrow.is_empty());
}

#[test]
fn an_event_is_in_at_most_one_group() {
    let c = clock();
    for start in [NOW - MINUTE, NOW, NOW + 1, TOMORROW_START - 1, TOMORROW_START, TOMORROW_END] {
        let e = event("e", start, start + 2 * MINUTE);
        let hits = [Bucket::Now, Bucket::Upcoming, Bucket::Tomorrow]
            .iter()
            .filter(|b| e.falls_in(&c, **b))
            .count();
        assert!(hits <= 1, "start {} is in {} groups", start, hits);
    }
}

#[test]
fn sort_key_is_end_for_now_and_start_otherwise() {
    let e = event("e", 100, 200);
    assert_eq!(e.sort_key(Bucket::Now), 200);
    assert_eq!(e.sort_key(Bucket::Upcoming), 100);
    assert_eq!(e.sort_key(Bucket::Tomorrow), 100);
}

use notor::classify::{classify, Clock};
use notor::event::Event;
use notor::scheduler::{alert_for, PendingEvents, TICK_SECONDS};

fn event(id: &str, start: Option<i64>) -> Event {
    Event {
        id: id.to_string(),
        summary: format!("Meeting {}", id),
        start,
        end: start.map(|s| s + 600),
        creator: None,
        attendees: vec![],
    }
}

#[test]
fn nothing_pending_nothing_due() {
    let mut pending = PendingEvents::new();
    assert_eq!(pending.len(), 0);
    assert!(pending.next_due(1_000).is_none());
    assert!(pending.tick(&vec![], 1_000).is_none());
    assert_eq!(pending.len(), 0);
}

#[test]
fn insert_overwrites_by_id() {
    let mut pending = PendingEvents::new();
    pending.insert(event("a", Some(100)));
    pending.insert(event("b", Some(200)));
    pending.insert(event("a", Some(300)));
    assert_eq!(pending.len(), 2);
    assert_eq!(pending.get("a").unwrap().start, Some(300));
    assert_eq!(pending.get("b").unwrap().start, Some(200));
    assert!(pending.get("c").is_none());
}

#[test]
fn remove_takes_out_only_the_named_event() {
    let mut pending = PendingEvents::new();
    pending.insert(event("a", Some(100)));
    pending.insert(event("b", Some(200)));
    pending.remove("a");
    assert_eq!(pending.len(), 1);
    assert!(pending.get("a").is_none());
    assert!(pending.get("b").is_some());
    pending.remove("zzz");
    assert_eq!(pending.len(), 1);
}

#[test]
fn event_is_due_when_start_is_not_later_than_now() {
    let mut pending = PendingEvents::new();
    pending.insert(event("a", Some(100)));
    assert!(pending.next_due(99).is_none());
    assert_eq!(pending.next_due(100).unwrap().id, "a");
    assert_eq!(pending.next_due(101).unwrap().id, "a");
}

#[test]
fn event_without_start_is_never_due() {
    let mut pending = PendingEvents::new();
    pending.insert(event("a", None));
    assert!(pending.next_due(i64::MAX).is_none());
    assert!(pending.tick(&vec![], i64::MAX).is_none());
    assert_eq!(pending.len(), 1);
}

#[test]
fn dispatch_removes_the_event_and_does_not_repeat() {
    let mut pending = PendingEvents::new();
    pending.insert(event("a", Some(100)));
    let first = pending.tick(&vec![], 150);
    assert_eq!(first.unwrap().id, "a");
    assert!(pending.get("a").is_none());
    assert!(pending.next_due(150).is_none());
    assert!(pending.tick(&vec![], 150).is_none());
}

#[test]
fn several_due_events_leave_one_per_tick() {
    let mut pending = PendingEvents::new();
    pending.insert(event("a", Some(100)));
    pending.insert(event("b", Some(110)));
    pending.insert(event("c", Some(900)));
    let mut seen = vec![];
    for _ in 0..5 {
        if let Some(e) = pending.tick(&vec![], 200) {
            seen.push(e.id);
        }
    }
    seen.sort();
    assert_eq!(seen, vec!["a", "b"]);
    assert_eq!(pending.len(), 1);
    assert!(pending.get("c").is_some());
}

#[test]
fn tick_takes_in_the_upcoming_events() {
    let mut pending = PendingEvents::new();
    pending.insert(event("a", Some(500)));
    let upcoming = vec![event("a", Some(700)), event("b", Some(800))];
    assert!(pending.tick(&upcoming, 100).is_none());
    assert_eq!(pending.len(), 2);
    assert_eq!(pending.get("a").unwrap().start, Some(700));
    assert_eq!(pending.get("b").unwrap().start, Some(800));
}

#[test]
fn due_event_is_gone_even_if_the_poll_lists_it_again() {
    let mut pending = PendingEvents::new();
    pending.insert(event("a", Some(100)));
    let upcoming = vec![event("a", Some(100)), event("b", Some(800))];
    let dispatched = pending.tick(&upcoming, 150);
    assert_eq!(dispatched.unwrap().id, "a");
    assert!(pending.get("a").is_none());
    assert_eq!(pending.len(), 1);
}

#[test]
fn scan_sees_only_what_was_pending_before_the_tick() {
    let mut pending = PendingEvents::new();
    let upcoming = vec![event("a", Some(100))];
    assert!(pending.tick(&upcoming, 150).is_none());
    assert_eq!(pending.tick(&vec![], 150).unwrap().id, "a");
}

#[test]
fn schedule_takes_in_each_event() {
    let mut pending = PendingEvents::new();
    pending.schedule(&vec![event("a", Some(1)), event("b", Some(2)), event("a", Some(3))]);
    assert_eq!(pending.len(), 2);
    assert_eq!(pending.get("a").unwrap().start, Some(3));
}

#[test]
fn alert_names_the_event() {
    let alert = alert_for(&event("a", Some(1)));
    assert_eq!(alert.title, "Meeting a");
    assert_eq!(alert.body, "Meeting a starts now!");
}

#[test]
fn timer_sleeps_five_seconds() {
    assert_eq!(TICK_SECONDS, 5);
}

#[test]
fn poll_then_two_ticks_dispatch_once() {
    let now = 1_710_084_600;
    let clock = Clock::new(now, 1_710_115_200, 1_710_201_540).unwrap();
    let polled = vec![event("standup", Some(now + 120))];
    let groups = classify(&polled, &clock);
    assert_eq!(groups.upcoming.len(), 1);

    let mut pending = PendingEvents::new();
    assert!(pending.tick(&groups.upcoming, now).is_none());
    assert_eq!(pending.len(), 1);

    // time advances past the start; the next poll no longer finds it upcoming
    let later = now + 125;
    let clock = Clock::new(later, 1_710_115_200, 1_710_201_540).unwrap();
    let groups = classify(&polled, &clock);
    assert!(groups.upcoming.is_empty());
    assert_eq!(groups.now.len(), 1);
    let dispatched = pending.tick(&groups.upcoming, later);
    assert_eq!(dispatched.unwrap().id, "standup");
    assert_eq!(pending.len(), 0);
    assert!(pending.tick(&groups.upcoming, later + 5).is_none());
}

#[test]
fn a_dispatched_event_stays_out_over_later_polls() {
    let start = 1_710_084_720;
    let polled = vec![event("standup", Some(start)), event("later", Some(start + 3_600))];
    let mut pending = PendingEvents::new();
    let clock = Clock::new(start - 120, 1_710_115_200, 1_710_201_540).unwrap();
    assert!(pending.tick(&classify(&polled, &clock).upcoming, start - 120).is_none());
    assert_eq!(pending.len(), 2);

    let mut alerts = vec![];
    for step in 0..20 {
        let now = start + 5 * step;
        let clock = Clock::new(now, 1_710_115_200, 1_710_201_540).unwrap();
        let upcoming = classify(&polled, &clock).upcoming;
        assert!(upcoming.iter().all(|e| e.id != "standup"));
        if let Some(e) = pending.tick(&upcoming, now) {
            alerts.push(e.id);
        }
        assert!(pending.get("standup").is_none());
    }
    assert_eq!(alerts, vec!["standup"]);
    assert_eq!(pending.len(), 1);
}

#[test]
fn each_of_several_due_events_is_alerted_exactly_once() {
    let mut pending = PendingEvents::new();
    pending.schedule(&vec![
        event("a", Some(100)),
        event("b", Some(100)),
        event("c", Some(90)),
        event("d", Some(5_000)),
    ]);
    let mut alerts = vec![];
    // as many ticks as events are owed suffice; further ticks raise nothing
    for step in 0..6 {
        if let Some(e) = pending.tick(&vec![event("d", Some(5_000))], 200 + step) {
            alerts.push(e.id);
        }
        if step == 2 {
            assert_eq!(alerts.len(), 3);
        }
    }
    alerts.sort();
    assert_eq!(alerts, vec!["a", "b", "c"]);
    assert_eq!(pending.len(), 1);
}

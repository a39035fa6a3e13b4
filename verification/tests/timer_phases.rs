use notor::event::Event;
use notor::scheduler::{Action, Phase, Scheduler, TICK_SECONDS};

fn event(id: &str, start: i64) -> Event {
    Event {
        id: id.to_string(),
        summary: id.to_string(),
        start: Some(start),
        end: Some(start + 60),
        creator: None,
        attendees: vec![],
    }
}

#[test]
fn timer_starts_polling_with_nothing_pending() {
    let timer = Scheduler::new();
    assert_eq!(timer.phase(), Phase::Polling);
    assert_eq!(timer.pending_count(), 0);
    assert!(timer.pending("a").is_none());
}

#[test]
fn quiet_cycle_is_poll_sleep_poll() {
    let mut timer = Scheduler::new();
    let action = timer.advance(&vec![event("a", 500)], 100);
    assert!(matches!(action, Action::Sleep(TICK_SECONDS)));
    assert_eq!(timer.phase(), Phase::Sleeping);
    assert_eq!(timer.pending_count(), 1);
    let action = timer.advance(&vec![], 105);
    assert!(matches!(action, Action::Poll));
    assert_eq!(timer.phase(), Phase::Polling);
    assert_eq!(timer.pending_count(), 1);
}

#[test]
fn cycle_with_a_due_event_passes_through_dispatching() {
    let mut timer = Scheduler::new();
    timer.schedule(&vec![event("a", 100)]);
    let action = timer.advance(&vec![], 100);
    match action {
        Action::Alert(e) => assert_eq!(e.id, "a"),
        _ => panic!("no alert for a due event"),
    }
    assert_eq!(timer.phase(), Phase::Dispatching);
    assert!(timer.pending("a").is_none());
    assert!(matches!(timer.advance(&vec![], 100), Action::Sleep(5)));
    assert_eq!(timer.phase(), Phase::Sleeping);
    assert!(matches!(timer.advance(&vec![], 105), Action::Poll));
    assert_eq!(timer.phase(), Phase::Polling);
    // the event is not raised again
    assert!(matches!(timer.advance(&vec![], 105), Action::Sleep(5)));
}

#[test]
fn events_are_scanned_only_after_a_poll() {
    let mut timer = Scheduler::new();
    assert!(matches!(timer.advance(&vec![], 0), Action::Sleep(5)));
    timer.schedule(&vec![event("a", 10)]);
    // sleeping: the step only wakes the timer, upcoming events are not taken in
    assert!(matches!(timer.advance(&vec![event("b", 20)], 50), Action::Poll));
    assert_eq!(timer.pending_count(), 1);
    assert!(timer.pending("b").is_none());
    assert!(matches!(timer.advance(&vec![], 50), Action::Alert(_)));
}

use notor::classify::EventGroups;
use notor::event::Event;
use notor::tray::{base_menu, tray_menu, Mark, MenuEntry};

const NOW: i64 = 1_710_084_600; // 2024-03-10 15:30:00 UTC

fn event(id: &str, summary: &str, start: i64, end: i64) -> Event {
    Event {
        id: id.to_string(),
        summary: summary.to_string(),
        start: Some(start),
        end: Some(end),
        creator: None,
        attendees: vec![],
    }
}

fn lines(entries: &[MenuEntry]) -> Vec<String> {
    entries
        .iter()
        .map(|entry| match entry {
            MenuEntry::Heading { id, title, mark } => format!("# {} | {} | {:?}", id, title, mark),
            MenuEntry::Item { id, title } => format!("{} | {}", id, title),
            MenuEntry::Separator => "---".to_string(),
        })
        .collect()
}

#[test]
fn no_events_leave_the_menu_as_it_is() {
    assert!(tray_menu(&EventGroups::empty(), "UTC", NOW).is_none());
}

#[test]
fn menu_lists_each_group_under_its_heading() {
    let groups = EventGroups {
        now: vec![event("run", "Retro", NOW - 1_800, NOW + 1_800)],
        upcoming: vec![
            event("u1", "Standup", NOW + 120, NOW + 600),
            event("u2", "Lunch", NOW + 7_200, NOW + 9_000),
        ],
        tomorrow: vec![event("t1", "Planning", NOW + 20 * 3_600, NOW + 21 * 3_600)],
    };
    let menu = tray_menu(&groups, "UTC", NOW).unwrap();
    assert_eq!(
        lines(&menu),
        vec![
            "# ongoing | Ending in 30 minutes | Available",
            "run |     3:00 PM  Retro",
            "# upcoming | Upcoming in 2 minutes | PartiallyAvailable",
            "u1 |     3:32 PM  Standup",
            "u2 |     5:30 PM  Lunch",
            "# tomorrow | Tomorrow | Unavailable",
            "t1 |     11:30 AM  Planning",
            "---",
            "show_app | Notor App",
            "settings | Add new account",
            "---",
            "quit | Quit Notor app completely",
        ]
    );
}

#[test]
fn empty_groups_have_no_heading() {
    let groups = EventGroups {
        now: vec![],
        upcoming: vec![],
        tomorrow: vec![event("t1", "Planning", NOW + 20 * 3_600, NOW + 21 * 3_600)],
    };
    let menu = tray_menu(&groups, "Asia/Kolkata", NOW).unwrap();
    assert_eq!(
        lines(&menu),
        vec![
            "# tomorrow | Tomorrow | Unavailable",
            "t1 |     5:00 PM  Planning",
            "---",
            "show_app | Notor App",
            "settings | Add new account",
            "---",
            "quit | Quit Notor app completely",
        ]
    );
    assert!(matches!(menu[0], MenuEntry::Heading { mark: Mark::Unavailable, .. }));
}

#[test]
fn unreadable_times_are_left_blank() {
    let mut unresolved = event("u1", "Standup", NOW + 120, NOW + 600);
    unresolved.start = None;
    let groups = EventGroups { now: vec![], upcoming: vec![unresolved], tomorrow: vec![] };
    let menu = tray_menu(&groups, "Nowhere", NOW).unwrap();
    assert_eq!(lines(&menu)[0], "# upcoming | Upcoming  | PartiallyAvailable");
    assert_eq!(lines(&menu)[1], "u1 |       Standup");
}

#[test]
fn menu_before_the_first_poll_holds_the_commands() {
    assert_eq!(
        lines(&base_menu()),
        vec![
            "show_app | Notor App",
            "settings | Add new account",
            "---",
            "quit | Quit Notor app completely             \u{274c}",
        ]
    );
}

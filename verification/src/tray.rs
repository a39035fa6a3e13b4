//! What the tray menu lists: the groups of the last poll, each under a
//! heading, and the commands of the notifier below them.

use vstd::prelude::*;
use vstd::string::StringExecFns;
use crate::classify::{EventGroups, EventGroupsView};
use crate::event::{event_views, Event, EventView};
use crate::localtime::{hour_of, minute_of, EventDateTime, LocalDateTime};
use crate::utils::{clock_text, get_human_readable_time, menu_label, relative_text, time_to_relative_format};

verus! {

/// The sign beside a heading.
#[derive(Clone, Copy, Debug, PartialEq, Eq, Structural)]
pub enum Mark {
    Available,
    PartiallyAvailable,
    Unavailable,
}

/// One line of the tray menu.
pub enum MenuEntry {
    /// The heading of a group; it cannot be chosen.
    Heading { id: String, title: String, mark: Mark },
    /// A line that can be chosen.
    Item { id: String, title: String },
    Separator,
}

/// What a [`MenuEntry`] holds.
pub enum MenuEntryView {
    Heading { id: Seq<char>, title: Seq<char>, mark: Mark },
    Item { id: Seq<char>, title: Seq<char> },
    Separator,
}

impl View for MenuEntry {
    type V = MenuEntryView;

    open spec fn view(&self) -> MenuEntryView {
        match self {
            MenuEntry::Heading { id, title, mark } => MenuEntryView::Heading {
                id: id@,
                title: title@,
                mark: *mark,
            },
            MenuEntry::Item { id, title } => MenuEntryView::Item { id: id@, title: title@ },
            MenuEntry::Separator => MenuEntryView::Separator,
        }
    }
}

/// The views of a list of menu entries, in order.
pub open spec fn entry_views(entries: Seq<MenuEntry>) -> Seq<MenuEntryView> {
    entries.map_values(|e: MenuEntry| e@)
}

/// The time of day of the instant `at` in `zone` as the menu shows it;
/// empty where there is no instant or the clock cannot be read.
pub open spec fn time_text(at: Option<i64>, zone: Seq<char>) -> Seq<char> {
    match at {
        Some(at) => match (hour_of(zone, at), minute_of(zone, at)) {
            (Some(hour), Some(minute)) => clock_text(hour as nat, minute as nat),
            _ => Seq::empty(),
        },
        None => Seq::empty(),
    }
}

/// How far off the instant `at` is at `now`, in words; empty where that
/// cannot be said.
pub open spec fn distance_text(at: Option<i64>, now: i64) -> Seq<char> {
    match relative_text(at, now) {
        Some(text) => text,
        None => Seq::empty(),
    }
}

/// The line of an event: found by the event's identifier, it shows the time
/// of day of the start and the summary.
pub open spec fn item_of(event: EventView, zone: Seq<char>) -> MenuEntryView {
    MenuEntryView::Item {
        id: event.id,
        title: "    "@ + time_text(event.start, zone) + "  "@ + event.summary,
    }
}

/// The lines of a group: none for an empty group, else the heading and a
/// line for each event.
pub open spec fn section(heading: MenuEntryView, events: Seq<EventView>, zone: Seq<char>) -> Seq<
    MenuEntryView,
> {
    if events.len() == 0 {
        Seq::empty()
    } else {
        seq![heading] + events.map_values(|e: EventView| item_of(e, zone))
    }
}

/// The instant of the first event of a group that its heading speaks of.
pub open spec fn first_instant(events: Seq<EventView>, of_end: bool) -> Option<i64> {
    if events.len() == 0 {
        None
    } else if of_end {
        events[0].end
    } else {
        events[0].start
    }
}

/// The commands that close the menu.
pub open spec fn closing() -> Seq<MenuEntryView> {
    seq![
        MenuEntryView::Separator,
        MenuEntryView::Item { id: "show_app"@, title: "Notor App"@ },
        MenuEntryView::Item { id: "settings"@, title: "Add new account"@ },
        MenuEntryView::Separator,
        MenuEntryView::Item { id: "quit"@, title: "Quit Notor app completely"@ },
    ]
}

/// The menu for `groups` at `now`, times read in `zone`: the running events
/// under "Ending" and how far off the first end is, the upcoming ones under
/// "Upcoming" and how far off the first start is, those of tomorrow under
/// "Tomorrow", then the commands. There is none where every group is empty:
/// the menu then stays as it is.
pub open spec fn menu_of(groups: EventGroupsView, zone: Seq<char>, now: i64) -> Option<
    Seq<MenuEntryView>,
> {
    if groups.now.len() == 0 && groups.upcoming.len() == 0 && groups.tomorrow.len() == 0 {
        None
    } else {
        Some(
            section(
                MenuEntryView::Heading {
                    id: "ongoing"@,
                    title: "Ending "@ + distance_text(first_instant(groups.now, true), now),
                    mark: Mark::Available,
                },
                groups.now,
                zone,
            ) + section(
                MenuEntryView::Heading {
                    id: "upcoming"@,
                    title: "Upcoming "@ + distance_text(first_instant(groups.upcoming, false), now),
                    mark: Mark::PartiallyAvailable,
                },
                groups.upcoming,
                zone,
            ) + section(
                MenuEntryView::Heading {
                    id: "tomorrow"@,
                    title: "Tomorrow"@,
                    mark: Mark::Unavailable,
                },
                groups.tomorrow,
                zone,
            ) + closing(),
        )
    }
}

/// The time of day of `at` in `zone` as the menu shows it.
fn time_of_day(at: Option<i64>, zone: &str) -> (text: String)
    ensures
        text@ == time_text(at, zone@),
{
    match at {
        Some(at) => {
            let local = LocalDateTime { timestamp: at, zone: String::from_str(zone) };
            match get_human_readable_time(&local) {
                Some(text) => text,
                None => String::new(),
            }
        },
        None => String::new(),
    }
}

/// How far off `at` is at `now`, in words.
fn distance(at: Option<i64>, zone: &str, now: i64) -> (text: String)
    ensures
        text@ == distance_text(at, now),
{
    match time_to_relative_format(EventDateTime { date: None, date_time: at }, zone, now) {
        Some(text) => text,
        None => String::new(),
    }
}

/// Puts the lines of a group behind `menu`.
fn add_section(menu: &mut Vec<MenuEntry>, heading: MenuEntry, events: &Vec<Event>, zone: &str)
    ensures
        entry_views(final(menu)@) == entry_views(old(menu)@) + section(
            heading@,
            event_views(events@),
            zone@,
        ),
{
    if events.len() == 0 {
        assert(entry_views(menu@) + Seq::<MenuEntryView>::empty() =~= entry_views(menu@));
        return ;
    }
    let ghost before = entry_views(menu@);
    let ghost lines = event_views(events@).map_values(|e: EventView| item_of(e, zone@));
    menu.push(heading);
    let mut i: usize = 0;
    assert(entry_views(menu@) =~= before + seq![heading@] + lines.take(0));
    while i < events.len()
        invariant
            i <= events.len(),
            lines == event_views(events@).map_values(|e: EventView| item_of(e, zone@)),
            entry_views(menu@) == before + seq![heading@] + lines.take(i as int),
        decreases events.len() - i,
    {
        let ghost earlier = entry_views(menu@);
        let time = time_of_day(events[i].start, zone);
        menu.push(
            MenuEntry::Item {
                id: events[i].id.clone(),
                title: menu_label(time.as_str(), events[i].summary.as_str()),
            },
        );
        proof {
            assert(lines[i as int] == item_of(events[i as int]@, zone@));
            assert(entry_views(menu@) =~= earlier.push(lines[i as int]));
            assert(lines.take(i + 1) =~= lines.take(i as int).push(lines[i as int]));
            assert(entry_views(menu@) =~= before + seq![heading@] + lines.take(i + 1));
        }
        i += 1;
    }
    assert(lines.take(i as int) =~= lines);
    assert(before + seq![heading@] + lines =~= before + (seq![heading@] + lines));
}

fn item(id: &str, title: &str) -> (entry: MenuEntry)
    ensures
        entry@ == (MenuEntryView::Item { id: id@, title: title@ }),
{
    MenuEntry::Item { id: String::from_str(id), title: String::from_str(title) }
}

/// The first event's end or start, as the heading of its group speaks of it.
fn first_of(events: &Vec<Event>, of_end: bool) -> (at: Option<i64>)
    ensures
        at == first_instant(event_views(events@), of_end),
{
    if events.len() == 0 {
        None
    } else if of_end {
        events[0].end
    } else {
        events[0].start
    }
}

/// The tray menu for `groups` at `now`, times read in `zone`; `None` where
/// every group is empty and the menu stays as it is.
pub fn tray_menu(groups: &EventGroups, zone: &str, now: i64) -> (menu: Option<Vec<MenuEntry>>)
    ensures
        match menu {
            Some(entries) => menu_of(groups@, zone@, now) == Some(entry_views(entries@)),
            None => menu_of(groups@, zone@, now) is None,
        },
{
    if groups.now.len() == 0 && groups.upcoming.len() == 0 && groups.tomorrow.len() == 0 {
        return None;
    }
    let mut entries: Vec<MenuEntry> = Vec::new();
    assert(entry_views(entries@) =~= Seq::empty());
    let ending = distance(first_of(&groups.now, true), zone, now);
    add_section(
        &mut entries,
        MenuEntry::Heading {
            id: String::from_str("ongoing"),
            title: String::from_str("Ending ").concat(ending.as_str()),
            mark: Mark::Available,
        },
        &groups.now,
        zone,
    );
    let starting = distance(first_of(&groups.upcoming, false), zone, now);
    add_section(
        &mut entries,
        MenuEntry::Heading {
            id: String::from_str("upcoming"),
            title: String::from_str("Upcoming ").concat(starting.as_str()),
            mark: Mark::PartiallyAvailable,
        },
        &groups.upcoming,
        zone,
    );
    add_section(
        &mut entries,
        MenuEntry::Heading {
            id: String::from_str("tomorrow"),
            title: String::from_str("Tomorrow"),
            mark: Mark::Unavailable,
        },
        &groups.tomorrow,
        zone,
    );
    let ghost sections = entry_views(entries@);
    entries.push(MenuEntry::Separator);
    entries.push(item("show_app", "Notor App"));
    entries.push(item("settings", "Add new account"));
    entries.push(MenuEntry::Separator);
    entries.push(item("quit", "Quit Notor app completely"));
    assert(entry_views(entries@) =~= sections + closing());
    Some(entries)
}

/// The tray menu before the first poll: the commands alone.
pub fn base_menu() -> (entries: Vec<MenuEntry>)
    ensures
        entry_views(entries@) == seq![
            MenuEntryView::Item { id: "show_app"@, title: "Notor App"@ },
            MenuEntryView::Item { id: "settings"@, title: "Add new account"@ },
            MenuEntryView::Separator,
            MenuEntryView::Item { id: "quit"@, title: "Quit Notor app completely             \u{274c}"@ },
        ],
{
    let mut entries: Vec<MenuEntry> = Vec::new();
    entries.push(item("show_app", "Notor App"));
    entries.push(item("settings", "Add new account"));
    entries.push(MenuEntry::Separator);
    entries.push(item("quit", "Quit Notor app completely             \u{274c}"));
    assert(entry_views(entries@) =~= seq![
        MenuEntryView::Item { id: "show_app"@, title: "Notor App"@ },
        MenuEntryView::Item { id: "settings"@, title: "Add new account"@ },
        MenuEntryView::Separator,
        MenuEntryView::Item { id: "quit"@, title: "Quit Notor app completely             \u{274c}"@ },
    ]);
    entries
}

} // verus!

//! A calendar event as the notifier sees it.

use vstd::prelude::*;
use crate::text::{clone_optional_text, clone_texts, has_text, optional_text, same_text, texts};

verus! {

/// One event of a poll. `start` and `end` are instants in seconds since the
/// Unix epoch; either is `None` when the provider's value could not be
/// resolved to an instant.
pub struct Event {
    pub id: String,
    pub summary: String,
    pub start: Option<i64>,
    pub end: Option<i64>,
    /// Email of the account that created the event, where the provider names one.
    pub creator: Option<String>,
    /// Emails of the invited accounts.
    pub attendees: Vec<String>,
}

/// What an [`Event`] holds, as mathematical values.
pub struct EventView {
    pub id: Seq<char>,
    pub summary: Seq<char>,
    pub start: Option<i64>,
    pub end: Option<i64>,
    pub creator: Option<Seq<char>>,
    pub attendees: Seq<Seq<char>>,
}

impl View for Event {
    type V = EventView;

    open spec fn view(&self) -> EventView {
        EventView {
            id: self.id@,
            summary: self.summary@,
            start: self.start,
            end: self.end,
            creator: optional_text(self.creator),
            attendees: texts(self.attendees@),
        }
    }
}

impl Clone for Event {
    fn clone(&self) -> (copy: Self)
        ensures
            copy@ == self@,
    {
        Event {
            id: self.id.clone(),
            summary: self.summary.clone(),
            start: self.start,
            end: self.end,
            creator: clone_optional_text(&self.creator),
            attendees: clone_texts(&self.attendees),
        }
    }
}

/// The views of a list of events, in order.
pub open spec fn event_views(events: Seq<Event>) -> Seq<EventView> {
    events.map_values(|e: Event| e@)
}

/// Whether `events` holds an event with the identifier `id`.
pub open spec fn listed(events: Seq<EventView>, id: Seq<char>) -> bool {
    exists|k: int| 0 <= k < events.len() && (#[trigger] events[k]).id == id
}

impl EventView {
    /// An event matters to the account `email` when that account created it
    /// or is among its attendees.
    pub open spec fn concerns(self, email: Seq<char>) -> bool {
        self.creator == Some(email) || self.attendees.contains(email)
    }
}

impl Event {
    /// Whether the account `email` created this event or is invited to it.
    pub fn concerns(&self, email: &str) -> (relevant: bool)
        ensures
            relevant == self@.concerns(email@),
    {
        let is_creator = match &self.creator {
            Some(creator) => same_text(creator.as_str(), email),
            None => false,
        };
        if is_creator {
            return true;
        }
        has_text(&self.attendees, email)
    }
}

/// A copy of `events` with the same views in the same order.
pub fn clone_events(events: &Vec<Event>) -> (copy: Vec<Event>)
    ensures
        event_views(copy@) == event_views(events@),
{
    let mut copy: Vec<Event> = Vec::new();
    let mut i: usize = 0;
    while i < events.len()
        invariant
            i <= events.len(),
            copy.len() == i,
            forall|k: int| 0 <= k < i ==> copy[k]@ == events[k]@,
        decreases events.len() - i,
    {
        copy.push(events[i].clone());
        i += 1;
    }
    assert(event_views(copy@) =~= event_views(events@));
    copy
}

} // verus!

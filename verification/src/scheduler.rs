//! The events an alert is still owed for, and the step the timer takes on
//! each tick: find an event that has started, take it out, and take in what
//! the last poll found upcoming.

use vstd::prelude::*;
use vstd::string::StringExecFns;
use crate::classify::{bucket_of, lemma_started_not_upcoming, Bucket, ClockView};
use crate::event::{event_views, listed, Event, EventView};
use crate::text::same_text;

verus! {

/// Seconds the timer sleeps between two ticks.
pub const TICK_SECONDS: u64 = 5;

/// The events that `entries` holds, each found by its identifier; of two
/// events with one identifier the later counts.
pub open spec fn pending_map(entries: Seq<Event>) -> Map<Seq<char>, EventView>
    decreases entries.len(),
{
    if entries.len() == 0 {
        Map::empty()
    } else {
        pending_map(entries.drop_last()).insert(entries.last()@.id, entries.last()@)
    }
}

/// No two events have the same identifier.
pub open spec fn distinct_ids(entries: Seq<Event>) -> bool {
    forall|i: int, j: int| 0 <= i < j < entries.len() ==> entries[i]@.id != entries[j]@.id
}

/// `pending` with each event of `events` taken in, in their order: an event
/// replaces the one that was pending under its identifier.
pub open spec fn taken_in(pending: Map<Seq<char>, EventView>, events: Seq<EventView>) -> Map<
    Seq<char>,
    EventView,
>
    decreases events.len(),
{
    if events.len() == 0 {
        pending
    } else {
        taken_in(pending, events.drop_last()).insert(events.last().id, events.last())
    }
}

/// An event is due at `now` when its start is resolved and not later than
/// `now`.
pub open spec fn due(event: EventView, now: int) -> bool {
    match event.start {
        Some(start) => start <= now,
        None => false,
    }
}

/// Every pending event is found under its own identifier.
pub open spec fn keyed_by_id(pending: Map<Seq<char>, EventView>) -> bool {
    forall|id: Seq<char>| pending.contains_key(id) ==> (#[trigger] pending[id]).id == id
}

/// Among events of distinct identifiers, the map holds exactly the listed
/// identifiers, each with its event.
pub proof fn lemma_pending_map(entries: Seq<Event>)
    requires
        distinct_ids(entries),
    ensures
        forall|id: Seq<char>|
            pending_map(entries).contains_key(id) <==> exists|i: int|
                0 <= i < entries.len() && #[trigger] entries[i]@.id == id,
        forall|i: int|
            0 <= i < entries.len() ==> pending_map(entries)[(#[trigger] entries[i])@.id]
                == entries[i]@,
        keyed_by_id(pending_map(entries)),
    decreases entries.len(),
{
    if entries.len() > 0 {
        let front = entries.drop_last();
        let full = pending_map(entries);
        let rest = pending_map(front);
        assert(distinct_ids(front)) by {
            assert forall|i: int, j: int| 0 <= i < j < front.len() implies front[i]@.id
                != front[j]@.id by {
                assert(front[i] == entries[i]);
                assert(front[j] == entries[j]);
            }
        }
        lemma_pending_map(front);
        assert(full == rest.insert(entries.last()@.id, entries.last()@));
        assert forall|id: Seq<char>| full.contains_key(id) implies exists|i: int|
            0 <= i < entries.len() && #[trigger] entries[i]@.id == id by {
            if id == entries.last()@.id {
                assert(entries[entries.len() - 1]@.id == id);
            } else {
                assert(rest.contains_key(id));
                let i = choose|i: int| 0 <= i < front.len() && #[trigger] front[i]@.id == id;
                assert(front[i] == entries[i]);
                assert(entries[i]@.id == id);
            }
        }
        assert forall|id: Seq<char>|
            (exists|i: int| 0 <= i < entries.len() && #[trigger] entries[i]@.id == id)
                implies full.contains_key(id) by {
            let i = choose|i: int| 0 <= i < entries.len() && #[trigger] entries[i]@.id == id;
            if i < front.len() {
                assert(front[i] == entries[i]);
                assert(front[i]@.id == id);
                assert(rest.contains_key(id));
            }
        }
        assert forall|i: int| 0 <= i < entries.len() implies full[(#[trigger] entries[i])@.id]
            == entries[i]@ by {
            if i < front.len() {
                assert(front[i] == entries[i]);
                assert(rest[front[i]@.id] == front[i]@);
                assert(entries[i]@.id != entries[entries.len() - 1]@.id);
            }
        }
        assert forall|id: Seq<char>| full.contains_key(id) implies (#[trigger] full[id]).id == id by {
            if id != entries.last()@.id {
                assert(rest.contains_key(id));
                assert(rest[id].id == id);
            }
        }
    }
}

/// Taking events in keeps every pending event under its own identifier.
pub proof fn lemma_taken_in_keyed(pending: Map<Seq<char>, EventView>, events: Seq<EventView>)
    requires
        keyed_by_id(pending),
    ensures
        keyed_by_id(taken_in(pending, events)),
    decreases events.len(),
{
    if events.len() > 0 {
        lemma_taken_in_keyed(pending, events.drop_last());
        let rest = taken_in(pending, events.drop_last());
        assert forall|id: Seq<char>| taken_in(pending, events).contains_key(id) implies (
        #[trigger] taken_in(pending, events)[id]).id == id by {
            if id != events.last().id {
                assert(rest.contains_key(id));
                assert(rest[id].id == id);
            }
        }
    }
}

/// An event that was taken out is not found again, however the pending
/// events are scanned: none of those left has its identifier.
pub proof fn lemma_dispatched_once(pending: Map<Seq<char>, EventView>, dispatched: Seq<char>)
    requires
        keyed_by_id(pending),
    ensures
        !pending.remove(dispatched).contains_key(dispatched),
        keyed_by_id(pending.remove(dispatched)),
        forall|id: Seq<char>|
            pending.remove(dispatched).contains_key(id) ==> (#[trigger] pending.remove(
                dispatched,
            )[id]).id != dispatched,
{
    assert forall|id: Seq<char>| pending.remove(dispatched).contains_key(id) implies (
    #[trigger] pending.remove(dispatched)[id]).id != dispatched by {
        assert(pending.contains_key(id));
        assert(pending[id].id == id);
    }
}

/// The view of an event that may have been handed out.
pub open spec fn optional_event(event: Option<Event>) -> Option<EventView> {
    match event {
        Some(e) => Some(e@),
        None => None,
    }
}

/// What one tick at `now` does to the pending events `before`, after a poll
/// that found `upcoming`: it hands out an event that was pending and is due
/// and leaves `after` without it, or it hands out none, where none was due;
/// in either case the upcoming events are taken in.
pub open spec fn ticked(
    before: Map<Seq<char>, EventView>,
    upcoming: Seq<EventView>,
    now: int,
    dispatched: Option<EventView>,
    after: Map<Seq<char>, EventView>,
) -> bool {
    match dispatched {
        Some(event) => {
            &&& before.contains_key(event.id)
            &&& before[event.id] == event
            &&& due(event, now)
            &&& after == taken_in(before, upcoming).remove(event.id)
        },
        None => {
            &&& forall|id: Seq<char>| before.contains_key(id) ==> !due(#[trigger] before[id], now)
            &&& after == taken_in(before, upcoming)
        },
    }
}

/// One tick of a run of the timer.
pub struct Tick {
    pub before: Map<Seq<char>, EventView>,
    pub upcoming: Seq<EventView>,
    pub now: int,
    pub dispatched: Option<EventView>,
    pub after: Map<Seq<char>, EventView>,
}

impl Tick {
    /// Whether this tick hands out an event with the identifier `id`.
    pub open spec fn alerts(self, id: Seq<char>) -> bool {
        match self.dispatched {
            Some(event) => event.id == id,
            None => false,
        }
    }
}

/// A run of the timer: each tick is as `tick` says, and each starts with
/// the pending events the tick before left.
pub open spec fn run(ticks: Seq<Tick>) -> bool {
    &&& forall|i: int|
        0 <= i < ticks.len() ==> ticked(
            (#[trigger] ticks[i]).before,
            ticks[i].upcoming,
            ticks[i].now,
            ticks[i].dispatched,
            ticks[i].after,
        )
    &&& forall|i: int| 0 <= i < ticks.len() - 1 ==> (#[trigger] ticks[i + 1]).before == ticks[i].after
}

/// After events are taken in, exactly the identifiers that were pending or
/// are among the events are pending.
pub proof fn lemma_taken_in_keys(
    pending: Map<Seq<char>, EventView>,
    events: Seq<EventView>,
    id: Seq<char>,
)
    ensures
        taken_in(pending, events).contains_key(id) <==> pending.contains_key(id) || listed(
            events,
            id,
        ),
    decreases events.len(),
{
    if events.len() > 0 {
        let front = events.drop_last();
        lemma_taken_in_keys(pending, front, id);
        if listed(front, id) {
            let k = choose|k: int| 0 <= k < front.len() && (#[trigger] front[k]).id == id;
            assert(events[k].id == id);
        }
        if events.last().id == id {
            assert(events[events.len() - 1].id == id);
        }
        if listed(events, id) {
            let k = choose|k: int| 0 <= k < events.len() && (#[trigger] events[k]).id == id;
            if k < front.len() {
                assert(front[k].id == id);
            }
        }
    }
}

/// An event that is not pending and that no poll finds upcoming stays out:
/// through a whole run no tick hands it out and it is pending after none.
pub proof fn lemma_stays_out(ticks: Seq<Tick>, id: Seq<char>)
    requires
        run(ticks),
        ticks.len() > 0 ==> !ticks[0].before.contains_key(id),
        forall|i: int| 0 <= i < ticks.len() ==> !listed((#[trigger] ticks[i]).upcoming, id),
    ensures
        forall|i: int|
            0 <= i < ticks.len() ==> !(#[trigger] ticks[i]).alerts(id) && !ticks[i].after.contains_key(
                id,
            ),
    decreases ticks.len(),
{
    if ticks.len() > 0 {
        let front = ticks.drop_last();
        let last = ticks.last();
        assert(run(front)) by {
            assert forall|i: int| 0 <= i < front.len() implies ticked(
                (#[trigger] front[i]).before,
                front[i].upcoming,
                front[i].now,
                front[i].dispatched,
                front[i].after,
            ) by {
                assert(front[i] == ticks[i]);
            }
            assert forall|i: int| 0 <= i < front.len() - 1 implies (#[trigger] front[i + 1]).before
                == front[i].after by {
                assert(front[i + 1] == ticks[i + 1]);
                assert(front[i] == ticks[i]);
            }
        }
        assert forall|i: int| 0 <= i < front.len() implies !listed(
            (#[trigger] front[i]).upcoming,
            id,
        ) by {
            assert(front[i] == ticks[i]);
        }
        if front.len() > 0 {
            assert(front[0] == ticks[0]);
        }
        lemma_stays_out(front, id);
        assert(!last.before.contains_key(id)) by {
            if front.len() > 0 {
                let i = front.len() - 1;
                assert(ticks[i + 1].before == ticks[i].after);
                assert(front[i] == ticks[i]);
            }
        }
        assert(ticks[ticks.len() - 1] == last);
        lemma_taken_in_keys(last.before, last.upcoming, id);
        assert forall|i: int| 0 <= i < ticks.len() implies !(#[trigger] ticks[i]).alerts(id)
            && !ticks[i].after.contains_key(id) by {
            if i < front.len() {
                assert(front[i] == ticks[i]);
            }
        }
    }
}

/// The alert for an event is raised once: after the tick that hands the
/// event out, it is pending no more, and as long as no later poll finds it
/// upcoming, no later tick of the run hands it out again.
pub proof fn lemma_alert_once(ticks: Seq<Tick>, at: int, event: EventView)
    requires
        run(ticks),
        0 <= at < ticks.len(),
        ticks[at].dispatched == Some(event),
        forall|i: int| at < i < ticks.len() ==> !listed((#[trigger] ticks[i]).upcoming, event.id),
    ensures
        !ticks[at].after.contains_key(event.id),
        forall|i: int|
            at < i < ticks.len() ==> !(#[trigger] ticks[i]).alerts(event.id)
                && !ticks[i].after.contains_key(event.id),
{
    let later = ticks.skip(at + 1);
    assert(run(later)) by {
        assert forall|i: int| 0 <= i < later.len() implies ticked(
            (#[trigger] later[i]).before,
            later[i].upcoming,
            later[i].now,
            later[i].dispatched,
            later[i].after,
        ) by {
            assert(later[i] == ticks[at + 1 + i]);
        }
        assert forall|i: int| 0 <= i < later.len() - 1 implies (#[trigger] later[i + 1]).before
            == later[i].after by {
            assert(later[i + 1] == ticks[(at + 1 + i) + 1]);
            assert(later[i] == ticks[at + 1 + i]);
        }
    }
    assert forall|i: int| 0 <= i < later.len() implies !listed(
        (#[trigger] later[i]).upcoming,
        event.id,
    ) by {
        assert(later[i] == ticks[at + 1 + i]);
    }
    if later.len() > 0 {
        assert(later[0] == ticks[at + 1]);
        assert(ticks[at + 1].before == ticks[at].after);
    }
    lemma_stays_out(later, event.id);
    assert forall|i: int| at < i < ticks.len() implies !(#[trigger] ticks[i]).alerts(event.id)
        && !ticks[i].after.contains_key(event.id) by {
        assert(later[i - at - 1] == ticks[i]);
    }
}

/// One poll of a run: the events it brought and the clock it was
/// classified at.
pub struct Poll {
    pub events: Seq<EventView>,
    pub clock: ClockView,
}

/// From the poll to the alert and beyond. An event is pending and is the
/// only one that is due at the first tick of a run. From the second tick
/// on, each tick takes in the upcoming events of a poll that was classified
/// when the event had started, and the polls show the event, where they
/// show it, with the start it has. Then the first tick hands the event out,
/// it is pending after no tick, and no later tick hands it out again: its
/// alert is raised exactly once.
pub proof fn lemma_alert_exactly_once(ticks: Seq<Tick>, polls: Seq<Poll>, id: Seq<char>, start: i64)
    requires
        run(ticks),
        ticks.len() > 0,
        polls.len() == ticks.len(),
        ticks[0].before.contains_key(id),
        ticks[0].before[id].id == id,
        ticks[0].before[id].start == Some(start),
        start <= ticks[0].now,
        forall|other: Seq<char>|
            ticks[0].before.contains_key(other) && other != id ==> !due(
                #[trigger] ticks[0].before[other],
                ticks[0].now,
            ),
        forall|i: int|
            0 < i < ticks.len() ==> (#[trigger] ticks[i]).upcoming == bucket_of(
                polls[i].events,
                polls[i].clock,
                Bucket::Upcoming,
            ) && start <= polls[i].clock.now,
        forall|i: int, k: int|
            0 < i < polls.len() && 0 <= k < polls[i].events.len() && (#[trigger] polls[i].events[k]).id
                == id ==> polls[i].events[k].start == Some(start),
    ensures
        ticks[0].dispatched == Some(ticks[0].before[id]),
        forall|i: int| 0 <= i < ticks.len() ==> !(#[trigger] ticks[i]).after.contains_key(id),
        forall|i: int| 0 < i < ticks.len() ==> !(#[trigger] ticks[i]).alerts(id),
{
    lemma_only_due_is_dispatched(ticks[0], id);
    assert forall|i: int| 0 < i < ticks.len() implies !listed((#[trigger] ticks[i]).upcoming, id) by {
        lemma_started_not_upcoming(polls[i].events, polls[i].clock, id, start);
    }
    lemma_alert_once(ticks, 0, ticks[0].before[id]);
}

/// What is pending under an identifier after events are taken in: the
/// event that was pending, where the events do not hold the identifier, and
/// one of the events where they do.
pub proof fn lemma_taken_in_value(
    pending: Map<Seq<char>, EventView>,
    events: Seq<EventView>,
    id: Seq<char>,
)
    ensures
        !listed(events, id) && pending.contains_key(id) ==> taken_in(pending, events)[id]
            == pending[id],
        listed(events, id) ==> events.contains(taken_in(pending, events)[id]),
        pending.dom().finite() ==> taken_in(pending, events).dom().finite(),
    decreases events.len(),
{
    if events.len() > 0 {
        let front = events.drop_last();
        lemma_taken_in_value(pending, front, id);
        if listed(front, id) {
            let k = choose|k: int| 0 <= k < front.len() && (#[trigger] front[k]).id == id;
            assert(events[k].id == id);
            let j = choose|j: int| 0 <= j < front.len() && front[j] == taken_in(pending, front)[id];
            assert(events[j] == front[j]);
        }
        if events.last().id == id {
            assert(events[events.len() - 1] == events.last());
        } else if listed(events, id) {
            let k = choose|k: int| 0 <= k < events.len() && (#[trigger] events[k]).id == id;
            assert(front[k].id == id);
        }
    }
}

/// The identifiers of the pending events that are due at `at`.
pub open spec fn owed(pending: Map<Seq<char>, EventView>, at: int) -> Set<Seq<char>> {
    Set::new(|id: Seq<char>| pending.contains_key(id) && due(pending[id], at))
}

/// Whether the run hands out an event with the identifier `id` at the tick
/// `at` and at no other tick.
pub open spec fn alerted_once(ticks: Seq<Tick>, id: Seq<char>, at: int) -> bool {
    &&& 0 <= at < ticks.len()
    &&& ticks[at].alerts(id)
    &&& forall|j: int| 0 <= j < ticks.len() && j != at ==> !(#[trigger] ticks[j]).alerts(id)
}

/// Every due event gets its alert, and gets it once, whichever of several
/// due events a tick takes first. An event is pending and due at the first
/// tick of a run whose clock does not go back. No poll of the run finds an
/// event of its identifier upcoming, and none of the events that the polls
/// find upcoming starts before `until`, a time that no tick of the run lies
/// after. Then a run of as many ticks as events are owed at the start hands
/// the event out at exactly one tick.
pub proof fn lemma_due_event_is_alerted(ticks: Seq<Tick>, id: Seq<char>, until: int)
    requires
        run(ticks),
        ticks.len() > 0,
        ticks[0].before.dom().finite(),
        ticks[0].before.contains_key(id),
        due(ticks[0].before[id], ticks[0].now),
        forall|i: int, j: int|
            0 <= i <= j < ticks.len() ==> (#[trigger] ticks[i]).now <= (#[trigger] ticks[j]).now,
        forall|i: int| 0 <= i < ticks.len() ==> (#[trigger] ticks[i]).now <= until,
        forall|i: int| 0 <= i < ticks.len() ==> !listed((#[trigger] ticks[i]).upcoming, id),
        forall|i: int, k: int|
            0 <= i < ticks.len() && 0 <= k < ticks[i].upcoming.len() ==> !due(
                #[trigger] ticks[i].upcoming[k],
                until,
            ),
        ticks.len() >= owed(ticks[0].before, until).len(),
    ensures
        exists|at: int| alerted_once(ticks, id, at),
    decreases ticks.len(),
{
    let first = ticks[0];
    let event = first.before[id];
    let owed_before = owed(first.before, until);
    assert(first.dispatched is Some);
    let taken = first.dispatched.unwrap();
    if taken.id == id {
        lemma_alert_once(ticks, 0, taken);
        assert(alerted_once(ticks, id, 0));
    } else {
        let filled = taken_in(first.before, first.upcoming);
        lemma_taken_in_keys(first.before, first.upcoming, id);
        lemma_taken_in_value(first.before, first.upcoming, id);
        assert(first.after.contains_key(id) && first.after[id] == event);
        let owed_after = owed(first.after, until);
        assert(owed_before.subset_of(first.before.dom()));
        vstd::set_lib::lemma_len_subset(owed_before, first.before.dom());
        assert(owed_before.contains(taken.id));
        assert(owed_after.subset_of(owed_before.remove(taken.id))) by {
            assert forall|key: Seq<char>| owed_after.contains(key) implies owed_before.remove(
                taken.id,
            ).contains(key) by {
                lemma_taken_in_keys(first.before, first.upcoming, key);
                lemma_taken_in_value(first.before, first.upcoming, key);
                assert(filled[key] == first.after[key]);
                if listed(first.upcoming, key) {
                    let k = choose|k: int|
                        0 <= k < first.upcoming.len() && first.upcoming[k] == filled[key];
                    assert(!due(ticks[0].upcoming[k], until));
                }
            }
        }
        vstd::set_lib::lemma_len_subset(owed_after, owed_before.remove(taken.id));
        assert(owed_after.contains(id));
        assert(owed_after.len() >= 1) by {
            assert(owed_after.len() == owed_after.remove(id).len() + 1);
        }
        assert(owed_before.remove(taken.id).len() + 1 == owed_before.len());
        let rest = ticks.skip(1);
        assert(rest[0] == ticks[1]);
        assert(ticks[0int + 1].before == ticks[0].after);
        assert(run(rest)) by {
            assert forall|i: int| 0 <= i < rest.len() implies ticked(
                (#[trigger] rest[i]).before,
                rest[i].upcoming,
                rest[i].now,
                rest[i].dispatched,
                rest[i].after,
            ) by {
                assert(rest[i] == ticks[i + 1]);
            }
            assert forall|i: int| 0 <= i < rest.len() - 1 implies (#[trigger] rest[i + 1]).before
                == rest[i].after by {
                assert(rest[i + 1] == ticks[(i + 1) + 1]);
                assert(rest[i] == ticks[i + 1]);
            }
        }
        assert(due(rest[0].before[id], rest[0].now)) by {
            assert(ticks[0].now <= ticks[1].now);
        }
        assert forall|i: int, j: int| 0 <= i <= j < rest.len() implies (#[trigger] rest[i]).now <= (
        #[trigger] rest[j]).now by {
            assert(rest[i] == ticks[i + 1]);
            assert(rest[j] == ticks[j + 1]);
        }
        assert forall|i: int| 0 <= i < rest.len() implies (#[trigger] rest[i]).now <= until
            && !listed(rest[i].upcoming, id) by {
            assert(rest[i] == ticks[i + 1]);
        }
        assert forall|i: int, k: int|
            0 <= i < rest.len() && 0 <= k < rest[i].upcoming.len() implies !due(
            #[trigger] rest[i].upcoming[k],
            until,
        ) by {
            assert(rest[i] == ticks[i + 1]);
            assert(!due(ticks[i + 1].upcoming[k], until));
        }
        lemma_due_event_is_alerted(rest, id, until);
        let later = choose|at: int| alerted_once(rest, id, at);
        assert(rest[later] == ticks[later + 1]);
        assert forall|j: int| 0 <= j < ticks.len() && j != later + 1 implies !(#[trigger] ticks[j]).alerts(
            id,
        ) by {
            if j > 0 {
                assert(rest[j - 1] == ticks[j]);
            }
        }
        assert(alerted_once(ticks, id, later + 1));
    }
}

/// Where a single pending event is due, the tick hands out that event.
pub proof fn lemma_only_due_is_dispatched(tick: Tick, id: Seq<char>)
    requires
        ticked(tick.before, tick.upcoming, tick.now, tick.dispatched, tick.after),
        tick.before.contains_key(id),
        due(tick.before[id], tick.now),
        forall|other: Seq<char>|
            tick.before.contains_key(other) && other != id ==> !due(
                #[trigger] tick.before[other],
                tick.now,
            ),
    ensures
        tick.dispatched == Some(tick.before[id]),
        !tick.after.contains_key(id),
{
}

/// The events an alert is still owed for, each found by its identifier.
pub struct PendingEvents {
    entries: Vec<Event>,
}

impl View for PendingEvents {
    type V = Map<Seq<char>, EventView>;

    closed spec fn view(&self) -> Map<Seq<char>, EventView> {
        pending_map(self.entries@)
    }
}

impl PendingEvents {
    #[verifier::type_invariant]
    spec fn listed_once(self) -> bool {
        distinct_ids(self.entries@)
    }

    /// No pending events.
    pub fn new() -> (pending: Self)
        ensures
            pending@ == Map::<Seq<char>, EventView>::empty(),
    {
        PendingEvents { entries: Vec::new() }
    }

    /// The number of pending events.
    pub fn len(&self) -> (count: usize)
        ensures
            count == self@.len(),
            self@.dom().finite(),
            keyed_by_id(self@),
    {
        proof {
            use_type_invariant(self);
            lemma_pending_len(self.entries@);
            lemma_pending_map(self.entries@);
        }
        self.entries.len()
    }

    /// The pending event with the identifier `id`, if there is one.
    pub fn get(&self, id: &str) -> (found: Option<Event>)
        ensures
            match found {
                Some(event) => self@.contains_key(id@) && self@[id@] == event@,
                None => !self@.contains_key(id@),
            },
    {
        proof {
            use_type_invariant(self);
        }
        let mut i: usize = 0;
        while i < self.entries.len()
            invariant
                i <= self.entries.len(),
                distinct_ids(self.entries@),
                forall|k: int| 0 <= k < i ==> self.entries[k]@.id != id@,
            decreases self.entries.len() - i,
        {
            if same_text(self.entries[i].id.as_str(), id) {
                proof {
                    lemma_pending_map(self.entries@);
                }
                return Some(self.entries[i].clone());
            }
            i += 1;
        }
        proof {
            lemma_pending_map(self.entries@);
        }
        None
    }

    /// The pending events but the one with the identifier `id`.
    fn without(&self, id: &str) -> (kept: Vec<Event>)
        ensures
            distinct_ids(kept@),
            pending_map(kept@) == self@.remove(id@),
    {
        proof {
            use_type_invariant(self);
        }
        let ghost before = self.entries@;
        let mut kept: Vec<Event> = Vec::new();
        let mut i: usize = 0;
        assert(before.take(0) =~= Seq::empty());
        assert(pending_map(kept@) =~= pending_map(before.take(0)).remove(id@));
        while i < self.entries.len()
            invariant
                i <= self.entries.len(),
                before == self.entries@,
                distinct_ids(before),
                distinct_ids(kept@),
                pending_map(kept@) == pending_map(before.take(i as int)).remove(id@),
            decreases self.entries.len() - i,
        {
            proof {
                let next = before.take(i + 1);
                assert(next.drop_last() =~= before.take(i as int));
                assert(next.last() == before[i as int]);
                lemma_pending_map(before.take(i as int));
                lemma_pending_map(kept@);
            }
            if !same_text(self.entries[i].id.as_str(), id) {
                let ghost earlier = kept@;
                kept.push(self.entries[i].clone());
                proof {
                    assert(kept@.drop_last() =~= earlier);
                    let key = before[i as int]@.id;
                    assert(!pending_map(before.take(i as int)).contains_key(key)) by {
                        if pending_map(before.take(i as int)).contains_key(key) {
                            let k = choose|k: int|
                                0 <= k < before.take(i as int).len() && #[trigger] before.take(
                                    i as int,
                                )[k]@.id == key;
                            assert(before[k]@.id == before[i as int]@.id);
                        }
                    }
                    assert forall|a: int, b: int| 0 <= a < b < kept@.len() implies kept@[a]@.id
                        != kept@[b]@.id by {
                        if b == earlier.len() {
                            assert(earlier[a]@.id == kept@[a]@.id);
                            assert(pending_map(earlier).contains_key(earlier[a]@.id));
                        } else {
                            assert(earlier[a]@.id == kept@[a]@.id);
                            assert(earlier[b]@.id == kept@[b]@.id);
                        }
                    }
                    assert(pending_map(kept@) =~= pending_map(before.take(i + 1)).remove(id@));
                }
            } else {
                assert(pending_map(kept@) =~= pending_map(before.take(i + 1)).remove(id@));
            }
            i += 1;
        }
        assert(before.take(i as int) =~= before);
        kept
    }

    /// Takes `event` in; it replaces the event that was pending under its
    /// identifier.
    pub fn insert(&mut self, event: Event)
        ensures
            final(self)@ == old(self)@.insert(event@.id, event@),
    {
        let mut kept = self.without(event.id.as_str());
        let ghost earlier = kept@;
        proof {
            lemma_pending_map(earlier);
        }
        kept.push(event);
        proof {
            assert(kept@.drop_last() =~= earlier);
            assert forall|a: int, b: int| 0 <= a < b < kept@.len() implies kept@[a]@.id
                != kept@[b]@.id by {
                assert(earlier[a]@.id == kept@[a]@.id);
                if b == earlier.len() {
                    assert(pending_map(earlier).contains_key(earlier[a]@.id));
                } else {
                    assert(earlier[b]@.id == kept@[b]@.id);
                }
            }
            assert(pending_map(kept@) =~= old(self)@.insert(event@.id, event@));
        }
        self.entries = kept;
    }

    /// Takes out the event with the identifier `id`, if one is pending.
    pub fn remove(&mut self, id: &str)
        ensures
            final(self)@ == old(self)@.remove(id@),
    {
        let kept = self.without(id);
        self.entries = kept;
    }

    /// Takes in each event of `events`, in their order.
    pub fn schedule(&mut self, events: &Vec<Event>)
        ensures
            final(self)@ == taken_in(old(self)@, event_views(events@)),
    {
        let mut i: usize = 0;
        assert(event_views(events@).take(0) =~= Seq::empty());
        while i < events.len()
            invariant
                i <= events.len(),
                self@ == taken_in(old(self)@, event_views(events@).take(i as int)),
            decreases events.len() - i,
        {
            proof {
                let next = event_views(events@).take(i + 1);
                assert(next.drop_last() =~= event_views(events@).take(i as int));
                assert(next.last() == events[i as int]@);
            }
            self.insert(events[i].clone());
            i += 1;
        }
        assert(event_views(events@).take(i as int) =~= event_views(events@));
    }

    /// A pending event that is due at `now`, if there is one. Where several
    /// are due, which of them is returned is not fixed.
    pub fn next_due(&self, now: i64) -> (found: Option<Event>)
        ensures
            match found {
                Some(event) => self@.contains_key(event@.id) && self@[event@.id] == event@ && due(
                    event@,
                    now as int,
                ),
                None => forall|id: Seq<char>| self@.contains_key(id) ==> !due(#[trigger] self@[id], now as int),
            },
    {
        proof {
            use_type_invariant(self);
        }
        let mut i: usize = 0;
        while i < self.entries.len()
            invariant
                i <= self.entries.len(),
                distinct_ids(self.entries@),
                forall|k: int| 0 <= k < i ==> !due(self.entries[k]@, now as int),
            decreases self.entries.len() - i,
        {
            let is_due = match self.entries[i].start {
                Some(start) => start <= now,
                None => false,
            };
            if is_due {
                proof {
                    lemma_pending_map(self.entries@);
                }
                return Some(self.entries[i].clone());
            }
            i += 1;
        }
        proof {
            lemma_pending_map(self.entries@);
            assert forall|id: Seq<char>| self@.contains_key(id) implies !due(
                #[trigger] self@[id],
                now as int,
            ) by {
                let k = choose|k: int| 0 <= k < self.entries@.len() && #[trigger] self.entries@[k]@.id == id;
                assert(self@[self.entries@[k]@.id] == self.entries@[k]@);
            }
        }
        None
    }

    /// One tick of the timer at `now`, after a poll that found `upcoming`.
    /// An event that is due is looked for among the events that were pending
    /// before the tick; then the upcoming events are taken in; then the due
    /// event, if one was found, is taken out and returned for its alert. It
    /// is not pending afterwards, so no later tick returns it again unless a
    /// later poll finds it upcoming once more.
    pub fn tick(&mut self, upcoming: &Vec<Event>, now: i64) -> (dispatched: Option<Event>)
        ensures
            ticked(
                old(self)@,
                event_views(upcoming@),
                now as int,
                optional_event(dispatched),
                final(self)@,
            ),
            match dispatched {
                Some(event) => {
                    &&& old(self)@.contains_key(event@.id)
                    &&& old(self)@[event@.id] == event@
                    &&& due(event@, now as int)
                    &&& final(self)@ == taken_in(old(self)@, event_views(upcoming@)).remove(
                        event@.id,
                    )
                    &&& !final(self)@.contains_key(event@.id)
                },
                None => {
                    &&& forall|id: Seq<char>|
                        old(self)@.contains_key(id) ==> !due(#[trigger] old(self)@[id], now as int)
                    &&& final(self)@ == taken_in(old(self)@, event_views(upcoming@))
                },
            },
    {
        let found = self.next_due(now);
        self.schedule(upcoming);
        match found {
            Some(event) => {
                self.remove(event.id.as_str());
                Some(event)
            },
            None => None,
        }
    }
}

/// The pending events are as many as the list that holds them.
proof fn lemma_pending_len(entries: Seq<Event>)
    requires
        distinct_ids(entries),
    ensures
        pending_map(entries).dom().finite(),
        pending_map(entries).len() == entries.len(),
    decreases entries.len(),
{
    if entries.len() > 0 {
        let front = entries.drop_last();
        assert(distinct_ids(front)) by {
            assert forall|i: int, j: int| 0 <= i < j < front.len() implies front[i]@.id
                != front[j]@.id by {
                assert(front[i] == entries[i]);
                assert(front[j] == entries[j]);
            }
        }
        lemma_pending_len(front);
        lemma_pending_map(front);
        assert(!pending_map(front).contains_key(entries.last()@.id)) by {
            if pending_map(front).contains_key(entries.last()@.id) {
                let i = choose|i: int|
                    0 <= i < front.len() && #[trigger] front[i]@.id == entries.last()@.id;
                assert(front[i] == entries[i]);
                assert(entries[i]@.id == entries[entries.len() - 1]@.id);
            }
        }
    }
}

/// What an alert shows for an event that has started.
pub struct Alert {
    pub title: String,
    pub body: String,
}

/// The alert for `event`: its summary as the title, and the summary followed
/// by " starts now!" as the body.
pub fn alert_for(event: &Event) -> (alert: Alert)
    ensures
        alert.title@ == event@.summary,
        alert.body@ == event@.summary + " starts now!"@,
{
    Alert { title: event.summary.clone(), body: event.summary.clone().concat(" starts now!") }
}

/// Where the timer stands between two steps.
#[derive(Clone, Copy, Debug, PartialEq, Eq, Structural)]
pub enum Phase {
    /// A poll is under way; its upcoming events are handed to the next step.
    Polling,
    /// The alert for an event that has started is being raised.
    Dispatching,
    /// The timer sleeps until the next poll.
    Sleeping,
}

/// What the program has to do before the timer's next step.
pub enum Action {
    /// Poll the accounts and classify what came back.
    Poll,
    /// Raise the alert for this event.
    Alert(Event),
    /// Sleep for this many seconds.
    Sleep(u64),
}

/// What an [`Action`] holds.
pub enum ActionView {
    Poll,
    Alert(EventView),
    Sleep(u64),
}

impl View for Action {
    type V = ActionView;

    open spec fn view(&self) -> ActionView {
        match self {
            Action::Poll => ActionView::Poll,
            Action::Alert(event) => ActionView::Alert(event@),
            Action::Sleep(seconds) => ActionView::Sleep(*seconds),
        }
    }
}

/// The event that an action hands out for its alert, if it is an alert.
pub open spec fn handed_out(action: ActionView) -> Option<EventView> {
    match action {
        ActionView::Alert(event) => Some(event),
        _ => None,
    }
}

/// The phase that follows `phase`, where `dispatching` says whether the scan
/// that ends a poll found an event that is due.
pub open spec fn next_phase(phase: Phase, dispatching: bool) -> Phase {
    match phase {
        Phase::Polling => if dispatching {
            Phase::Dispatching
        } else {
            Phase::Sleeping
        },
        Phase::Dispatching => Phase::Sleeping,
        Phase::Sleeping => Phase::Polling,
    }
}

/// The timer has no last phase: from every phase it is polling again after
/// at most three steps, whatever the scans find.
pub proof fn lemma_timer_returns_to_polling(phase: Phase, first: bool, second: bool, third: bool)
    ensures
        ({
            let one = next_phase(phase, first);
            let two = next_phase(one, second);
            let three = next_phase(two, third);
            one == Phase::Polling || two == Phase::Polling || three == Phase::Polling
        }),
{
}

/// The timer: the phase it is in and the events an alert is still owed for.
pub struct Scheduler {
    phase: Phase,
    pending: PendingEvents,
}

/// What a [`Scheduler`] holds.
pub struct SchedulerView {
    pub phase: Phase,
    pub pending: Map<Seq<char>, EventView>,
}

impl View for Scheduler {
    type V = SchedulerView;

    closed spec fn view(&self) -> SchedulerView {
        SchedulerView { phase: self.phase, pending: self.pending@ }
    }
}

impl Scheduler {
    /// A timer that is about to poll for the first time, with no pending
    /// events.
    pub fn new() -> (timer: Self)
        ensures
            timer@ == (SchedulerView { phase: Phase::Polling, pending: Map::empty() }),
    {
        Scheduler { phase: Phase::Polling, pending: PendingEvents::new() }
    }

    pub fn phase(&self) -> (phase: Phase)
        ensures
            phase == self@.phase,
    {
        self.phase
    }

    /// The pending event with the identifier `id`, if there is one.
    pub fn pending(&self, id: &str) -> (found: Option<Event>)
        ensures
            match found {
                Some(event) => self@.pending.contains_key(id@) && self@.pending[id@] == event@,
                None => !self@.pending.contains_key(id@),
            },
    {
        self.pending.get(id)
    }

    /// The number of pending events.
    pub fn pending_count(&self) -> (count: usize)
        ensures
            count == self@.pending.len(),
    {
        self.pending.len()
    }

    /// Takes in each event of `events`, in their order, whatever the phase.
    pub fn schedule(&mut self, events: &Vec<Event>)
        ensures
            final(self)@ == (SchedulerView {
                pending: taken_in(old(self)@.pending, event_views(events@)),
                ..old(self)@
            }),
    {
        self.pending.schedule(events);
    }

    /// The timer's next step at `now`, taken when what the phase asked for
    /// is done. After a poll, whose upcoming events are `upcoming`, the
    /// pending events are scanned as [`PendingEvents::tick`] says: an event
    /// that is due is handed out for its alert, otherwise the timer sleeps.
    /// After an alert the timer sleeps; after the sleep it polls again. In
    /// these two steps the pending events stay as they are.
    pub fn advance(&mut self, upcoming: &Vec<Event>, now: i64) -> (action: Action)
        ensures
            match old(self)@.phase {
                Phase::Polling => match action {
                    Action::Alert(event) => {
                        &&& old(self)@.pending.contains_key(event@.id)
                        &&& old(self)@.pending[event@.id] == event@
                        &&& due(event@, now as int)
                        &&& final(self)@ == (SchedulerView {
                            phase: Phase::Dispatching,
                            pending: taken_in(old(self)@.pending, event_views(upcoming@)).remove(
                                event@.id,
                            ),
                        })
                    },
                    Action::Sleep(seconds) => {
                        &&& seconds == TICK_SECONDS
                        &&& forall|id: Seq<char>|
                            old(self)@.pending.contains_key(id) ==> !due(
                                #[trigger] old(self)@.pending[id],
                                now as int,
                            )
                        &&& final(self)@ == (SchedulerView {
                            phase: Phase::Sleeping,
                            pending: taken_in(old(self)@.pending, event_views(upcoming@)),
                        })
                    },
                    Action::Poll => false,
                },
                Phase::Dispatching => action@ == ActionView::Sleep(TICK_SECONDS) && final(self)@ == (
                SchedulerView { phase: Phase::Sleeping, ..old(self)@ }),
                Phase::Sleeping => action@ == ActionView::Poll && final(self)@ == (SchedulerView {
                    phase: Phase::Polling,
                    ..old(self)@
                }),
            },
            final(self)@.phase == next_phase(old(self)@.phase, action is Alert),
            old(self)@.phase == Phase::Polling ==> ticked(
                old(self)@.pending,
                event_views(upcoming@),
                now as int,
                handed_out(action@),
                final(self)@.pending,
            ),
    {
        match self.phase {
            Phase::Polling => match self.pending.tick(upcoming, now) {
                Some(event) => {
                    self.phase = Phase::Dispatching;
                    Action::Alert(event)
                },
                None => {
                    self.phase = Phase::Sleeping;
                    Action::Sleep(TICK_SECONDS)
                },
            },
            Phase::Dispatching => {
                self.phase = Phase::Sleeping;
                Action::Sleep(TICK_SECONDS)
            },
            Phase::Sleeping => {
                self.phase = Phase::Polling;
                Action::Poll
            },
        }
    }
}

} // verus!

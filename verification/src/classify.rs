//! Sorting the events of a poll into the groups the notifier shows: running
//! now, upcoming today, and tomorrow.

use vstd::prelude::*;
use crate::event::{clone_events, event_views, listed, Event, EventView};
use crate::localtime::{add_days, days_later, on_day_at, time_on_day};

verus! {

broadcast use vstd::seq_lib::group_seq_properties;

/// The three instants a classification is made against, in seconds since the
/// Unix epoch: the current time, local midnight of the next day, and 23:59:00
/// local time of that day. The current time lies before the next midnight,
/// which does not lie after the end of tomorrow.
#[derive(Clone, Copy, Debug)]
pub struct Clock {
    now: i64,
    tomorrow_start: i64,
    tomorrow_end: i64,
}

/// What a [`Clock`] holds.
pub struct ClockView {
    pub now: int,
    pub tomorrow_start: int,
    pub tomorrow_end: int,
}

impl ClockView {
    /// The current time lies before tomorrow, and tomorrow does not end
    /// before it starts.
    pub open spec fn ordered(self) -> bool {
        self.now < self.tomorrow_start <= self.tomorrow_end
    }
}

impl View for Clock {
    type V = ClockView;

    closed spec fn view(&self) -> ClockView {
        ClockView {
            now: self.now as int,
            tomorrow_start: self.tomorrow_start as int,
            tomorrow_end: self.tomorrow_end as int,
        }
    }
}

impl Clock {
    #[verifier::type_invariant]
    spec fn ordered(self) -> bool {
        self.now < self.tomorrow_start <= self.tomorrow_end
    }

    /// A clock of the three instants, where they are in order.
    pub fn new(now: i64, tomorrow_start: i64, tomorrow_end: i64) -> (clock: Option<Clock>)
        ensures
            clock.is_some() == (now < tomorrow_start <= tomorrow_end),
            clock matches Some(c) ==> c@ == (ClockView {
                now: now as int,
                tomorrow_start: tomorrow_start as int,
                tomorrow_end: tomorrow_end as int,
            }),
    {
        if now < tomorrow_start && tomorrow_start <= tomorrow_end {
            Some(Clock { now, tomorrow_start, tomorrow_end })
        } else {
            None
        }
    }

    /// The clock of `now` whose bounds of tomorrow were computed as
    /// `tomorrow_start` and `tomorrow_end`: there is one where both exist and
    /// the three instants are in order.
    pub fn from_bounds(now: i64, tomorrow_start: Option<i64>, tomorrow_end: Option<i64>) -> (clock:
        Option<Clock>)
        ensures
            clock_view(clock) == clock_of(now, tomorrow_start, tomorrow_end),
    {
        match (tomorrow_start, tomorrow_end) {
            (Some(start), Some(end)) => Clock::new(now, start, end),
            _ => None,
        }
    }

    /// The clock of `now` in `zone`: tomorrow is the local day that follows
    /// the local day of `now`; it starts at 00:00:00 and ends at 23:59:00.
    pub fn at(now: i64, zone: &str) -> (clock: Option<Clock>)
        ensures
            clock_view(clock) == clock_of(
                now,
                time_on_day(zone@, days_later(zone@, now, 1), 0, 0),
                time_on_day(zone@, days_later(zone@, now, 1), 23, 59),
            ),
    {
        let tomorrow = add_days(zone, now, 1);
        let tomorrow_start = on_day_at(zone, tomorrow, 0, 0);
        let tomorrow_end = on_day_at(zone, tomorrow, 23, 59);
        Clock::from_bounds(now, tomorrow_start, tomorrow_end)
    }

    /// The current time. Every clock is ordered.
    pub fn now(&self) -> (t: i64)
        ensures
            t == self@.now,
            self@.ordered(),
    {
        proof {
            use_type_invariant(self);
        }
        self.now
    }

    pub fn tomorrow_start(&self) -> (t: i64)
        ensures
            t == self@.tomorrow_start,
    {
        self.tomorrow_start
    }

    pub fn tomorrow_end(&self) -> (t: i64)
        ensures
            t == self@.tomorrow_end,
    {
        self.tomorrow_end
    }
}

/// What an optional clock holds.
pub open spec fn clock_view(clock: Option<Clock>) -> Option<ClockView> {
    match clock {
        Some(c) => Some(c@),
        None => None,
    }
}

/// The clock of `now` with the given bounds of tomorrow: there is one where
/// both bounds exist and the three instants are in order.
pub open spec fn clock_of(now: i64, tomorrow_start: Option<i64>, tomorrow_end: Option<i64>) -> Option<
    ClockView,
> {
    match (tomorrow_start, tomorrow_end) {
        (Some(start), Some(end)) => if now < start <= end {
            Some(ClockView { now: now as int, tomorrow_start: start as int, tomorrow_end: end as int })
        } else {
            None
        },
        _ => None,
    }
}

/// One of the three groups of a classification.
#[derive(Clone, Copy, Debug, PartialEq, Eq, Structural)]
pub enum Bucket {
    Now,
    Upcoming,
    Tomorrow,
}

/// Whether `event` belongs to `bucket` at `clock`. Only an event whose start
/// and end are both resolved belongs to any bucket.
pub open spec fn falls_in(event: EventView, clock: ClockView, bucket: Bucket) -> bool {
    match (event.start, event.end) {
        (Some(start), Some(end)) => match bucket {
            Bucket::Now => start <= clock.now < end,
            Bucket::Upcoming => clock.now < start < clock.tomorrow_start,
            Bucket::Tomorrow => clock.tomorrow_start <= start < clock.tomorrow_end,
        },
        _ => false,
    }
}

/// The instant a bucket is ordered by: the end of an event that is running,
/// the start of one that is still to come.
pub open spec fn sort_key(event: EventView, bucket: Bucket) -> int {
    let instant = match bucket {
        Bucket::Now => event.end,
        _ => event.start,
    };
    match instant {
        Some(t) => t as int,
        None => 0,
    }
}

/// `sorted` with `event` put behind the last element whose key is not
/// greater than its own.
pub open spec fn place(sorted: Seq<EventView>, event: EventView, bucket: Bucket) -> Seq<EventView>
    decreases sorted.len(),
{
    if sorted.len() == 0 {
        seq![event]
    } else if sort_key(sorted.last(), bucket) <= sort_key(event, bucket) {
        sorted.push(event)
    } else {
        place(sorted.drop_last(), event, bucket).push(sorted.last())
    }
}

/// `events` in ascending order of their key, events of equal key in the
/// order in which `events` holds them.
pub open spec fn arranged(events: Seq<EventView>, bucket: Bucket) -> Seq<EventView>
    decreases events.len(),
{
    if events.len() == 0 {
        Seq::empty()
    } else {
        place(arranged(events.drop_last(), bucket), events.last(), bucket)
    }
}

/// The events of `events` that belong to `bucket` at `clock`, in the order
/// in which `events` holds them.
pub open spec fn members(events: Seq<EventView>, clock: ClockView, bucket: Bucket) -> Seq<
    EventView,
> {
    events.filter(|e: EventView| falls_in(e, clock, bucket))
}

/// The content of `bucket` after classifying `events` at `clock`.
pub open spec fn bucket_of(events: Seq<EventView>, clock: ClockView, bucket: Bucket) -> Seq<
    EventView,
> {
    arranged(members(events, clock, bucket), bucket)
}

/// Whether `events` is in ascending order of the key of `bucket`.
pub open spec fn ascending(events: Seq<EventView>, bucket: Bucket) -> bool {
    forall|i: int, j: int|
        0 <= i < j < events.len() ==> sort_key(#[trigger] events[i], bucket) <= sort_key(
            #[trigger] events[j],
            bucket,
        )
}

/// Where `place` puts an event: at the index `at` behind which every key is
/// greater and before which the nearest key is not.
proof fn lemma_place_at(sorted: Seq<EventView>, event: EventView, bucket: Bucket, at: int)
    requires
        0 <= at <= sorted.len(),
        forall|j: int| at <= j < sorted.len() ==> sort_key(sorted[j], bucket) > sort_key(event, bucket),
        at > 0 ==> sort_key(sorted[at - 1], bucket) <= sort_key(event, bucket),
    ensures
        place(sorted, event, bucket) == sorted.insert(at, event),
    decreases sorted.len(),
{
    if sorted.len() == 0 {
        assert(seq![event] =~= sorted.insert(at, event));
    } else if at == sorted.len() {
        assert(sorted.push(event) =~= sorted.insert(at, event));
    } else {
        lemma_place_at(sorted.drop_last(), event, bucket, at);
        assert(sorted.drop_last().insert(at, event).push(sorted.last()) =~= sorted.insert(at, event));
    }
}

/// Placing an event keeps an ascending sequence ascending and adds exactly
/// that event.
proof fn lemma_place_keeps(sorted: Seq<EventView>, event: EventView, bucket: Bucket)
    requires
        ascending(sorted, bucket),
    ensures
        ascending(place(sorted, event, bucket), bucket),
        place(sorted, event, bucket).to_multiset() == sorted.to_multiset().insert(event),
        place(sorted, event, bucket).len() == sorted.len() + 1,
    decreases sorted.len(),
{
    if sorted.len() == 0 {
        assert(seq![event] =~= sorted.push(event));
    } else if sort_key(sorted.last(), bucket) <= sort_key(event, bucket) {
    } else {
        let front = sorted.drop_last();
        lemma_place_keeps(front, event, bucket);
        let placed = place(front, event, bucket);
        assert(sorted =~= front.push(sorted.last()));
        assert forall|i: int, j: int| 0 <= i < j < placed.push(sorted.last()).len() implies sort_key(
            #[trigger] placed.push(sorted.last())[i],
            bucket,
        ) <= sort_key(#[trigger] placed.push(sorted.last())[j], bucket) by {
            if j == placed.len() {
                // every element of `placed` is the new event or comes from `front`
                assert(placed.to_multiset().count(placed[i]) > 0);
                if placed[i] != event {
                    assert(front.to_multiset().count(placed[i]) > 0);
                    let k = choose|k: int| 0 <= k < front.len() && front[k] == placed[i];
                    assert(sorted[k] == placed[i]);
                    assert(sort_key(sorted[k], bucket) <= sort_key(sorted[sorted.len() - 1], bucket));
                }
            }
        }
        assert(placed.push(sorted.last()).to_multiset() == sorted.to_multiset().insert(event)) by {
            assert(front.push(sorted.last()).to_multiset() == front.to_multiset().insert(sorted.last()));
            assert(placed.to_multiset().insert(sorted.last()) =~= front.to_multiset().insert(
                sorted.last(),
            ).insert(event));
        }
    }
}

/// A bucket's order: `arranged` yields an ascending sequence.
pub proof fn lemma_arranged_ascending(events: Seq<EventView>, bucket: Bucket)
    ensures
        ascending(arranged(events, bucket), bucket),
        arranged(events, bucket).len() == events.len(),
    decreases events.len(),
{
    if events.len() > 0 {
        lemma_arranged_ascending(events.drop_last(), bucket);
        lemma_place_keeps(arranged(events.drop_last(), bucket), events.last(), bucket);
    }
}

/// `arranged` neither drops nor adds nor repeats an event.
pub proof fn lemma_arranged_permutes(events: Seq<EventView>, bucket: Bucket)
    ensures
        arranged(events, bucket).to_multiset() == events.to_multiset(),
    decreases events.len(),
{
    if events.len() == 0 {
        assert(arranged(events, bucket) =~= events);
    } else {
        lemma_arranged_permutes(events.drop_last(), bucket);
        lemma_arranged_ascending(events.drop_last(), bucket);
        lemma_place_keeps(arranged(events.drop_last(), bucket), events.last(), bucket);
        assert(events =~= events.drop_last().push(events.last()));
    }
}

/// Events of equal key leave `arranged` in the order in which they entered:
/// arranging a sequence that is already ascending changes nothing.
pub proof fn lemma_arranged_stable(events: Seq<EventView>, bucket: Bucket)
    requires
        ascending(events, bucket),
    ensures
        arranged(events, bucket) == events,
    decreases events.len(),
{
    if events.len() == 0 {
        assert(arranged(events, bucket) =~= events);
    } else {
        let front = events.drop_last();
        lemma_arranged_stable(front, bucket);
        if front.len() > 0 {
            assert(front.last() == events[events.len() - 2]);
            assert(sort_key(events[events.len() - 2], bucket) <= sort_key(
                events[events.len() - 1],
                bucket,
            ));
        }
        assert(front.push(events.last()) =~= events);
    }
}

/// A poll without events leaves every group empty.
pub proof fn lemma_no_events_no_groups(clock: ClockView)
    ensures
        bucket_of(Seq::empty(), clock, Bucket::Now) == Seq::<EventView>::empty(),
        bucket_of(Seq::empty(), clock, Bucket::Upcoming) == Seq::<EventView>::empty(),
        bucket_of(Seq::empty(), clock, Bucket::Tomorrow) == Seq::<EventView>::empty(),
{
    reveal(Seq::filter);
}

/// An event belongs to at most one bucket.
pub proof fn lemma_buckets_exclusive(event: EventView, clock: ClockView, a: Bucket, b: Bucket)
    requires
        clock.ordered(),
        falls_in(event, clock, a),
        falls_in(event, clock, b),
    ensures
        a == b,
{
}

/// Every event of a bucket belongs to it, every event of the poll that
/// belongs to it is in the bucket as often as in the poll, and the bucket is
/// in ascending order of its key.
pub proof fn lemma_bucket_of(events: Seq<EventView>, clock: ClockView, bucket: Bucket)
    ensures
        ascending(bucket_of(events, clock, bucket), bucket),
        forall|e: EventView|
            bucket_of(events, clock, bucket).to_multiset().count(e) == if falls_in(
                e,
                clock,
                bucket,
            ) {
                events.to_multiset().count(e)
            } else {
                0
            },
{
    let pred = |e: EventView| falls_in(e, clock, bucket);
    lemma_arranged_ascending(members(events, clock, bucket), bucket);
    lemma_arranged_permutes(members(events, clock, bucket), bucket);
    assert forall|e: EventView|
        bucket_of(events, clock, bucket).to_multiset().count(e) == if falls_in(e, clock, bucket) {
            events.to_multiset().count(e)
        } else {
            0
        } by {
        lemma_filter_count(events, pred, e);
    }
}

/// An event that has started is not found upcoming. Where a poll shows the
/// event of the identifier `id` with the start `start` only, and the clock
/// has reached that start, no upcoming event of the poll has the identifier.
pub proof fn lemma_started_not_upcoming(
    events: Seq<EventView>,
    clock: ClockView,
    id: Seq<char>,
    start: i64,
)
    requires
        start <= clock.now,
        forall|k: int|
            0 <= k < events.len() && (#[trigger] events[k]).id == id ==> events[k].start == Some(
                start,
            ),
    ensures
        !listed(bucket_of(events, clock, Bucket::Upcoming), id),
{
    let upcoming = bucket_of(events, clock, Bucket::Upcoming);
    if listed(upcoming, id) {
        let k = choose|k: int| 0 <= k < upcoming.len() && (#[trigger] upcoming[k]).id == id;
        let found = upcoming[k];
        lemma_bucket_of(events, clock, Bucket::Upcoming);
        assert(upcoming.to_multiset().count(found) > 0) by {
            assert(upcoming.contains(found));
        }
        assert(falls_in(found, clock, Bucket::Upcoming));
        assert(events.to_multiset().count(found) > 0);
        assert(events.contains(found));
        let j = choose|j: int| 0 <= j < events.len() && events[j] == found;
        assert(events[j].id == id);
    }
}

/// How often a filtered sequence holds an element: as often as the sequence
/// where the element passes, never where it does not.
pub proof fn lemma_filter_count(events: Seq<EventView>, pred: spec_fn(EventView) -> bool, e: EventView)
    ensures
        events.filter(pred).to_multiset().count(e) == if pred(e) {
            events.to_multiset().count(e)
        } else {
            0
        },
    decreases events.len(),
{
    reveal(Seq::filter);
    if events.len() == 0 {
        assert(events.to_multiset().count(e) == 0);
    } else {
        let front = events.drop_last();
        lemma_filter_count(front, pred, e);
        assert(events =~= front.push(events.last()));
        assert(events.to_multiset() == front.to_multiset().insert(events.last()));
        if pred(events.last()) {
            assert(events.filter(pred) == front.filter(pred).push(events.last()));
        } else {
            assert(events.filter(pred) == front.filter(pred));
        }
    }
}

/// The three groups of one classification.
pub struct EventGroups {
    pub now: Vec<Event>,
    pub upcoming: Vec<Event>,
    pub tomorrow: Vec<Event>,
}

/// What an [`EventGroups`] holds.
pub struct EventGroupsView {
    pub now: Seq<EventView>,
    pub upcoming: Seq<EventView>,
    pub tomorrow: Seq<EventView>,
}

impl View for EventGroups {
    type V = EventGroupsView;

    open spec fn view(&self) -> EventGroupsView {
        EventGroupsView {
            now: event_views(self.now@),
            upcoming: event_views(self.upcoming@),
            tomorrow: event_views(self.tomorrow@),
        }
    }
}

impl EventGroupsView {
    /// The groups that classifying `events` at `clock` yields.
    pub open spec fn of(events: Seq<EventView>, clock: ClockView) -> EventGroupsView {
        EventGroupsView {
            now: bucket_of(events, clock, Bucket::Now),
            upcoming: bucket_of(events, clock, Bucket::Upcoming),
            tomorrow: bucket_of(events, clock, Bucket::Tomorrow),
        }
    }

    pub open spec fn empty() -> EventGroupsView {
        EventGroupsView { now: Seq::empty(), upcoming: Seq::empty(), tomorrow: Seq::empty() }
    }
}

impl EventGroups {
    /// Groups without events.
    pub fn empty() -> (groups: EventGroups)
        ensures
            groups@ == EventGroupsView::empty(),
    {
        let groups = EventGroups { now: Vec::new(), upcoming: Vec::new(), tomorrow: Vec::new() };
        assert(groups@.now =~= Seq::empty());
        assert(groups@.upcoming =~= Seq::empty());
        assert(groups@.tomorrow =~= Seq::empty());
        groups
    }
}

impl Clone for EventGroups {
    fn clone(&self) -> (copy: Self)
        ensures
            copy@ == self@,
    {
        EventGroups {
            now: clone_events(&self.now),
            upcoming: clone_events(&self.upcoming),
            tomorrow: clone_events(&self.tomorrow),
        }
    }
}

impl Event {
    /// Whether this event belongs to `bucket` at `clock`.
    pub fn falls_in(&self, clock: &Clock, bucket: Bucket) -> (member: bool)
        ensures
            member == falls_in(self@, clock@, bucket),
    {
        match (self.start, self.end) {
            (Some(start), Some(end)) => match bucket {
                Bucket::Now => start <= clock.now() && clock.now() < end,
                Bucket::Upcoming => clock.now() < start && start < clock.tomorrow_start(),
                Bucket::Tomorrow => clock.tomorrow_start() <= start && start < clock.tomorrow_end(),
            },
            _ => false,
        }
    }

    /// The instant by which `bucket` orders this event, 0 where it is not
    /// resolved.
    pub fn sort_key(&self, bucket: Bucket) -> (key: i64)
        ensures
            key == sort_key(self@, bucket),
    {
        let instant = match bucket {
            Bucket::Now => self.end,
            _ => self.start,
        };
        match instant {
            Some(t) => t,
            None => 0,
        }
    }
}

/// Puts `event` into the ascending list `sorted`, behind the events whose
/// key is not greater than its own.
fn place_event(sorted: &mut Vec<Event>, event: Event, bucket: Bucket)
    ensures
        event_views(final(sorted)@) == place(event_views(old(sorted)@), event@, bucket),
{
    let key = event.sort_key(bucket);
    let mut at: usize = sorted.len();
    while at > 0 && sorted[at - 1].sort_key(bucket) > key
        invariant
            at <= sorted.len(),
            key == sort_key(event@, bucket),
            forall|j: int| at <= j < sorted.len() ==> sort_key(sorted[j]@, bucket) > key,
        decreases at,
    {
        at -= 1;
    }
    proof {
        lemma_place_at(event_views(sorted@), event@, bucket, at as int);
    }
    sorted.insert(at, event);
    assert(event_views(sorted@) =~= event_views(old(sorted)@).insert(at as int, event@));
}

/// The events of `events` in ascending order of the key of `bucket`; events
/// of equal key keep their order.
pub fn arrange(events: &Vec<Event>, bucket: Bucket) -> (sorted: Vec<Event>)
    ensures
        event_views(sorted@) == arranged(event_views(events@), bucket),
{
    let mut sorted: Vec<Event> = Vec::new();
    let mut i: usize = 0;
    assert(event_views(events@).take(0) =~= Seq::empty());
    while i < events.len()
        invariant
            i <= events.len(),
            event_views(sorted@) == arranged(event_views(events@).take(i as int), bucket),
        decreases events.len() - i,
    {
        proof {
            let next = event_views(events@).take(i + 1);
            assert(next.drop_last() =~= event_views(events@).take(i as int));
            assert(next.last() == events[i as int]@);
        }
        place_event(&mut sorted, events[i].clone(), bucket);
        i += 1;
    }
    assert(event_views(events@).take(i as int) =~= event_views(events@));
    sorted
}

/// The events of `events` that belong to `bucket` at `clock`, in the order
/// of `events`.
pub fn select(events: &Vec<Event>, clock: &Clock, bucket: Bucket) -> (chosen: Vec<Event>)
    ensures
        event_views(chosen@) == members(event_views(events@), clock@, bucket),
{
    let mut chosen: Vec<Event> = Vec::new();
    let mut i: usize = 0;
    let ghost pred = |e: EventView| falls_in(e, clock@, bucket);
    proof {
        reveal(Seq::filter);
        assert(event_views(events@).take(0) =~= Seq::empty());
    }
    while i < events.len()
        invariant
            i <= events.len(),
            pred == (|e: EventView| falls_in(e, clock@, bucket)),
            event_views(chosen@) == event_views(events@).take(i as int).filter(pred),
        decreases events.len() - i,
    {
        proof {
            reveal(Seq::filter);
            let next = event_views(events@).take(i + 1);
            assert(next.drop_last() =~= event_views(events@).take(i as int));
            assert(next.last() == events[i as int]@);
        }
        if events[i].falls_in(clock, bucket) {
            chosen.push(events[i].clone());
            assert(event_views(chosen@) =~= event_views(events@).take(i as int).filter(pred).push(
                events[i as int]@,
            ));
        }
        i += 1;
    }
    assert(event_views(events@).take(i as int) =~= event_views(events@));
    chosen
}

/// Classifies the events of a poll at `clock`. Each group holds the events
/// that belong to it, the running ones in ascending order of their end, the
/// others in ascending order of their start. An event that belongs to no
/// group is dropped.
pub fn classify(events: &Vec<Event>, clock: &Clock) -> (groups: EventGroups)
    ensures
        groups@ == EventGroupsView::of(event_views(events@), clock@),
        clock@.ordered(),
{
    let _ = clock.now();
    let now = select(events, clock, Bucket::Now);
    let upcoming = select(events, clock, Bucket::Upcoming);
    let tomorrow = select(events, clock, Bucket::Tomorrow);
    EventGroups {
        now: arrange(&now, Bucket::Now),
        upcoming: arrange(&upcoming, Bucket::Upcoming),
        tomorrow: arrange(&tomorrow, Bucket::Tomorrow),
    }
}

} // verus!

//! Instants and calendar days. An instant is a number of seconds since the
//! Unix epoch; what depends on the calendar or on a time zone is computed by
//! `chrono`.

use vstd::prelude::*;
use vstd::string::StringExecFns;
use chrono::{TimeZone, Timelike};

verus! {

/// The first second that `chrono` can hold as a date and time: the start of
/// the year -262143.
pub const FIRST_SECOND: i64 = -8_334_601_228_800;

/// The last second that `chrono` can hold as a date and time: the end of the
/// year 262142.
pub const LAST_SECOND: i64 = 8_210_266_876_799;

/// Whether `chrono` can hold the instant `secs` with `nanos` nanoseconds
/// beyond it: the second lies in its range of years, and the nanoseconds are
/// under one second, or under two in the last second of a minute, where they
/// stand for a leap second.
pub open spec fn utc_representable(secs: int, nanos: int) -> bool {
    &&& FIRST_SECOND <= secs <= LAST_SECOND
    &&& (nanos < 1_000_000_000 || (nanos < 2_000_000_000 && secs % 60 == 59))
}

/// `chrono::DateTime::from_timestamp`, read back with `DateTime::timestamp`.
/// Claimed of it: it accepts an instant exactly when the second lies between
/// the first day of `chrono`'s first year and the last day of its last year
/// and the nanoseconds are valid for that second, and an accepted instant
/// reads back as the same second.
#[verifier::external_body]
fn utc_timestamp(secs: i64, nanos: u32) -> (held: Option<i64>)
    ensures
        held == if utc_representable(secs as int, nanos as int) {
            Some(secs)
        } else {
            None::<i64>
        },
{
    match chrono::DateTime::from_timestamp(secs, nanos) {
        Some(at) => Some(at.timestamp()),
        None => None,
    }
}

/// The instant at which a token expires that was granted at `now`, with
/// `nanos` nanoseconds beyond that second, for `lifetime` seconds: `now +
/// lifetime`, and the epoch where that is no instant the calendar can hold.
pub open spec fn expiry(now: int, nanos: int, lifetime: int) -> int {
    if utc_representable(now + lifetime, nanos) {
        now + lifetime
    } else {
        0
    }
}

/// The instant at which a token expires that was granted at `now` for
/// `lifetime` seconds.
pub fn expiry_after(now: i64, nanos: u32, lifetime: i64) -> (at: i64)
    ensures
        at == expiry(now as int, nanos as int, lifetime as int),
{
    match now.checked_add(lifetime) {
        Some(sum) => match utc_timestamp(sum, nanos) {
            Some(at) => at,
            None => 0,
        },
        None => 0,
    }
}

/// Whether `chrono_tz` knows a time zone of the name `zone`.
pub uninterp spec fn zone_known(zone: Seq<char>) -> bool;

/// The instant `days` calendar days after `at` at the same local time in
/// the zone `zone`, as `chrono` computes it.
pub uninterp spec fn days_later(zone: Seq<char>, at: i64, days: u64) -> Option<i64>;

/// The instant of the local day of `at` in `zone` at which the clock shows
/// the hour `hour` and the minute and second of `at`.
pub uninterp spec fn at_hour(zone: Seq<char>, at: i64, hour: u32) -> Option<i64>;

/// As [`at_hour`], with the minute replaced.
pub uninterp spec fn at_minute(zone: Seq<char>, at: i64, minute: u32) -> Option<i64>;

/// As [`at_hour`], with the second replaced.
pub uninterp spec fn at_second(zone: Seq<char>, at: i64, second: u32) -> Option<i64>;

/// The instant at which the day `year`-`month`-`day` starts in `zone`.
pub uninterp spec fn midnight_of(zone: Seq<char>, year: i32, month: u32, day: u32) -> Option<i64>;

/// The hour that the clock shows in `zone` at the instant `at`.
pub uninterp spec fn hour_of(zone: Seq<char>, at: i64) -> Option<u32>;

/// The minute that the clock shows in `zone` at the instant `at`.
pub uninterp spec fn minute_of(zone: Seq<char>, at: i64) -> Option<u32>;

/// `<chrono_tz::Tz as FromStr>::from_str`, asked whether it accepts `zone`.
/// Claimed of it: whether it knows a name depends on the name alone.
#[verifier::external_body]
fn zone_is_known(zone: &str) -> (known: bool)
    ensures
        known == zone_known(zone@),
{
    zone.parse::<chrono_tz::Tz>().is_ok()
}

/// `iana_time_zone::get_timezone`: the name of the time zone the machine is
/// set to. Nothing is claimed of it.
#[verifier::external_body]
fn system_zone() -> (zone: Option<String>) {
    match iana_time_zone::get_timezone() {
        Ok(zone) => Some(zone),
        Err(_) => None,
    }
}

/// `chrono::DateTime::checked_add_days`. The zone is the one `chrono_tz`
/// knows by the name `zone`; the instant enters through
/// `TimeZone::timestamp_opt` and leaves through `DateTime::timestamp`.
/// Claimed of it: the result depends on the zone's name, the instant and the
/// number of days alone. There is none where the zone is not known, or
/// `chrono` cannot hold the instant or finds no single such instant.
#[verifier::external_body]
pub(crate) fn add_days(zone: &str, at: i64, days: u64) -> (moved: Option<i64>)
    ensures
        moved == days_later(zone@, at, days),
{
    let tz: chrono_tz::Tz = zone.parse().ok()?;
    let when = tz.timestamp_opt(at, 0).single()?;
    let moved = when.checked_add_days(chrono::Days::new(days))?;
    Some(moved.timestamp())
}

/// `chrono::Timelike::with_hour` of `chrono::DateTime`, with the zone and
/// the instant handed over as for [`add_days`]. Claimed of it: the result
/// depends on the zone's name, the instant and the hour alone.
#[verifier::external_body]
fn set_hour(zone: &str, at: i64, hour: u32) -> (moved: Option<i64>)
    ensures
        moved == at_hour(zone@, at, hour),
{
    let tz: chrono_tz::Tz = zone.parse().ok()?;
    let when = tz.timestamp_opt(at, 0).single()?;
    let moved = when.with_hour(hour)?;
    Some(moved.timestamp())
}

/// `chrono::Timelike::with_minute` of `chrono::DateTime`, with the zone and
/// the instant handed over as for [`add_days`]. Claimed of it: the result
/// depends on the zone's name, the instant and the minute alone.
#[verifier::external_body]
fn set_minute(zone: &str, at: i64, minute: u32) -> (moved: Option<i64>)
    ensures
        moved == at_minute(zone@, at, minute),
{
    let tz: chrono_tz::Tz = zone.parse().ok()?;
    let when = tz.timestamp_opt(at, 0).single()?;
    let moved = when.with_minute(minute)?;
    Some(moved.timestamp())
}

/// `chrono::Timelike::with_second` of `chrono::DateTime`, with the zone and
/// the instant handed over as for [`add_days`]. Claimed of it: the result
/// depends on the zone's name, the instant and the second alone.
#[verifier::external_body]
fn set_second(zone: &str, at: i64, second: u32) -> (moved: Option<i64>)
    ensures
        moved == at_second(zone@, at, second),
{
    let tz: chrono_tz::Tz = zone.parse().ok()?;
    let when = tz.timestamp_opt(at, 0).single()?;
    let moved = when.with_second(second)?;
    Some(moved.timestamp())
}

/// `chrono::TimeZone::from_local_datetime` on midnight of the given day,
/// which `NaiveDate::from_ymd_opt` makes of the three numbers, in the zone
/// `chrono_tz` knows by the name `zone`. Claimed of it: the result depends
/// on the zone's name and the day alone. There is none where the zone is not
/// known, the day is no calendar day, or midnight does not exist or occurs
/// twice on it.
#[verifier::external_body]
fn local_midnight(zone: &str, year: i32, month: u32, day: u32) -> (start: Option<i64>)
    ensures
        start == midnight_of(zone@, year, month, day),
{
    let tz: chrono_tz::Tz = zone.parse().ok()?;
    let date = chrono::NaiveDate::from_ymd_opt(year, month, day)?;
    let start = tz.from_local_datetime(&date.and_time(chrono::NaiveTime::default())).single()?;
    Some(start.timestamp())
}

/// `chrono::Timelike::hour` of `chrono::DateTime`, with the zone and the
/// instant handed over as for [`add_days`]. Claimed of it: the result depends
/// on the zone's name and the instant alone.
#[verifier::external_body]
pub(crate) fn local_hour(zone: &str, at: i64) -> (hour: Option<u32>)
    ensures
        hour == hour_of(zone@, at),
{
    let tz: chrono_tz::Tz = zone.parse().ok()?;
    let when = tz.timestamp_opt(at, 0).single()?;
    Some(when.hour())
}

/// `chrono::Timelike::minute` of `chrono::DateTime`, with the zone and the
/// instant handed over as for [`add_days`]. Claimed of it: the result depends
/// on the zone's name and the instant alone.
#[verifier::external_body]
pub(crate) fn local_minute(zone: &str, at: i64) -> (minute: Option<u32>)
    ensures
        minute == minute_of(zone@, at),
{
    let tz: chrono_tz::Tz = zone.parse().ok()?;
    let when = tz.timestamp_opt(at, 0).single()?;
    Some(when.minute())
}

/// The zone to read local times in, given the name the machine reports:
/// that name where the zone is known, "UTC" otherwise.
pub open spec fn zone_or_utc(reported: Option<Seq<char>>) -> Seq<char> {
    match reported {
        Some(zone) => if zone_known(zone) {
            zone
        } else {
            "UTC"@
        },
        None => "UTC"@,
    }
}

/// The zone to read local times in, given the name the machine reports.
pub fn choose_zone(reported: Option<String>) -> (zone: String)
    ensures
        zone@ == zone_or_utc(
            match reported {
                Some(name) => Some(name@),
                None => None,
            },
        ),
{
    match reported {
        Some(name) => if zone_is_known(name.as_str()) {
            name
        } else {
            String::from_str("UTC")
        },
        None => String::from_str("UTC"),
    }
}

/// The zone to read local times in: the zone the machine is set to, where
/// it reports one that is known, and "UTC" otherwise.
pub fn local_zone() -> (zone: String)
    ensures
        zone@ == "UTC"@ || zone_known(zone@),
{
    choose_zone(system_zone())
}

/// An instant together with the zone in which to read it.
pub struct LocalDateTime {
    pub timestamp: i64,
    pub zone: String,
}

/// `date_time` to be read in the zone of the machine. The instant stays the
/// same.
pub fn with_local_timezone(date_time: i64) -> (local: LocalDateTime)
    ensures
        local.timestamp == date_time,
        local.zone@ == "UTC"@ || zone_known(local.zone@),
{
    LocalDateTime { timestamp: date_time, zone: local_zone() }
}

/// The instant on the local day of `at` at which the clock in `zone` shows
/// `hour`:`minute`:00: the hour, then the minute, then the second of `at`
/// are replaced, and there is no such instant as soon as one step has none.
pub open spec fn time_on_day(zone: Seq<char>, at: Option<i64>, hour: u32, minute: u32) -> Option<i64> {
    match at {
        Some(at) => match at_hour(zone, at, hour) {
            Some(hour_set) => match at_minute(zone, hour_set, minute) {
                Some(minute_set) => at_second(zone, minute_set, 0),
                None => None,
            },
            None => None,
        },
        None => None,
    }
}

/// The instant on the local day of `at` at which the clock in `zone` shows
/// `hour`:`minute`:00.
pub fn on_day_at(zone: &str, at: Option<i64>, hour: u32, minute: u32) -> (moved: Option<i64>)
    ensures
        moved == time_on_day(zone@, at, hour, minute),
{
    let at = at?;
    let hour_set = set_hour(zone, at, hour)?;
    let minute_set = set_minute(zone, hour_set, minute)?;
    set_second(zone, minute_set, 0)
}

/// The span of instants a poll asks the provider for.
#[derive(Clone, Copy, Debug, PartialEq, Eq, Structural)]
pub struct PollWindow {
    /// The first instant asked for.
    pub time_min: i64,
    /// The first instant no longer asked for.
    pub time_max: i64,
}

/// Days from the start of the local day that a poll asks for.
pub const POLL_DAYS: u64 = 3;

/// The window of a poll whose bounds were computed as `time_min` and
/// `time_max`: there is one where both exist.
pub open spec fn window_of(time_min: Option<i64>, time_max: Option<i64>) -> Option<PollWindow> {
    match (time_min, time_max) {
        (Some(time_min), Some(time_max)) => Some(PollWindow { time_min, time_max }),
        _ => None,
    }
}

/// The window of a poll whose bounds were computed as `time_min` and
/// `time_max`.
pub fn window_from(time_min: Option<i64>, time_max: Option<i64>) -> (window: Option<PollWindow>)
    ensures
        window == window_of(time_min, time_max),
{
    match (time_min, time_max) {
        (Some(time_min), Some(time_max)) => Some(PollWindow { time_min, time_max }),
        _ => None,
    }
}

/// The window of a poll at `now` in `zone`: from the start of the local day
/// of `now` to the start of the local day three days later.
pub fn poll_window(now: i64, zone: &str) -> (window: Option<PollWindow>)
    ensures
        window == window_of(
            time_on_day(zone@, Some(now), 0, 0),
            time_on_day(zone@, days_later(zone@, now, POLL_DAYS), 0, 0),
        ),
{
    let time_min = on_day_at(zone, Some(now), 0, 0);
    let time_max = on_day_at(zone, add_days(zone, now, POLL_DAYS), 0, 0);
    window_from(time_min, time_max)
}

/// A calendar day.
#[derive(Clone, Copy, Debug, PartialEq, Eq, Structural)]
pub struct Date {
    pub year: i32,
    pub month: u32,
    pub day: u32,
}

/// When an event starts or ends, as the provider states it: an instant, or
/// for an all-day event a day.
#[derive(Clone, Copy, Debug, PartialEq, Eq, Structural)]
pub struct EventDateTime {
    pub date: Option<Date>,
    pub date_time: Option<i64>,
}

/// The instant that `stated` stands for, where `day_start` is the instant
/// at which its day starts in the local zone: the stated instant where there
/// is one, else the start of the stated day, else none.
pub open spec fn resolved(stated: EventDateTime, day_start: Option<i64>) -> Option<i64> {
    match stated.date_time {
        Some(at) => Some(at),
        None => match stated.date {
            Some(_) => day_start,
            None => None,
        },
    }
}

/// The instant that `stated` stands for, where `day_start` is the instant
/// at which its day starts in the local zone.
pub fn resolve(stated: EventDateTime, day_start: Option<i64>) -> (at: Option<i64>)
    ensures
        at == resolved(stated, day_start),
{
    match stated.date_time {
        Some(at) => Some(at),
        None => match stated.date {
            Some(_) => day_start,
            None => None,
        },
    }
}

/// The instant at which the stated day of `stated` starts in `zone`.
pub open spec fn day_start(stated: EventDateTime, zone: Seq<char>) -> Option<i64> {
    match stated.date {
        Some(date) => midnight_of(zone, date.year, date.month, date.day),
        None => None,
    }
}

/// The instant that `event_datetime` stands for in `zone`: the stated
/// instant, or for an all-day event the start of its day in that zone.
pub fn parse_event_datetime(event_datetime: EventDateTime, zone: &str) -> (at: Option<i64>)
    ensures
        at == resolved(event_datetime, day_start(event_datetime, zone@)),
{
    let start = match event_datetime.date {
        Some(date) => local_midnight(zone, date.year, date.month, date.day),
        None => None,
    };
    resolve(event_datetime, start)
}

} // verus!

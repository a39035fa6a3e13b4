//! How the notifier words times: the time of day of an event, and how far
//! off an event is.

use vstd::prelude::*;
use vstd::string::StringExecFns;
use crate::event::Event;
use crate::localtime::{day_start, hour_of, local_hour, local_minute, minute_of, parse_event_datetime, resolved, with_local_timezone, zone_known, EventDateTime, LocalDateTime};
use crate::text::optional_text;

verus! {

/// The text of a span of `seconds` seconds as `chrono_humanize` words it,
/// such as "in 2 minutes" or "an hour ago".
pub uninterp spec fn humanized(seconds: i64) -> Option<Seq<char>>;

/// `chrono_humanize::HumanTime::from` on a `chrono::Duration` of `seconds`
/// seconds, written out by its `Display`. Claimed of it: the text depends on
/// the number of seconds alone. There is none where `chrono` cannot hold
/// the span.
#[verifier::external_body]
fn humanize(seconds: i64) -> (text: Option<String>)
    ensures
        optional_text(text) == humanized(seconds),
{
    let span = chrono::Duration::try_seconds(seconds)?;
    Some(chrono_humanize::HumanTime::from(span).to_string())
}

/// The decimal digit `digit`.
pub open spec fn digit_text(digit: nat) -> Seq<char> {
    if digit == 0 {
        "0"@
    } else if digit == 1 {
        "1"@
    } else if digit == 2 {
        "2"@
    } else if digit == 3 {
        "3"@
    } else if digit == 4 {
        "4"@
    } else if digit == 5 {
        "5"@
    } else if digit == 6 {
        "6"@
    } else if digit == 7 {
        "7"@
    } else if digit == 8 {
        "8"@
    } else {
        "9"@
    }
}

/// `n` in decimal digits, without leading zeros.
pub open spec fn decimal(n: nat) -> Seq<char>
    decreases n,
{
    if n < 10 {
        digit_text(n)
    } else {
        decimal(n / 10) + digit_text(n % 10)
    }
}

/// The hour of a twelve-hour clock for the hour `hour` of the day.
pub open spec fn hour12(hour: nat) -> nat {
    if hour % 12 == 0 {
        12
    } else {
        hour % 12
    }
}

/// The time of day `hour`:`minute` on a twelve-hour clock: the hour without
/// a leading zero, the minute in two digits, then "AM" or "PM".
pub open spec fn clock_text(hour: nat, minute: nat) -> Seq<char> {
    decimal(hour12(hour)) + ":"@ + (if minute < 10 {
        "0"@ + decimal(minute)
    } else {
        decimal(minute)
    }) + " "@ + (if hour >= 12 {
        "PM"@
    } else {
        "AM"@
    })
}

fn digit(d: u32) -> (text: &'static str)
    requires
        d < 10,
    ensures
        text@ == digit_text(d as nat),
{
    if d == 0 {
        "0"
    } else if d == 1 {
        "1"
    } else if d == 2 {
        "2"
    } else if d == 3 {
        "3"
    } else if d == 4 {
        "4"
    } else if d == 5 {
        "5"
    } else if d == 6 {
        "6"
    } else if d == 7 {
        "7"
    } else if d == 8 {
        "8"
    } else {
        "9"
    }
}

/// `n` in decimal digits.
pub fn decimal_text(n: u32) -> (text: String)
    ensures
        text@ == decimal(n as nat),
    decreases n,
{
    if n < 10 {
        String::from_str(digit(n))
    } else {
        decimal_text(n / 10).concat(digit(n % 10))
    }
}

/// The time of day `hour`:`minute` as the notifier shows it, such as
/// "9:05 AM" or "12:30 PM".
pub fn readable_time(hour: u32, minute: u32) -> (text: String)
    ensures
        text@ == clock_text(hour as nat, minute as nat),
{
    let shown = if hour % 12 == 0 {
        12
    } else {
        hour % 12
    };
    let mut text = decimal_text(shown);
    text = text.concat(":");
    if minute < 10 {
        text = text.concat("0");
        assert(text@ == decimal(hour12(hour as nat)) + ":"@ + "0"@);
    }
    let ghost head = text@;
    text = text.concat(decimal_text(minute).as_str());
    assert(text@ =~= decimal(hour12(hour as nat)) + ":"@ + (if minute < 10 {
        "0"@ + decimal(minute as nat)
    } else {
        decimal(minute as nat)
    }));
    text = text.concat(" ");
    if hour >= 12 {
        text.concat("PM")
    } else {
        text.concat("AM")
    }
}

/// The time of day of `time` as the clock in its zone shows it, where the
/// zone is known and `chrono` can hold the instant.
pub fn get_human_readable_time(time: &LocalDateTime) -> (text: Option<String>)
    ensures
        optional_text(text) == match (
            hour_of(time.zone@, time.timestamp),
            minute_of(time.zone@, time.timestamp),
        ) {
            (Some(hour), Some(minute)) => Some(clock_text(hour as nat, minute as nat)),
            _ => None,
        },
{
    let hour = local_hour(time.zone.as_str(), time.timestamp);
    let minute = local_minute(time.zone.as_str(), time.timestamp);
    match (hour, minute) {
        (Some(hour), Some(minute)) => Some(readable_time(hour, minute)),
        _ => None,
    }
}

/// The start of `event`, to be read in the zone of the machine, where the
/// start is resolved.
pub fn get_date_time(event: &Event) -> (start: Option<LocalDateTime>)
    ensures
        match start {
            Some(local) => event@.start == Some(local.timestamp) && (local.zone@ == "UTC"@
                || zone_known(local.zone@)),
            None => event@.start is None,
        },
{
    match event.start {
        Some(at) => Some(with_local_timezone(at)),
        None => None,
    }
}

/// How far off the instant `at` is at `now`, in words: the text for the
/// span `at - now`, where there is an instant and the span fits.
pub open spec fn relative_text(at: Option<i64>, now: i64) -> Option<Seq<char>> {
    match at {
        Some(at) => if i64::MIN <= at - now <= i64::MAX {
            humanized((at - now) as i64)
        } else {
            None
        },
        None => None,
    }
}

/// How far off `event_datetime` is at `now`, in words, read in `zone`.
pub fn time_to_relative_format(event_datetime: EventDateTime, zone: &str, now: i64) -> (text: Option<
    String,
>)
    ensures
        optional_text(text) == relative_text(
            resolved(event_datetime, day_start(event_datetime, zone@)),
            now,
        ),
{
    let at = parse_event_datetime(event_datetime, zone)?;
    let span = at.checked_sub(now)?;
    humanize(span)
}

/// The line of the tray menu for an event: four spaces, the time of day,
/// two spaces, and the event's summary.
pub fn menu_label(time_text: &str, summary: &str) -> (label: String)
    ensures
        label@ == "    "@ + time_text@ + "  "@ + summary@,
{
    String::from_str("    ").concat(time_text).concat("  ").concat(summary)
}

} // verus!

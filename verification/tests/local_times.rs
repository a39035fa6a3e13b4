use notor::classify::Clock;
use notor::event::Event;
use notor::localtime::{choose_zone, local_zone, on_day_at, parse_event_datetime, poll_window, resolve, window_from, with_local_timezone, Date, EventDateTime, LocalDateTime, PollWindow};
use notor::utils::{decimal_text, get_date_time, get_human_readable_time, readable_time, time_to_relative_format};

const NOW: i64 = 1_710_084_600; // 2024-03-10 15:30:00 UTC

#[test]
fn unknown_zone_falls_back_to_utc() {
    assert_eq!(choose_zone(Some("Mars/Olympus".to_string())), "UTC");
    assert_eq!(choose_zone(Some(String::new())), "UTC");
    assert_eq!(choose_zone(None), "UTC");
    assert_eq!(choose_zone(Some("Europe/Berlin".to_string())), "Europe/Berlin");
    assert_eq!(choose_zone(Some("UTC".to_string())), "UTC");
}

#[test]
fn local_zone_is_usable() {
    let zone = local_zone();
    assert_eq!(choose_zone(Some(zone.clone())), zone);
    assert!(Clock::at(NOW, &zone).is_some());
    let local = with_local_timezone(NOW);
    assert_eq!(local.timestamp, NOW);
    assert_eq!(local.zone, zone);
}

#[test]
fn clock_in_utc() {
    let clock = Clock::at(NOW, "UTC").unwrap();
    assert_eq!(clock.now(), NOW);
    assert_eq!(clock.tomorrow_start(), 1_710_115_200);
    assert_eq!(clock.tomorrow_end(), 1_710_201_540);
}

#[test]
fn clock_across_a_daylight_saving_change() {
    // 2024-03-09 20:00 in New York; the next day is 23 hours long
    let now = 1_710_032_400;
    let clock = Clock::at(now, "America/New_York").unwrap();
    assert_eq!(clock.tomorrow_start(), 1_710_046_800);
    assert_eq!(clock.tomorrow_end(), 1_710_129_540);
}

#[test]
fn clock_in_an_unknown_zone_does_not_exist() {
    assert!(Clock::at(NOW, "Mars/Olympus").is_none());
    assert!(Clock::from_bounds(10, None, Some(30)).is_none());
    assert!(Clock::from_bounds(10, Some(20), None).is_none());
    assert!(Clock::from_bounds(10, Some(5), Some(30)).is_none());
    assert!(Clock::from_bounds(10, Some(20), Some(30)).is_some());
}

#[test]
fn poll_window_spans_three_local_days() {
    assert_eq!(
        poll_window(NOW, "UTC"),
        Some(PollWindow { time_min: 1_710_028_800, time_max: 1_710_288_000 })
    );
    assert_eq!(
        poll_window(1_710_032_400, "America/New_York"),
        Some(PollWindow { time_min: 1_709_960_400, time_max: 1_710_216_000 })
    );
    assert_eq!(poll_window(NOW, "Nowhere"), None);
    assert_eq!(window_from(Some(1), None), None);
    assert_eq!(window_from(None, Some(1)), None);
    assert_eq!(window_from(Some(1), Some(2)), Some(PollWindow { time_min: 1, time_max: 2 }));
}

#[test]
fn time_on_a_day_sets_hour_minute_and_second() {
    assert_eq!(on_day_at("UTC", Some(NOW + 17), 9, 5), Some(1_710_028_800 + 9 * 3600 + 5 * 60));
    assert_eq!(on_day_at("UTC", Some(NOW), 24, 0), None);
    assert_eq!(on_day_at("UTC", Some(NOW), 0, 60), None);
    assert_eq!(on_day_at("UTC", None, 0, 0), None);
    // 02:30 does not exist in New York on 2024-03-10
    assert_eq!(on_day_at("America/New_York", Some(1_710_046_800), 2, 30), None);
}

#[test]
fn stated_instant_wins_over_stated_day() {
    let both = EventDateTime { date: Some(Date { year: 2024, month: 7, day: 1 }), date_time: Some(42) };
    assert_eq!(parse_event_datetime(both, "America/New_York"), Some(42));
    assert_eq!(resolve(both, Some(7)), Some(42));
}

#[test]
fn all_day_event_starts_at_local_midnight() {
    let day = EventDateTime { date: Some(Date { year: 2024, month: 7, day: 1 }), date_time: None };
    assert_eq!(parse_event_datetime(day, "America/New_York"), Some(1_719_806_400));
    assert_eq!(parse_event_datetime(day, "UTC"), Some(1_719_792_000));
    assert_eq!(parse_event_datetime(day, "Nowhere"), None);
    assert_eq!(resolve(day, Some(7)), Some(7));
    assert_eq!(resolve(day, None), None);
}

#[test]
fn nothing_stated_resolves_to_nothing() {
    let nothing = EventDateTime { date: None, date_time: None };
    assert_eq!(parse_event_datetime(nothing, "UTC"), None);
    assert_eq!(resolve(nothing, Some(7)), None);
    let no_such_day = EventDateTime { date: Some(Date { year: 2024, month: 2, day: 30 }), date_time: None };
    assert_eq!(parse_event_datetime(no_such_day, "UTC"), None);
}

#[test]
fn readable_time_is_twelve_hour_with_two_digit_minutes() {
    assert_eq!(readable_time(0, 0), "12:00 AM");
    assert_eq!(readable_time(9, 5), "9:05 AM");
    assert_eq!(readable_time(11, 59), "11:59 AM");
    assert_eq!(readable_time(12, 0), "12:00 PM");
    assert_eq!(readable_time(13, 10), "1:10 PM");
    assert_eq!(readable_time(23, 9), "11:09 PM");
}

#[test]
fn decimal_text_has_no_leading_zeros() {
    assert_eq!(decimal_text(0), "0");
    assert_eq!(decimal_text(7), "7");
    assert_eq!(decimal_text(10), "10");
    assert_eq!(decimal_text(4_294_967_295), "4294967295");
}

#[test]
fn readable_time_of_an_instant_follows_the_zone() {
    let utc = LocalDateTime { timestamp: NOW, zone: "UTC".to_string() };
    assert_eq!(get_human_readable_time(&utc), Some("3:30 PM".to_string()));
    let kolkata = LocalDateTime { timestamp: NOW, zone: "Asia/Kolkata".to_string() };
    assert_eq!(get_human_readable_time(&kolkata), Some("9:00 PM".to_string()));
    let nowhere = LocalDateTime { timestamp: NOW, zone: "Nowhere".to_string() };
    assert_eq!(get_human_readable_time(&nowhere), None);
}

#[test]
fn relative_format_words_the_distance() {
    let at = EventDateTime { date: None, date_time: Some(NOW + 120) };
    assert_eq!(time_to_relative_format(at, "UTC", NOW), Some("in 2 minutes".to_string()));
    assert_eq!(time_to_relative_format(at, "UTC", NOW + 120 + 3 * 3600), Some("3 hours ago".to_string()));
    assert_eq!(time_to_relative_format(at, "UTC", NOW + 120), Some("now".to_string()));
    let nothing = EventDateTime { date: None, date_time: None };
    assert_eq!(time_to_relative_format(nothing, "UTC", NOW), None);
    let far = EventDateTime { date: None, date_time: Some(i64::MAX) };
    assert_eq!(time_to_relative_format(far, "UTC", -1), None);
    assert_eq!(time_to_relative_format(far, "UTC", 0), None);
}

#[test]
fn date_time_of_an_event_is_its_start() {
    let mut e = Event {
        id: "e".to_string(),
        summary: "s".to_string(),
        start: Some(NOW),
        end: None,
        creator: None,
        attendees: vec![],
    };
    let local = get_date_time(&e).unwrap();
    assert_eq!(local.timestamp, NOW);
    assert_eq!(local.zone, local_zone());
    e.start = None;
    assert!(get_date_time(&e).is_none());
}

use notor::preferences::{AccountPreference, Preferences};

fn hidden(prefs: &Preferences, email: &str) -> Vec<String> {
    prefs.get_account_preference(email).hidden_calendars
}

#[test]
fn unknown_account_has_no_choices() {
    let prefs = Preferences::default();
    assert!(hidden(&prefs, "a@x.com").is_empty());
    assert!(!prefs.is_calendar_hidden("a@x.com", &"cal".to_string()));
    assert!(prefs.accounts().is_empty());
    assert_eq!(prefs.storage_path(), "");
    assert!(!prefs.notify_only_meetings());
}

#[test]
fn hide_lists_a_calendar_once() {
    let mut prefs = Preferences::default();
    assert_eq!(prefs.hide_calendar("a@x.com".to_string(), "cal".to_string()), Ok(()));
    assert_eq!(prefs.hide_calendar("a@x.com".to_string(), "cal".to_string()), Ok(()));
    prefs.hide_calendar("a@x.com".to_string(), "other".to_string()).unwrap();
    assert_eq!(hidden(&prefs, "a@x.com"), vec!["cal", "other"]);
    assert!(prefs.is_calendar_hidden("a@x.com", &"cal".to_string()));
    assert!(!prefs.is_calendar_hidden("a@x.com", &"third".to_string()));
    assert!(!prefs.is_calendar_hidden("b@x.com", &"cal".to_string()));
    assert_eq!(prefs.accounts().len(), 1);
}

#[test]
fn show_takes_the_calendar_out() {
    let mut prefs = Preferences::default();
    prefs.hide_calendar("a@x.com".to_string(), "one".to_string()).unwrap();
    prefs.hide_calendar("a@x.com".to_string(), "two".to_string()).unwrap();
    prefs.hide_calendar("b@x.com".to_string(), "one".to_string()).unwrap();
    assert_eq!(prefs.show_calendar("a@x.com".to_string(), "one".to_string()), Ok(()));
    assert_eq!(hidden(&prefs, "a@x.com"), vec!["two"]);
    assert_eq!(hidden(&prefs, "b@x.com"), vec!["one"]);
    prefs.show_calendar("a@x.com".to_string(), "never-hidden".to_string()).unwrap();
    assert_eq!(hidden(&prefs, "a@x.com"), vec!["two"]);
}

#[test]
fn show_lists_an_unknown_account_with_no_choices() {
    let mut prefs = Preferences::default();
    prefs.show_calendar("a@x.com".to_string(), "cal".to_string()).unwrap();
    let accounts = prefs.accounts();
    assert_eq!(accounts.len(), 1);
    assert_eq!(accounts[0].0, "a@x.com");
    assert!(accounts[0].1.hidden_calendars.is_empty());
}

#[test]
fn new_keeps_the_last_pair_of_an_email() {
    let prefs = Preferences::new(
        "/tmp/preferences.json".to_string(),
        true,
        vec![
            ("a@x.com".to_string(), AccountPreference { hidden_calendars: vec!["1".to_string()] }),
            ("b@x.com".to_string(), AccountPreference { hidden_calendars: vec![] }),
            ("a@x.com".to_string(), AccountPreference { hidden_calendars: vec!["2".to_string()] }),
        ],
    );
    assert_eq!(prefs.accounts().len(), 2);
    assert_eq!(hidden(&prefs, "a@x.com"), vec!["2"]);
    assert_eq!(prefs.storage_path(), "/tmp/preferences.json");
    assert!(prefs.notify_only_meetings());
}

#[test]
fn state_for_display_hides_the_path() {
    let mut prefs = Preferences::new("/secret/path.json".to_string(), false, vec![]);
    prefs.hide_calendar("a@x.com".to_string(), "cal".to_string()).unwrap();
    prefs.set_notify_only_meetings(true);
    let state = prefs.get_state();
    assert_eq!(state.storage_path(), "[redacted]");
    assert!(state.notify_only_meetings());
    assert_eq!(hidden(&state, "a@x.com"), vec!["cal"]);
    assert_eq!(prefs.storage_path(), "/secret/path.json");
}

#[test]
fn account_preference_hides_what_it_lists() {
    let p = AccountPreference { hidden_calendars: vec!["a".to_string()] };
    assert!(p.hides("a"));
    assert!(!p.hides("b"));
    assert!(!AccountPreference::default().hides("a"));
    assert_eq!(p.clone().hidden_calendars, vec!["a"]);
}

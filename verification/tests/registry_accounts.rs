use notor::account::{AuthError, RefreshResponse};
use notor::classify::Clock;
use notor::event::Event;
use notor::preferences::{AccountPreference, Preferences};
use notor::registry::{AccountListings, Calendars, RegistryError};
use notor::types::{AppCredentials, GoogleAuthToken, UserInfo};

fn user(email: &str) -> UserInfo {
    UserInfo {
        id: format!("id-{}", email),
        email: email.to_string(),
        verified_email: true,
        name: "Name".to_string(),
        given_name: "Given".to_string(),
        family_name: "Family".to_string(),
        picture: String::new(),
        locale: "en".to_string(),
    }
}

fn token(email: &str, access: &str) -> GoogleAuthToken {
    GoogleAuthToken {
        access_token: access.to_string(),
        token_type: "Bearer".to_string(),
        expires_in: 3600,
        refresh_token: Some(format!("refresh-{}", email)),
        scope: "calendar".to_string(),
        expires_at: Some(2_000),
        user: Some(user(email)),
        disabled: None,
    }
}

fn registry(tokens: Vec<GoogleAuthToken>) -> Calendars {
    Calendars::new(tokens, AppCredentials::default(), &Preferences::default())
}

fn emails(registry: &Calendars) -> Vec<String> {
    registry.get_tokens().unwrap().iter().map(|t| t.user.clone().unwrap().email).collect()
}

fn event(id: &str, start: i64, creator: &str) -> Event {
    Event {
        id: id.to_string(),
        summary: id.to_string(),
        start: Some(start),
        end: Some(start + 600),
        creator: Some(creator.to_string()),
        attendees: vec![],
    }
}

#[test]
fn add_keeps_one_account_per_email_and_the_last_token() {
    let mut reg = registry(vec![]);
    let prefs = Preferences::default();
    assert_eq!(reg.add_account(token("a@x.com", "first"), &prefs), Ok(()));
    assert_eq!(reg.add_account(token("b@x.com", "other"), &prefs), Ok(()));
    assert_eq!(reg.add_account(token("a@x.com", "second"), &prefs), Ok(()));
    assert_eq!(reg.account_count(), 2);
    let tokens = reg.get_tokens().unwrap();
    assert_eq!(emails(&reg), vec!["b@x.com", "a@x.com"]);
    assert_eq!(tokens[1].access_token, "second");
    assert_eq!(tokens[0].access_token, "other");
}

#[test]
fn add_refuses_a_token_without_identity() {
    let mut reg = registry(vec![token("a@x.com", "t")]);
    let mut anonymous = token("ghost@x.com", "t2");
    anonymous.user = None;
    assert_eq!(
        reg.add_account(anonymous, &Preferences::default()),
        Err(RegistryError::MissingIdentity)
    );
    assert_eq!(emails(&reg), vec!["a@x.com"]);
}

#[test]
fn snapshot_after_add_holds_the_token() {
    let mut reg = registry(vec![]);
    reg.add_account(token("a@x.com", "secret-access"), &Preferences::default()).unwrap();
    let tokens = reg.get_tokens().unwrap();
    assert_eq!(tokens.len(), 1);
    assert_eq!(tokens[0].user.as_ref().unwrap().email, "a@x.com");
    assert_eq!(tokens[0].access_token, "secret-access");
    assert_eq!(tokens[0].refresh_token.as_deref(), Some("refresh-a@x.com"));
    assert_eq!(tokens[0].expires_at, Some(2_000));
}

#[test]
fn new_keeps_the_last_token_of_each_email() {
    let reg = registry(vec![token("a@x.com", "1"), token("b@x.com", "2"), token("a@x.com", "3")]);
    assert_eq!(emails(&reg), vec!["b@x.com", "a@x.com"]);
    assert_eq!(reg.get_tokens().unwrap()[1].access_token, "3");
    assert!(reg.active_events().is_empty());
    assert!(reg.upcoming_events().is_empty());
    assert!(reg.tomorrow_events().is_empty());
}

#[test]
fn remove_on_single_account_does_nothing() {
    let mut reg = registry(vec![token("a@x.com", "t")]);
    assert_eq!(reg.remove_account("a@x.com".to_string(), &Preferences::default()), Ok(()));
    assert_eq!(emails(&reg), vec!["a@x.com"]);
    assert_eq!(reg.remove_account("other@x.com".to_string(), &Preferences::default()), Ok(()));
    assert_eq!(emails(&reg), vec!["a@x.com"]);
}

#[test]
fn remove_takes_out_the_named_account() {
    let mut reg = registry(vec![token("a@x.com", "1"), token("b@x.com", "2"), token("c@x.com", "3")]);
    reg.remove_account("b@x.com".to_string(), &Preferences::default()).unwrap();
    assert_eq!(emails(&reg), vec!["a@x.com", "c@x.com"]);
    reg.remove_account("nobody@x.com".to_string(), &Preferences::default()).unwrap();
    assert_eq!(emails(&reg), vec!["a@x.com", "c@x.com"]);
    reg.remove_account("a@x.com".to_string(), &Preferences::default()).unwrap();
    assert_eq!(emails(&reg), vec!["c@x.com"]);
    reg.remove_account("c@x.com".to_string(), &Preferences::default()).unwrap();
    assert_eq!(emails(&reg), vec!["c@x.com"]);
}

#[test]
fn remove_on_empty_registry_stays_empty() {
    let mut reg = registry(vec![]);
    reg.remove_account("a@x.com".to_string(), &Preferences::default()).unwrap();
    assert_eq!(reg.account_count(), 0);
}

#[test]
fn disable_and_enable_flip_only_the_named_account() {
    let mut reg = registry(vec![token("a@x.com", "1"), token("b@x.com", "2")]);
    reg.disable_account("a@x.com".to_string()).unwrap();
    let tokens = reg.get_tokens().unwrap();
    assert_eq!(tokens[0].disabled, Some(true));
    assert_eq!(tokens[1].disabled, None);
    // a second time changes nothing
    reg.disable_account("a@x.com".to_string()).unwrap();
    assert_eq!(reg.get_tokens().unwrap()[0].disabled, Some(true));
    assert_eq!(reg.account_count(), 2);
    reg.enable_account("a@x.com".to_string()).unwrap();
    assert_eq!(reg.get_tokens().unwrap()[0].disabled, Some(false));
    reg.enable_account("a@x.com".to_string()).unwrap();
    assert_eq!(reg.get_tokens().unwrap()[0].disabled, Some(false));
    reg.disable_account("nobody@x.com".to_string()).unwrap();
    assert_eq!(reg.get_tokens().unwrap()[1].disabled, None);
}

#[test]
fn poll_plan_leaves_out_disabled_accounts_and_hidden_calendars() {
    let mut prefs = Preferences::default();
    prefs.hide_calendar("a@x.com".to_string(), "holidays".to_string()).unwrap();
    let mut reg = Calendars::new(
        vec![token("a@x.com", "1"), token("b@x.com", "2")],
        AppCredentials::default(),
        &prefs,
    );
    reg.set_calendar_list(
        "a@x.com",
        &vec!["primary".to_string(), "holidays".to_string(), "team".to_string()],
    );
    reg.set_calendar_list("b@x.com", &vec!["primary".to_string()]);
    reg.disable_account("b@x.com".to_string()).unwrap();

    let plan = reg.poll_plan(1_000);
    assert_eq!(plan.len(), 1);
    assert_eq!(plan[0].email, "a@x.com");
    assert_eq!(plan[0].calendars, vec!["primary", "team"]);
    assert_eq!(plan[0].refresh, Ok(None));

    // at the expiry the token has to be renewed first
    let plan = reg.poll_plan(2_000);
    assert_eq!(plan[0].refresh, Ok(Some("refresh-a@x.com".to_string())));
}

#[test]
fn poll_plan_reports_an_account_that_cannot_be_renewed() {
    let mut t = token("a@x.com", "1");
    t.refresh_token = None;
    let reg = registry(vec![t]);
    assert_eq!(reg.poll_plan(5_000)[0].refresh, Err(AuthError::ReauthenticationRequired));
    assert_eq!(reg.poll_plan(1_999)[0].refresh, Ok(None));
}

#[test]
fn set_preferences_reads_the_choices_of_the_account() {
    let mut reg = registry(vec![token("a@x.com", "1")]);
    reg.set_calendar_list("a@x.com", &vec!["primary".to_string(), "team".to_string()]);
    let mut prefs = Preferences::default();
    prefs.hide_calendar("a@x.com".to_string(), "team".to_string()).unwrap();
    reg.set_preferences("a@x.com".to_string(), &prefs);
    assert_eq!(reg.poll_plan(0)[0].calendars, vec!["primary"]);
    prefs.show_calendar("a@x.com".to_string(), "team".to_string()).unwrap();
    reg.set_preferences("a@x.com".to_string(), &prefs);
    assert_eq!(reg.poll_plan(0)[0].calendars, vec!["primary", "team"]);
}

#[test]
fn registry_refresh_renews_the_named_account_only() {
    let mut reg = registry(vec![token("a@x.com", "old-a"), token("b@x.com", "old-b")]);
    let granted = RefreshResponse::Granted { access_token: "new-a".to_string(), expires_in: 3600 };
    assert_eq!(reg.refresh_token("a@x.com", &granted, 5_000, 0), Ok(Some(true)));
    let tokens = reg.get_tokens().unwrap();
    assert_eq!(tokens[0].access_token, "new-a");
    assert_eq!(tokens[0].expires_at, Some(8_600));
    assert_eq!(tokens[0].expires_in, 3600);
    assert_eq!(tokens[0].refresh_token.as_deref(), Some("refresh-a@x.com"));
    assert_eq!(tokens[1].access_token, "old-b");
    assert_eq!(tokens[1].expires_at, Some(2_000));
    // unknown account: nothing to do
    assert_eq!(reg.refresh_token("nobody@x.com", &granted, 5_000, 0), Ok(None));
    // failure leaves the token untouched
    assert_eq!(
        reg.refresh_token("b@x.com", &RefreshResponse::Rejected, 5_000, 0),
        Err(AuthError::Rejected)
    );
    assert_eq!(reg.get_tokens().unwrap()[1].access_token, "old-b");
}

#[test]
fn poll_events_gathers_relevant_events_of_enabled_accounts() {
    let mut reg = registry(vec![token("a@x.com", "1"), token("b@x.com", "2")]);
    reg.disable_account("b@x.com".to_string()).unwrap();
    let now = 1_710_084_600;
    let clock = Clock::new(now, 1_710_115_200, 1_710_201_540).unwrap();
    let mut invited = event("invited", now + 300, "boss@x.com");
    invited.attendees = vec!["z@x.com".to_string(), "a@x.com".to_string()];
    let fetched = vec![
        AccountListings {
            email: "a@x.com".to_string(),
            refresh: Ok(Some(true)),
            listings: vec![
                Some(vec![event("mine", now + 120, "a@x.com"), event("foreign", now + 60, "c@x.com")]),
                None,
                Some(vec![invited, event("running", now - 60, "a@x.com")]),
            ],
        },
        AccountListings {
            email: "b@x.com".to_string(),
            refresh: Ok(None),
            listings: vec![Some(vec![event("disabled", now + 10, "b@x.com")])],
        },
        AccountListings {
            email: "unknown@x.com".to_string(),
            refresh: Ok(None),
            listings: vec![Some(vec![event("stray", now + 10, "unknown@x.com")])],
        },
    ];
    reg.poll_events(&fetched, &clock);
    let upcoming: Vec<String> = reg.upcoming_events().iter().map(|e| e.id.clone()).collect();
    assert_eq!(upcoming, vec!["mine", "invited"]);
    let active: Vec<String> = reg.active_events().iter().map(|e| e.id.clone()).collect();
    assert_eq!(active, vec!["running"]);
    assert!(reg.tomorrow_events().is_empty());

    // the next poll replaces the groups; nothing stale stays
    reg.poll_events(&vec![], &clock);
    assert!(reg.upcoming_events().is_empty());
    assert!(reg.active_events().is_empty());
    let groups = reg.event_groups();
    assert!(groups.now.is_empty() && groups.upcoming.is_empty() && groups.tomorrow.is_empty());
}

#[test]
fn an_event_shared_by_two_accounts_is_listed_twice() {
    let mut reg = registry(vec![token("a@x.com", "1"), token("b@x.com", "2")]);
    let now = 1_710_084_600;
    let clock = Clock::new(now, 1_710_115_200, 1_710_201_540).unwrap();
    let mut shared = event("shared", now + 300, "a@x.com");
    shared.attendees = vec!["b@x.com".to_string()];
    let fetched = vec![
        AccountListings {
            email: "a@x.com".to_string(),
            refresh: Ok(None),
            listings: vec![Some(vec![shared.clone()])],
        },
        AccountListings {
            email: "b@x.com".to_string(),
            refresh: Ok(None),
            listings: vec![Some(vec![shared])],
        },
    ];
    reg.poll_events(&fetched, &clock);
    assert_eq!(reg.upcoming_events().len(), 2);
}

#[test]
fn group_events_classifies_the_last_poll_anew() {
    let mut reg = registry(vec![token("a@x.com", "1")]);
    let now = 1_710_084_600;
    let clock = Clock::new(now, 1_710_115_200, 1_710_201_540).unwrap();
    let fetched = vec![AccountListings {
        email: "a@x.com".to_string(),
        refresh: Ok(None),
        listings: vec![Some(vec![event("e", now + 120, "a@x.com")])],
    }];
    reg.poll_events(&fetched, &clock);
    assert_eq!(reg.upcoming_events().len(), 1);
    let later = Clock::new(now + 130, 1_710_115_200, 1_710_201_540).unwrap();
    reg.group_events(&later);
    assert!(reg.upcoming_events().is_empty());
    assert_eq!(reg.active_events().len(), 1);
}

#[test]
fn default_registry_is_empty() {
    let reg = Calendars::default();
    assert_eq!(reg.account_count(), 0);
    assert!(reg.get_tokens().unwrap().is_empty());
    assert_eq!(reg.config().google_client_id, "");
}

#[test]
fn added_account_gets_its_listed_choices() {
    let prefs = Preferences::new(
        "p.json".to_string(),
        false,
        vec![("a@x.com".to_string(), AccountPreference { hidden_calendars: vec!["x".to_string()] })],
    );
    let mut reg = registry(vec![]);
    reg.add_account(token("a@x.com", "1"), &prefs).unwrap();
    reg.set_calendar_list("a@x.com", &vec!["x".to_string(), "y".to_string()]);
    assert_eq!(reg.poll_plan(0)[0].calendars, vec!["y"]);
}

#[test]
fn an_account_whose_refresh_failed_contributes_nothing() {
    let mut reg = registry(vec![token("a@x.com", "1"), token("b@x.com", "2")]);
    let now = 1_710_084_600;
    let clock = Clock::new(now, 1_710_115_200, 1_710_201_540).unwrap();
    for failure in [AuthError::Rejected, AuthError::Transport, AuthError::ReauthenticationRequired] {
        let fetched = vec![
            AccountListings {
                email: "a@x.com".to_string(),
                refresh: Err(failure),
                listings: vec![Some(vec![event("of-a", now + 60, "a@x.com")])],
            },
            AccountListings {
                email: "b@x.com".to_string(),
                refresh: Ok(Some(false)),
                listings: vec![Some(vec![event("of-b", now + 90, "b@x.com")])],
            },
        ];
        reg.poll_events(&fetched, &clock);
        let upcoming: Vec<String> = reg.upcoming_events().iter().map(|e| e.id.clone()).collect();
        assert_eq!(upcoming, vec!["of-b"]);
    }
}

#[test]
fn enter_account_renews_an_expired_token() {
    let mut reg = registry(vec![token("b@x.com", "other")]);
    let granted = RefreshResponse::Granted { access_token: "fresh".to_string(), expires_in: 600 };
    assert_eq!(
        reg.enter_account(token("a@x.com", "stale"), &Preferences::default(), Some(&granted), 5_000, 0),
        Ok(())
    );
    let tokens = reg.get_tokens().unwrap();
    assert_eq!(emails(&reg), vec!["b@x.com", "a@x.com"]);
    assert_eq!(tokens[1].access_token, "fresh");
    assert_eq!(tokens[1].expires_in, 600);
    assert_eq!(tokens[1].expires_at, Some(5_600));
    // a valid token enters as it is, and replaces the account of its email
    assert_eq!(
        reg.enter_account(token("a@x.com", "valid"), &Preferences::default(), Some(&granted), 1_000, 0),
        Ok(())
    );
    let tokens = reg.get_tokens().unwrap();
    assert_eq!(tokens.len(), 2);
    assert_eq!(tokens[1].access_token, "valid");
    assert_eq!(tokens[1].expires_at, Some(2_000));
}

#[test]
fn enter_account_refuses_a_token_without_identity() {
    let mut reg = registry(vec![token("a@x.com", "t")]);
    let mut anonymous = token("ghost@x.com", "t2");
    anonymous.user = None;
    let granted = RefreshResponse::Granted { access_token: "fresh".to_string(), expires_in: 600 };
    assert_eq!(
        reg.enter_account(anonymous, &Preferences::default(), Some(&granted), 5_000, 0),
        Err(RegistryError::MissingIdentity)
    );
    assert_eq!(emails(&reg), vec!["a@x.com"]);
}

#[test]
fn registry_refresh_without_refresh_token_asks_for_sign_in() {
    let mut t = token("a@x.com", "held");
    t.refresh_token = None;
    let mut reg = registry(vec![t]);
    let granted = RefreshResponse::Granted { access_token: "new".to_string(), expires_in: 60 };
    // valid (expiry 2000) or expired: the report is the same
    assert_eq!(reg.refresh_token("a@x.com", &granted, 1_000, 0), Err(AuthError::ReauthenticationRequired));
    assert_eq!(reg.refresh_token("a@x.com", &granted, 5_000, 0), Err(AuthError::ReauthenticationRequired));
    assert_eq!(reg.get_tokens().unwrap()[0].access_token, "held");
}

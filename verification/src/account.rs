//! One signed-in calendar account: its token, its calendars, and which of a
//! poll's events concern it.

use vstd::prelude::*;
use crate::event::{event_views, Event, EventView};
use crate::localtime::{expiry, expiry_after};
use crate::preferences::{AccountPreference, AccountPreferenceView};
use crate::text::{clone_optional_text, clone_texts, same_text, texts};
use crate::types::{GoogleAuthToken, GoogleAuthTokenView};

verus! {

/// Why a token could not be renewed.
#[derive(Clone, Copy, Debug, PartialEq, Eq, Structural)]
pub enum AuthError {
    /// The account has no refresh token: the user has to sign in again.
    ReauthenticationRequired,
    /// The provider refused the refresh token: the user has to sign in again.
    Rejected,
    /// The request did not reach the provider or came back unreadable; the
    /// next poll tries again.
    Transport,
}

/// What the provider's token endpoint answered to a refresh request.
pub enum RefreshResponse {
    Granted { access_token: String, expires_in: i64 },
    Rejected,
    Failed,
}

/// What a [`RefreshResponse`] holds.
pub enum RefreshResponseView {
    Granted { access_token: Seq<char>, expires_in: i64 },
    Rejected,
    Failed,
}

impl View for RefreshResponse {
    type V = RefreshResponseView;

    open spec fn view(&self) -> RefreshResponseView {
        match self {
            RefreshResponse::Granted { access_token, expires_in } => RefreshResponseView::Granted {
                access_token: access_token@,
                expires_in: *expires_in,
            },
            RefreshResponse::Rejected => RefreshResponseView::Rejected,
            RefreshResponse::Failed => RefreshResponseView::Failed,
        }
    }
}

/// What a refresh at `now` reports for `token` when the provider answered
/// `response`. A token without a refresh token cannot be refreshed, valid or
/// not: the report is the error that asks for a new sign-in. Otherwise
/// there is nothing to do while the token is valid; the report is an error
/// where the provider did not grant a token, `false` where it granted an
/// empty access token, and `true` where the token is renewed.
pub open spec fn refresh_report(
    token: GoogleAuthTokenView,
    response: RefreshResponseView,
    now: int,
) -> Result<Option<bool>, AuthError> {
    if token.refresh_token is None {
        Err(AuthError::ReauthenticationRequired)
    } else if !token.expired_at(now) {
        Ok(None)
    } else {
        match response {
            RefreshResponseView::Rejected => Err(AuthError::Rejected),
            RefreshResponseView::Failed => Err(AuthError::Transport),
            RefreshResponseView::Granted { access_token, expires_in } => if access_token.len() == 0 {
                Ok(Some(false))
            } else {
                Ok(Some(true))
            },
        }
    }
}

/// The refresh token to send to the provider for `token` at `now`: none
/// while the access token is valid, an error where there is none to send.
pub open spec fn refresh_need(token: GoogleAuthTokenView, now: int) -> Result<
    Option<Seq<char>>,
    AuthError,
> {
    if !token.expired_at(now) {
        Ok(None)
    } else {
        match token.refresh_token {
            Some(sent) => Ok(Some(sent)),
            None => Err(AuthError::ReauthenticationRequired),
        }
    }
}

/// The text of a refresh token to send, or the error in its place.
pub open spec fn need_view(need: Result<Option<String>, AuthError>) -> Result<
    Option<Seq<char>>,
    AuthError,
> {
    match need {
        Ok(Some(sent)) => Ok(Some(sent@)),
        Ok(None) => Ok(None),
        Err(e) => Err(e),
    }
}

/// The token after a refresh at `now`, `nanos` nanoseconds into that second:
/// where the refresh reports `true`, the granted access token and lifetime
/// with the expiry that follows from them; the token as it was otherwise.
pub open spec fn refreshed_token(
    token: GoogleAuthTokenView,
    response: RefreshResponseView,
    now: int,
    nanos: int,
) -> GoogleAuthTokenView {
    match response {
        RefreshResponseView::Granted { access_token, expires_in } => if refresh_report(
            token,
            response,
            now,
        ) == Ok::<Option<bool>, AuthError>(Some(true)) {
            GoogleAuthTokenView {
                access_token,
                expires_in,
                expires_at: Some(expiry(now, nanos, expires_in as int) as i64),
                ..token
            }
        } else {
            token
        },
        _ => token,
    }
}

/// What an optional answer of the provider holds.
pub open spec fn renewal_view(renewal: Option<&RefreshResponse>) -> Option<RefreshResponseView> {
    match renewal {
        Some(response) => Some(response@),
        None => None,
    }
}

/// The token with which an account is built at `now`, `nanos` nanoseconds
/// into that second, from `token` and the provider's answer to the refresh
/// that building it asked for. A valid token stays as it is, and so does an
/// expired one where there is no answer or the provider granted nothing.
/// Where it granted a token, the access token is the granted one unless
/// that is empty, the lifetime is the granted one unless that is 0, and the
/// expiry is `now` plus the granted lifetime in either case.
pub open spec fn entered_token(
    token: GoogleAuthTokenView,
    renewal: Option<RefreshResponseView>,
    now: int,
    nanos: int,
) -> GoogleAuthTokenView {
    if !token.expired_at(now) {
        token
    } else {
        match renewal {
            Some(RefreshResponseView::Granted { access_token, expires_in }) => GoogleAuthTokenView {
                access_token: if access_token.len() == 0 {
                    token.access_token
                } else {
                    access_token
                },
                expires_in: if expires_in == 0 {
                    token.expires_in
                } else {
                    expires_in
                },
                expires_at: Some(expiry(now, nanos, expires_in as int) as i64),
                ..token
            },
            _ => token,
        }
    }
}

/// The token with which an account is built at `now` from `token` and the
/// provider's answer to the refresh that building it asked for.
pub fn enter_token(token: GoogleAuthToken, renewal: Option<&RefreshResponse>, now: i64, nanos: u32) -> (entered:
    GoogleAuthToken)
    ensures
        entered@ == entered_token(token@, renewal_view(renewal), now as int, nanos as int),
{
    if !token.is_expired(now) {
        return token;
    }
    match renewal {
        Some(RefreshResponse::Granted { access_token, expires_in }) => {
            let mut entered = token;
            if !access_token.as_str().is_empty() {
                entered.access_token = access_token.clone();
            }
            if *expires_in != 0 {
                entered.expires_in = *expires_in;
            }
            entered.expires_at = Some(expiry_after(now, nanos, *expires_in));
            entered
        },
        _ => token,
    }
}

/// One account of the registry. Its token names the person it belongs to.
pub struct CalenderAccount {
    token: GoogleAuthToken,
    calendar_list: Vec<String>,
    preferences: AccountPreference,
}

/// What a [`CalenderAccount`] holds.
pub struct CalenderAccountView {
    pub token: GoogleAuthTokenView,
    /// Identifiers of the account's calendars, as the provider listed them.
    pub calendar_list: Seq<Seq<char>>,
    pub preferences: AccountPreferenceView,
}

impl CalenderAccountView {
    /// The email the account is known by.
    pub open spec fn email(self) -> Seq<char> {
        match self.token.user {
            Some(user) => user.email,
            None => Seq::empty(),
        }
    }

    /// The calendars of the account that are polled: those it does not hide,
    /// in the order of the provider's list.
    pub open spec fn visible_calendars(self) -> Seq<Seq<char>> {
        self.calendar_list.filter(|id: Seq<char>| !self.preferences.hidden_calendars.contains(id))
    }
}

impl View for CalenderAccount {
    type V = CalenderAccountView;

    closed spec fn view(&self) -> CalenderAccountView {
        CalenderAccountView {
            token: self.token@,
            calendar_list: texts(self.calendar_list@),
            preferences: self.preferences@,
        }
    }
}

impl Clone for CalenderAccount {
    fn clone(&self) -> (copy: Self)
        ensures
            copy@ == self@,
    {
        proof {
            use_type_invariant(self);
        }
        CalenderAccount {
            token: self.token.clone(),
            calendar_list: clone_texts(&self.calendar_list),
            preferences: self.preferences.clone(),
        }
    }
}

impl CalenderAccount {
    #[verifier::type_invariant]
    spec fn identified(self) -> bool {
        self.token.user is Some
    }

    /// An account built at `now`, `nanos` nanoseconds into that second, with
    /// the given choices and no calendars yet. `renewal` is the provider's
    /// answer to the refresh that is asked for where `token` is expired, and
    /// `None` where none was asked for. The account holds `token` as
    /// [`entered_token`] says: renewed where the token was expired and the
    /// provider granted one, as it is otherwise.
    pub fn new(
        token: GoogleAuthToken,
        preferences: AccountPreference,
        renewal: Option<&RefreshResponse>,
        now: i64,
        nanos: u32,
    ) -> (account: Self)
        requires
            token@.user is Some,
        ensures
            account@ == (CalenderAccountView {
                token: entered_token(token@, renewal_view(renewal), now as int, nanos as int),
                calendar_list: Seq::empty(),
                preferences: preferences@,
            }),
    {
        let account = CalenderAccount {
            token: enter_token(token, renewal, now, nanos),
            calendar_list: Vec::new(),
            preferences,
        };
        assert(account@.calendar_list =~= Seq::empty());
        account
    }

    /// The email the account is known by. Every account has one.
    pub fn email(&self) -> (email: String)
        ensures
            email@ == self@.email(),
            self@.token.user is Some,
    {
        proof {
            use_type_invariant(self);
        }
        match &self.token.user {
            Some(user) => user.email.clone(),
            None => String::new(),
        }
    }

    /// Whether this is the account of `email`.
    pub fn is_account(&self, email: &str) -> (same: bool)
        ensures
            same == (self@.email() == email@),
            self@.token.user is Some,
    {
        proof {
            use_type_invariant(self);
        }
        match &self.token.user {
            Some(user) => same_text(user.email.as_str(), email),
            None => false,
        }
    }

    /// Whether the access token can no longer be used at `now`: it has no
    /// expiry, or its expiry is not later than `now`.
    pub fn is_token_expired(&self, now: i64) -> (expired: bool)
        ensures
            expired == self@.token.expired_at(now as int),
    {
        match self.token.expires_at {
            Some(at) => at <= now,
            None => true,
        }
    }

    /// The seconds for which the access token is still valid at `now`, where
    /// it has an expiry that lies after `now`.
    pub fn remaining_lifetime(&self, now: i64) -> (left: Option<i64>)
        ensures
            left == match self@.token.expires_at {
                Some(at) => if at > now && at - now <= i64::MAX {
                    Some((at - now) as i64)
                } else {
                    None::<i64>
                },
                None => None::<i64>,
            },
    {
        match self.token.expires_at {
            Some(at) => if at > now {
                at.checked_sub(now)
            } else {
                None
            },
            None => None,
        }
    }

    /// The refresh token to send to the provider at `now`: none while the
    /// access token is valid, an error where the account has none to send.
    pub fn refresh_request(&self, now: i64) -> (request: Result<Option<String>, AuthError>)
        ensures
            need_view(request) == refresh_need(self@.token, now as int),
    {
        if !self.is_token_expired(now) {
            return Ok(None);
        }
        match &self.token.refresh_token {
            Some(sent) => Ok(Some(sent.clone())),
            None => Err(AuthError::ReauthenticationRequired),
        }
    }

    /// Takes in the provider's answer to a refresh made at `now`, `nanos`
    /// nanoseconds into that second. An account without a refresh token
    /// reports that the user has to sign in again, whether its access token
    /// is still valid or not. The token is renewed only where the report is
    /// `true`; in every other case it stays as it was.
    pub fn refresh_token(&mut self, response: &RefreshResponse, now: i64, nanos: u32) -> (report:
        Result<Option<bool>, AuthError>)
        ensures
            report == refresh_report(old(self)@.token, response@, now as int),
            final(self)@ == (CalenderAccountView {
                token: refreshed_token(old(self)@.token, response@, now as int, nanos as int),
                ..old(self)@
            }),
            old(self)@.token.refresh_token is None ==> report == Err::<Option<bool>, AuthError>(
                AuthError::ReauthenticationRequired,
            ) && final(self)@ == old(self)@,
            report is Err ==> final(self)@ == old(self)@,
    {
        proof {
            use_type_invariant(&*self);
        }
        if self.token.refresh_token.is_none() {
            return Err(AuthError::ReauthenticationRequired);
        }
        if !self.is_token_expired(now) {
            return Ok(None);
        }
        match response {
            RefreshResponse::Rejected => Err(AuthError::Rejected),
            RefreshResponse::Failed => Err(AuthError::Transport),
            RefreshResponse::Granted { access_token, expires_in } => {
                if access_token.as_str().is_empty() {
                    return Ok(Some(false));
                }
                let user = match &self.token.user {
                    Some(u) => Some(u.clone()),
                    None => None,
                };
                let renewed = GoogleAuthToken {
                    access_token: access_token.clone(),
                    refresh_token: clone_optional_text(&self.token.refresh_token),
                    expires_at: Some(expiry_after(now, nanos, *expires_in)),
                    expires_in: *expires_in,
                    token_type: self.token.token_type.clone(),
                    scope: self.token.scope.clone(),
                    user,
                    disabled: self.token.disabled,
                };
                self.token = renewed;
                Ok(Some(true))
            },
        }
    }

    /// A copy of the account's token.
    pub fn to_auth_token(&self) -> (token: GoogleAuthToken)
        ensures
            token@ == self@.token,
    {
        self.token.clone()
    }

    /// Leaves the account out of polls from now on.
    pub fn disable(&mut self)
        ensures
            final(self)@ == (CalenderAccountView {
                token: GoogleAuthTokenView { disabled: Some(true), ..old(self)@.token },
                ..old(self)@
            }),
    {
        proof {
            use_type_invariant(&*self);
        }
        self.token.disabled = Some(true);
    }

    /// Takes the account into polls again.
    pub fn enable(&mut self)
        ensures
            final(self)@ == (CalenderAccountView {
                token: GoogleAuthTokenView { disabled: Some(false), ..old(self)@.token },
                ..old(self)@
            }),
    {
        proof {
            use_type_invariant(&*self);
        }
        self.token.disabled = Some(false);
    }

    pub fn is_diabled(&self) -> (disabled: bool)
        ensures
            disabled == self@.token.is_disabled(),
    {
        match self.token.disabled {
            Some(flag) => flag,
            None => false,
        }
    }

    pub fn is_enabled(&self) -> (enabled: bool)
        ensures
            enabled == !self@.token.is_disabled(),
    {
        !self.is_diabled()
    }

    /// Replaces the account's choices.
    pub fn set_preferences(&mut self, account_preference: AccountPreference)
        ensures
            final(self)@ == (CalenderAccountView {
                preferences: account_preference@,
                ..old(self)@
            }),
    {
        proof {
            use_type_invariant(&*self);
        }
        self.preferences = account_preference;
    }

    /// Replaces the account's list of calendars by the identifiers the
    /// provider listed.
    pub fn set_calendar_list(&mut self, calendar_ids: Vec<String>)
        ensures
            final(self)@ == (CalenderAccountView {
                calendar_list: texts(calendar_ids@),
                ..old(self)@
            }),
    {
        proof {
            use_type_invariant(&*self);
        }
        self.calendar_list = calendar_ids;
    }
}

/// The events of `events` that concern the account `email`, in their order.
pub open spec fn relevant(events: Seq<EventView>, email: Seq<char>) -> Seq<EventView> {
    events.filter(|e: EventView| e.concerns(email))
}

/// What one calendar's query yielded, as views: its events, or nothing where
/// the query failed.
pub open spec fn listing_view(listing: Option<Vec<Event>>) -> Option<Seq<EventView>> {
    match listing {
        Some(events) => Some(event_views(events@)),
        None => None,
    }
}

/// The views of the outcomes of an account's queries, one per calendar.
pub open spec fn listing_views(listings: Seq<Option<Vec<Event>>>) -> Seq<Option<Seq<EventView>>> {
    listings.map_values(|l: Option<Vec<Event>>| listing_view(l))
}

/// What one calendar's query contributes for the account `email`: the
/// events that concern the account, and nothing where the query failed.
pub open spec fn contribution(listing: Option<Seq<EventView>>, email: Seq<char>) -> Seq<
    EventView,
> {
    match listing {
        Some(events) => relevant(events, email),
        None => Seq::empty(),
    }
}

/// The events that the queries of an account's calendars contribute for the
/// account `email`, calendar after calendar.
pub open spec fn gathered(listings: Seq<Option<Seq<EventView>>>, email: Seq<char>) -> Seq<
    EventView,
>
    decreases listings.len(),
{
    if listings.len() == 0 {
        Seq::empty()
    } else {
        gathered(listings.drop_last(), email) + contribution(listings.last(), email)
    }
}

/// What two runs of queries contribute together is what the first
/// contributes followed by what the second contributes.
pub proof fn lemma_gathered_concat(
    first: Seq<Option<Seq<EventView>>>,
    second: Seq<Option<Seq<EventView>>>,
    email: Seq<char>,
)
    ensures
        gathered(first + second, email) == gathered(first, email) + gathered(second, email),
    decreases second.len(),
{
    if second.len() == 0 {
        assert(first + second =~= first);
        assert(gathered(first, email) + gathered(second, email) =~= gathered(first, email));
    } else {
        lemma_gathered_concat(first, second.drop_last(), email);
        assert((first + second).drop_last() =~= first + second.drop_last());
        assert((first + second).last() == second.last());
        assert(gathered(first + second, email) =~= gathered(first, email) + gathered(second, email));
    }
}

/// A calendar whose query failed contributes nothing: the result is that of
/// the other calendars alone.
pub proof fn lemma_failed_calendar_adds_nothing(
    listings: Seq<Option<Seq<EventView>>>,
    failed: int,
    email: Seq<char>,
)
    requires
        0 <= failed < listings.len(),
        listings[failed] is None,
    ensures
        gathered(listings, email) == gathered(listings.remove(failed), email),
{
    let before = listings.take(failed);
    let one = seq![listings[failed]];
    let after = listings.skip(failed + 1);
    assert(listings =~= before + one + after);
    assert(listings.remove(failed) =~= before + after);
    lemma_gathered_concat(before + one, after, email);
    lemma_gathered_concat(before, one, email);
    lemma_gathered_concat(before, after, email);
    assert(one.drop_last() =~= Seq::empty());
    assert(gathered(one.drop_last(), email) =~= Seq::empty());
    assert(gathered(one, email) =~= Seq::empty());
    assert(gathered(before, email) + gathered(one, email) =~= gathered(before, email));
}

/// The events of `events` that concern the account `email`.
pub fn relevant_events(events: &Vec<Event>, email: &str) -> (kept: Vec<Event>)
    ensures
        event_views(kept@) == relevant(event_views(events@), email@),
{
    let mut kept: Vec<Event> = Vec::new();
    let mut i: usize = 0;
    let ghost pred = |e: EventView| e.concerns(email@);
    proof {
        reveal(Seq::filter);
        assert(event_views(events@).take(0) =~= Seq::empty());
    }
    while i < events.len()
        invariant
            i <= events.len(),
            pred == (|e: EventView| e.concerns(email@)),
            event_views(kept@) == event_views(events@).take(i as int).filter(pred),
        decreases events.len() - i,
    {
        proof {
            reveal(Seq::filter);
            let next = event_views(events@).take(i + 1);
            assert(next.drop_last() =~= event_views(events@).take(i as int));
            assert(next.last() == events[i as int]@);
        }
        if events[i].concerns(email) {
            kept.push(events[i].clone());
            assert(event_views(kept@) =~= event_views(events@).take(i as int).filter(pred).push(
                events[i as int]@,
            ));
        }
        i += 1;
    }
    assert(event_views(events@).take(i as int) =~= event_views(events@));
    kept
}

/// Moves the events of `more` behind those of `all`.
pub fn append_events(all: &mut Vec<Event>, more: Vec<Event>)
    ensures
        event_views(final(all)@) == event_views(old(all)@) + event_views(more@),
{
    let ghost before = all@;
    let ghost added = more@;
    let mut more = more;
    all.append(&mut more);
    assert(event_views(all@) =~= event_views(before) + event_views(added));
}

impl CalenderAccount {
    /// The identifiers of the calendars to poll: those the account does not
    /// hide, in the order of the provider's list.
    pub fn visible_calendars(&self) -> (visible: Vec<String>)
        ensures
            texts(visible@) == self@.visible_calendars(),
    {
        let mut visible: Vec<String> = Vec::new();
        let mut i: usize = 0;
        let ghost pred = |id: Seq<char>| !self@.preferences.hidden_calendars.contains(id);
        proof {
            reveal(Seq::filter);
            assert(texts(self.calendar_list@).take(0) =~= Seq::empty());
        }
        while i < self.calendar_list.len()
            invariant
                i <= self.calendar_list.len(),
                pred == (|id: Seq<char>| !self@.preferences.hidden_calendars.contains(id)),
                texts(visible@) == texts(self.calendar_list@).take(i as int).filter(pred),
            decreases self.calendar_list.len() - i,
        {
            proof {
                reveal(Seq::filter);
                let next = texts(self.calendar_list@).take(i + 1);
                assert(next.drop_last() =~= texts(self.calendar_list@).take(i as int));
                assert(next.last() == self.calendar_list[i as int]@);
            }
            if !self.preferences.hides(self.calendar_list[i].as_str()) {
                visible.push(self.calendar_list[i].clone());
                assert(texts(visible@) =~= texts(self.calendar_list@).take(i as int).filter(
                    pred,
                ).push(self.calendar_list[i as int]@));
            }
            i += 1;
        }
        assert(texts(self.calendar_list@).take(i as int) =~= texts(self.calendar_list@));
        visible
    }

    /// The account's events of one poll. `listings` holds, for each calendar
    /// that was queried, the events the provider listed, or `None` where the
    /// query failed. Kept are the events that the account created or is
    /// invited to, calendar after calendar; a failed query contributes
    /// nothing and does not affect the others.
    pub fn get_calendar_events(&self, listings: &Vec<Option<Vec<Event>>>) -> (events: Vec<Event>)
        ensures
            event_views(events@) == gathered(listing_views(listings@), self@.email()),
    {
        let email = self.email();
        let mut events: Vec<Event> = Vec::new();
        let mut i: usize = 0;
        assert(listing_views(listings@).take(0) =~= Seq::empty());
        assert(event_views(events@) =~= Seq::empty());
        while i < listings.len()
            invariant
                i <= listings.len(),
                email@ == self@.email(),
                event_views(events@) == gathered(listing_views(listings@).take(i as int), email@),
            decreases listings.len() - i,
        {
            proof {
                let next = listing_views(listings@).take(i + 1);
                assert(next.drop_last() =~= listing_views(listings@).take(i as int));
                assert(next.last() == listing_view(listings[i as int]));
            }
            match &listings[i] {
                Some(listed) => {
                    let kept = relevant_events(listed, email.as_str());
                    append_events(&mut events, kept);
                },
                None => {
                    assert(event_views(events@) + Seq::<EventView>::empty() =~= event_views(events@));
                },
            }
            i += 1;
        }
        assert(listing_views(listings@).take(i as int) =~= listing_views(listings@));
        events
    }
}

} // verus!

//! The registry of signed-in accounts. An email stands for one account: no
//! two accounts of the registry share one.

use vstd::prelude::*;
use crate::account::{append_events, entered_token, renewal_view, gathered, listing_views, need_view, refresh_need, refresh_report, refreshed_token, AuthError, CalenderAccount, CalenderAccountView, RefreshResponse, RefreshResponseView};
use crate::classify::{classify, Clock, EventGroups, EventGroupsView};
use crate::event::{clone_events, event_views, Event, EventView};
use crate::preferences::{AccountPreferenceView, Preferences, PreferencesView};
use crate::text::{clone_texts, texts};
use crate::types::{token_views, AppCredentials, AppCredentialsView, GoogleAuthToken, GoogleAuthTokenView};

verus! {

/// Why the registry did not take a token in.
#[derive(Clone, Copy, Debug, PartialEq, Eq, Structural)]
pub enum RegistryError {
    /// The token does not say whom it belongs to.
    MissingIdentity,
}

/// The views of a list of accounts, in order.
pub open spec fn account_views(accounts: Seq<CalenderAccount>) -> Seq<CalenderAccountView> {
    accounts.map_values(|a: CalenderAccount| a@)
}

/// No two accounts have the same email.
pub open spec fn distinct_accounts(accounts: Seq<CalenderAccountView>) -> bool {
    forall|i: int, j: int|
        0 <= i < j < accounts.len() ==> (#[trigger] accounts[i]).email() != (
        #[trigger] accounts[j]).email()
}

/// `account` with the choices that `preferences` lists for its email.
pub open spec fn with_choices(
    account: CalenderAccountView,
    preferences: PreferencesView,
) -> CalenderAccountView {
    CalenderAccountView { preferences: preferences.preference_of(account.email()), ..account }
}

/// The accounts but that of `email`, each with the choices that
/// `preferences` lists for it.
pub open spec fn others(
    accounts: Seq<CalenderAccountView>,
    email: Seq<char>,
    preferences: PreferencesView,
) -> Seq<CalenderAccountView> {
    accounts.filter(|a: CalenderAccountView| a.email() != email).map_values(
        |a: CalenderAccountView| with_choices(a, preferences),
    )
}

/// The account that a token enters the registry as: with the choices listed
/// for its email and no calendars yet.
pub open spec fn entering(
    token: GoogleAuthTokenView,
    preferences: PreferencesView,
) -> CalenderAccountView {
    with_choices(
        CalenderAccountView {
            token,
            calendar_list: Seq::empty(),
            preferences: AccountPreferenceView::none(),
        },
        preferences,
    )
}

/// The accounts after `token` was added: the accounts of other emails, then
/// the account of the token.
pub open spec fn added(
    accounts: Seq<CalenderAccountView>,
    token: GoogleAuthTokenView,
    preferences: PreferencesView,
) -> Seq<CalenderAccountView> {
    others(accounts, entering(token, preferences).email(), preferences).push(
        entering(token, preferences),
    )
}

/// The accounts after one token after the other was added.
pub open spec fn added_all(
    accounts: Seq<CalenderAccountView>,
    tokens: Seq<GoogleAuthTokenView>,
    preferences: PreferencesView,
) -> Seq<CalenderAccountView>
    decreases tokens.len(),
{
    if tokens.len() == 0 {
        accounts
    } else {
        added(added_all(accounts, tokens.drop_last(), preferences), tokens.last(), preferences)
    }
}

/// The accounts after the account of `email` was removed. The only account
/// of a registry is never removed.
pub open spec fn removed(
    accounts: Seq<CalenderAccountView>,
    email: Seq<char>,
    preferences: PreferencesView,
) -> Seq<CalenderAccountView> {
    if accounts.len() == 1 {
        accounts
    } else {
        others(accounts, email, preferences)
    }
}

/// `account` left out of polls or taken into them.
pub open spec fn switched_account(account: CalenderAccountView, disabled: bool) -> CalenderAccountView {
    CalenderAccountView {
        token: GoogleAuthTokenView { disabled: Some(disabled), ..account.token },
        ..account
    }
}

/// The accounts with that of `email` left out of polls or taken into them,
/// and every other account as it was.
pub open spec fn switched(
    accounts: Seq<CalenderAccountView>,
    email: Seq<char>,
    disabled: bool,
) -> Seq<CalenderAccountView> {
    accounts.map_values(
        |a: CalenderAccountView|
            if a.email() == email {
                switched_account(a, disabled)
            } else {
                a
            },
    )
}

/// The accounts with the choices of the account of `email` read anew from
/// `preferences`.
pub open spec fn rechosen(
    accounts: Seq<CalenderAccountView>,
    email: Seq<char>,
    preferences: PreferencesView,
) -> Seq<CalenderAccountView> {
    accounts.map_values(
        |a: CalenderAccountView|
            if a.email() == email {
                with_choices(a, preferences)
            } else {
                a
            },
    )
}

/// The accounts with the calendars of the account of `email` replaced.
pub open spec fn relisted(
    accounts: Seq<CalenderAccountView>,
    email: Seq<char>,
    calendar_ids: Seq<Seq<char>>,
) -> Seq<CalenderAccountView> {
    accounts.map_values(
        |a: CalenderAccountView|
            if a.email() == email {
                CalenderAccountView { calendar_list: calendar_ids, ..a }
            } else {
                a
            },
    )
}

/// The accounts after the provider's answer to a refresh for `email` was
/// taken in.
pub open spec fn renewed(
    accounts: Seq<CalenderAccountView>,
    email: Seq<char>,
    response: RefreshResponseView,
    now: int,
    nanos: int,
) -> Seq<CalenderAccountView> {
    accounts.map_values(
        |a: CalenderAccountView|
            if a.email() == email {
                CalenderAccountView { token: refreshed_token(a.token, response, now, nanos), ..a }
            } else {
                a
            },
    )
}

/// The first account of `email`, if there is one.
pub open spec fn account_of(accounts: Seq<CalenderAccountView>, email: Seq<char>) -> Option<
    CalenderAccountView,
>
    decreases accounts.len(),
{
    if accounts.len() == 0 {
        None
    } else if accounts.first().email() == email {
        Some(accounts.first())
    } else {
        account_of(accounts.skip(1), email)
    }
}

/// What a refresh for `email` reports: what it reports for the account's
/// token, and nothing to do where the registry has no such account.
pub open spec fn renewal_report(
    accounts: Seq<CalenderAccountView>,
    email: Seq<char>,
    response: RefreshResponseView,
    now: int,
) -> Result<Option<bool>, AuthError> {
    match account_of(accounts, email) {
        Some(account) => refresh_report(account.token, response, now),
        None => Ok(None),
    }
}

/// The tokens of the accounts, in order.
pub open spec fn tokens_of(accounts: Seq<CalenderAccountView>) -> Seq<GoogleAuthTokenView> {
    accounts.map_values(|a: CalenderAccountView| a.token)
}

/// Whether `account` is one of `accounts` with the choices that
/// `preferences` lists for it.
pub open spec fn stems_from(
    account: CalenderAccountView,
    accounts: Seq<CalenderAccountView>,
    preferences: PreferencesView,
) -> bool {
    exists|i: int|
        0 <= i < accounts.len() && #[trigger] with_choices(accounts[i], preferences) == account
}

/// How `others` grows with the list of accounts.
pub proof fn lemma_others_push(
    accounts: Seq<CalenderAccountView>,
    last: CalenderAccountView,
    email: Seq<char>,
    preferences: PreferencesView,
)
    ensures
        others(accounts.push(last), email, preferences) == if last.email() != email {
            others(accounts, email, preferences).push(with_choices(last, preferences))
        } else {
            others(accounts, email, preferences)
        },
{
    reveal(Seq::filter);
    let pred = |a: CalenderAccountView| a.email() != email;
    assert(accounts.push(last).drop_last() =~= accounts);
    assert(accounts.push(last).last() == last);
    if last.email() != email {
        assert(accounts.push(last).filter(pred) == accounts.filter(pred).push(last));
        assert(others(accounts.push(last), email, preferences) =~= others(
            accounts,
            email,
            preferences,
        ).push(with_choices(last, preferences)));
    } else {
        assert(accounts.push(last).filter(pred) == accounts.filter(pred));
    }
}

/// What `others` keeps: each of its accounts stems from an account of
/// another email and has that account's email; distinct accounts stay
/// distinct; and at most the one account of `email` is missing.
pub proof fn lemma_others(
    accounts: Seq<CalenderAccountView>,
    email: Seq<char>,
    preferences: PreferencesView,
)
    requires
        distinct_accounts(accounts),
    ensures
        distinct_accounts(others(accounts, email, preferences)),
        forall|j: int|
            0 <= j < others(accounts, email, preferences).len() ==> (#[trigger] others(
                accounts,
                email,
                preferences,
            )[j]).email() != email,
        forall|j: int|
            0 <= j < others(accounts, email, preferences).len() ==> stems_from(
                #[trigger] others(accounts, email, preferences)[j],
                accounts,
                preferences,
            ),
        others(accounts, email, preferences).len() + 1 >= accounts.len(),
        others(accounts, email, preferences).len() <= accounts.len(),
    decreases accounts.len(),
{
    reveal(Seq::filter);
    if accounts.len() == 0 {
        assert(others(accounts, email, preferences) =~= Seq::empty());
    } else {
        let front = accounts.drop_last();
        let last = accounts.last();
        assert(accounts =~= front.push(last));
        assert(distinct_accounts(front)) by {
            assert forall|i: int, j: int| 0 <= i < j < front.len() implies (#[trigger] front[i]).email()
                != (#[trigger] front[j]).email() by {
                assert(front[i] == accounts[i]);
                assert(front[j] == accounts[j]);
            }
        }
        lemma_others(front, email, preferences);
        lemma_others_push(front, last, email, preferences);
        let kept = others(front, email, preferences);
        let all = others(accounts, email, preferences);
        assert forall|j: int| 0 <= j < all.len() implies stems_from(
            #[trigger] all[j],
            accounts,
            preferences,
        ) by {
            if j < kept.len() {
                assert(stems_from(kept[j], front, preferences));
                let i = choose|i: int|
                    0 <= i < front.len() && #[trigger] with_choices(front[i], preferences) == kept[j];
                assert(front[i] == accounts[i]);
                assert(with_choices(accounts[i], preferences) == all[j]);
            } else {
                assert(with_choices(accounts[accounts.len() - 1], preferences) == all[j]);
            }
        }
        lemma_others_count(front, email, preferences);
        if last.email() != email {
            assert forall|i: int, j: int| 0 <= i < j < all.len() implies (#[trigger] all[i]).email() != (
            #[trigger] all[j]).email() by {
                if j == kept.len() {
                    assert(stems_from(kept[i], front, preferences));
                    let k = choose|k: int|
                        0 <= k < front.len() && #[trigger] with_choices(front[k], preferences)
                            == kept[i];
                    assert(front[k] == accounts[k]);
                    assert(accounts[k].email() != accounts[accounts.len() - 1].email());
                } else {
                    assert(kept[i] == all[i]);
                    assert(kept[j] == all[j]);
                }
            }
        } else {
            assert(kept.len() == front.len()) by {
                assert forall|i: int| 0 <= i < front.len() implies (#[trigger] front[i]).email()
                    != email by {
                    assert(front[i] == accounts[i]);
                    assert(accounts[i].email() != accounts[accounts.len() - 1].email());
                }
            }
        }
    }
}

/// Where no account has the email, `others` keeps them all.
pub proof fn lemma_others_count(
    accounts: Seq<CalenderAccountView>,
    email: Seq<char>,
    preferences: PreferencesView,
)
    ensures
        (forall|i: int| 0 <= i < accounts.len() ==> (#[trigger] accounts[i]).email() != email)
            ==> others(accounts, email, preferences).len() == accounts.len(),
    decreases accounts.len(),
{
    reveal(Seq::filter);
    if accounts.len() == 0 {
        assert(others(accounts, email, preferences) =~= Seq::empty());
    } else {
        let front = accounts.drop_last();
        assert(accounts =~= front.push(accounts.last()));
        lemma_others_count(front, email, preferences);
        lemma_others_push(front, accounts.last(), email, preferences);
        if forall|i: int| 0 <= i < accounts.len() ==> (#[trigger] accounts[i]).email() != email {
            assert forall|i: int| 0 <= i < front.len() implies (#[trigger] front[i]).email()
                != email by {
                assert(front[i] == accounts[i]);
            }
            assert(accounts[accounts.len() - 1].email() != email);
        }
    }
}

/// Of two tokens added for one email, the later one stays: after a token is
/// added, the registry holds exactly one account of its email, the last,
/// and that account holds the token. The accounts stay distinct, and the
/// tokens of the registry include the one added.
pub proof fn lemma_added(
    accounts: Seq<CalenderAccountView>,
    token: GoogleAuthTokenView,
    preferences: PreferencesView,
)
    requires
        distinct_accounts(accounts),
    ensures
        distinct_accounts(added(accounts, token, preferences)),
        added(accounts, token, preferences).len() >= 1,
        added(accounts, token, preferences).last().token == token,
        added(accounts, token, preferences).last().email() == entering(token, preferences).email(),
        forall|i: int|
            0 <= i < added(accounts, token, preferences).len() - 1 ==> (#[trigger] added(
                accounts,
                token,
                preferences,
            )[i]).email() != entering(token, preferences).email(),
        tokens_of(added(accounts, token, preferences)).contains(token),
{
    let email = entering(token, preferences).email();
    lemma_others(accounts, email, preferences);
    let kept = others(accounts, email, preferences);
    let all = added(accounts, token, preferences);
    assert forall|i: int, j: int| 0 <= i < j < all.len() implies (#[trigger] all[i]).email() != (
    #[trigger] all[j]).email() by {
        assert(kept[i] == all[i]);
        if j < kept.len() {
            assert(kept[j] == all[j]);
        }
    }
    assert forall|i: int| 0 <= i < all.len() - 1 implies (#[trigger] all[i]).email() != email by {
        assert(kept[i] == all[i]);
    }
    assert(tokens_of(all)[all.len() - 1] == token);
}

/// The token added last for an email is the one the registry keeps: after
/// `first` and then `second` were added for one email, the registry holds
/// one account of that email, and it holds `second`.
pub proof fn lemma_last_token_wins(
    accounts: Seq<CalenderAccountView>,
    first: GoogleAuthTokenView,
    second: GoogleAuthTokenView,
    preferences: PreferencesView,
)
    requires
        distinct_accounts(accounts),
        first.email() is Some,
        first.email() == second.email(),
    ensures
        ({
            let after = added(added(accounts, first, preferences), second, preferences);
            &&& distinct_accounts(after)
            &&& after.last().token == second
            &&& forall|i: int|
                0 <= i < after.len() ==> ((#[trigger] after[i]).email() == first.email().unwrap()
                    <==> i == after.len() - 1)
        }),
{
    lemma_added(accounts, first, preferences);
    lemma_added(added(accounts, first, preferences), second, preferences);
}

/// `others` keeps every account of another email, with the choices listed
/// for it.
pub proof fn lemma_others_keeps(
    accounts: Seq<CalenderAccountView>,
    email: Seq<char>,
    preferences: PreferencesView,
    i: int,
)
    requires
        0 <= i < accounts.len(),
        accounts[i].email() != email,
    ensures
        others(accounts, email, preferences).contains(with_choices(accounts[i], preferences)),
    decreases accounts.len(),
{
    let front = accounts.drop_last();
    assert(accounts =~= front.push(accounts.last()));
    lemma_others_push(front, accounts.last(), email, preferences);
    let kept = others(front, email, preferences);
    let all = others(accounts, email, preferences);
    if i == accounts.len() - 1 {
        assert(all[kept.len() as int] == with_choices(accounts[i], preferences));
    } else {
        lemma_others_keeps(front, email, preferences, i);
        assert(front[i] == accounts[i]);
        let j = choose|j: int| 0 <= j < kept.len() && kept[j] == with_choices(front[i], preferences);
        assert(all[j] == kept[j]);
    }
}

/// However many tokens are added, the registry holds one account for each
/// email, and for each email the token that was added last for it.
pub proof fn lemma_added_all_keeps_last(
    accounts: Seq<CalenderAccountView>,
    tokens: Seq<GoogleAuthTokenView>,
    preferences: PreferencesView,
)
    requires
        distinct_accounts(accounts),
        forall|k: int| 0 <= k < tokens.len() ==> (#[trigger] tokens[k]).user is Some,
    ensures
        distinct_accounts(added_all(accounts, tokens, preferences)),
        forall|k: int|
            0 <= k < tokens.len() && (forall|l: int|
                k < l < tokens.len() ==> (#[trigger] tokens[l]).email() != tokens[k].email())
                ==> tokens_of(added_all(accounts, tokens, preferences)).contains(
                #[trigger] tokens[k],
            ),
    decreases tokens.len(),
{
    if tokens.len() > 0 {
        let front = tokens.drop_last();
        let last = tokens.last();
        let before = added_all(accounts, front, preferences);
        let after = added_all(accounts, tokens, preferences);
        let email = entering(last, preferences).email();
        assert forall|k: int| 0 <= k < front.len() implies (#[trigger] front[k]).user is Some by {
            assert(front[k] == tokens[k]);
        }
        lemma_added_all_keeps_last(accounts, front, preferences);
        lemma_added(before, last, preferences);
        assert forall|k: int|
            0 <= k < tokens.len() && (forall|l: int|
                k < l < tokens.len() ==> (#[trigger] tokens[l]).email() != tokens[k].email())
                implies tokens_of(after).contains(#[trigger] tokens[k]) by {
            if k < front.len() {
                assert(front[k] == tokens[k]);
                assert forall|l: int| k < l < front.len() implies (#[trigger] front[l]).email()
                    != front[k].email() by {
                    assert(front[l] == tokens[l]);
                }
                assert(tokens_of(before).contains(front[k]));
                let i = choose|i: int| 0 <= i < tokens_of(before).len() && tokens_of(before)[i] == front[k];
                assert(before[i].token == tokens[k]);
                assert(tokens[tokens.len() - 1].email() != tokens[k].email());
                assert(before[i].email() != email);
                lemma_others_keeps(before, email, preferences, i);
                let kept = others(before, email, preferences);
                let j = choose|j: int| 0 <= j < kept.len() && kept[j] == with_choices(before[i], preferences);
                assert(after[j] == kept[j]);
                assert(tokens_of(after)[j] == tokens[k]);
            }
        }
    }
}

/// Removal never empties a registry that holds an account.
pub proof fn lemma_removed_keeps_one(
    accounts: Seq<CalenderAccountView>,
    email: Seq<char>,
    preferences: PreferencesView,
)
    requires
        distinct_accounts(accounts),
        accounts.len() >= 1,
    ensures
        removed(accounts, email, preferences).len() >= 1,
        accounts.len() == 1 ==> removed(accounts, email, preferences) == accounts,
        distinct_accounts(removed(accounts, email, preferences)),
{
    lemma_others(accounts, email, preferences);
}

/// Leaving an account out of polls, or taking it in, a second time changes
/// nothing.
pub proof fn lemma_switched_twice(accounts: Seq<CalenderAccountView>, email: Seq<char>, disabled: bool)
    ensures
        switched(switched(accounts, email, disabled), email, disabled) == switched(
            accounts,
            email,
            disabled,
        ),
        switched(accounts, email, disabled).len() == accounts.len(),
        forall|i: int|
            0 <= i < accounts.len() && accounts[i].email() != email ==> #[trigger] switched(
                accounts,
                email,
                disabled,
            )[i] == accounts[i],
{
    assert(switched(switched(accounts, email, disabled), email, disabled) =~= switched(
        accounts,
        email,
        disabled,
    ));
}

/// A change to one account of the registry.
enum Change<'a> {
    Switch(bool),
    Rechoose(&'a Preferences),
    Relist(&'a Vec<String>),
    Renew(&'a RefreshResponse, i64, u32),
}

/// What a [`Change`] holds.
enum ChangeView {
    Switch(bool),
    Rechoose(PreferencesView),
    Relist(Seq<Seq<char>>),
    Renew(RefreshResponseView, int, int),
}

impl<'a> View for Change<'a> {
    type V = ChangeView;

    closed spec fn view(&self) -> ChangeView {
        match self {
            Change::Switch(disabled) => ChangeView::Switch(*disabled),
            Change::Rechoose(preferences) => ChangeView::Rechoose(preferences@),
            Change::Relist(ids) => ChangeView::Relist(texts(ids@)),
            Change::Renew(response, now, nanos) => ChangeView::Renew(
                response@,
                *now as int,
                *nanos as int,
            ),
        }
    }
}

/// `account` after `change`.
spec fn changed(account: CalenderAccountView, change: ChangeView) -> CalenderAccountView {
    match change {
        ChangeView::Switch(disabled) => switched_account(account, disabled),
        ChangeView::Rechoose(preferences) => with_choices(account, preferences),
        ChangeView::Relist(ids) => CalenderAccountView { calendar_list: ids, ..account },
        ChangeView::Renew(response, now, nanos) => CalenderAccountView {
            token: refreshed_token(account.token, response, now, nanos),
            ..account
        },
    }
}

/// The accounts after `change` to the account of `email`.
spec fn applied(accounts: Seq<CalenderAccountView>, email: Seq<char>, change: ChangeView) -> Seq<
    CalenderAccountView,
> {
    accounts.map_values(
        |a: CalenderAccountView|
            if a.email() == email {
                changed(a, change)
            } else {
                a
            },
    )
}

/// A change to an account leaves its email, and so the accounts distinct.
proof fn lemma_applied(accounts: Seq<CalenderAccountView>, email: Seq<char>, change: ChangeView)
    requires
        distinct_accounts(accounts),
    ensures
        distinct_accounts(applied(accounts, email, change)),
        change matches ChangeView::Switch(disabled) ==> applied(accounts, email, change)
            == switched(accounts, email, disabled),
        change matches ChangeView::Rechoose(preferences) ==> applied(accounts, email, change)
            == rechosen(accounts, email, preferences),
        change matches ChangeView::Relist(ids) ==> applied(accounts, email, change) == relisted(
            accounts,
            email,
            ids,
        ),
        change matches ChangeView::Renew(response, now, nanos) ==> applied(accounts, email, change)
            == renewed(accounts, email, response, now, nanos),
{
    let after = applied(accounts, email, change);
    assert forall|i: int| 0 <= i < accounts.len() implies (#[trigger] after[i]).email()
        == accounts[i].email() by {}
    assert forall|i: int, j: int| 0 <= i < j < after.len() implies (#[trigger] after[i]).email() != (
    #[trigger] after[j]).email() by {
        assert(accounts[i].email() != accounts[j].email());
    }
    match change {
        ChangeView::Switch(disabled) => {
            assert(after =~= switched(accounts, email, disabled));
        },
        ChangeView::Rechoose(preferences) => {
            assert(after =~= rechosen(accounts, email, preferences));
        },
        ChangeView::Relist(ids) => {
            assert(after =~= relisted(accounts, email, ids));
        },
        ChangeView::Renew(response, now, nanos) => {
            assert(after =~= renewed(accounts, email, response, now, nanos));
        },
    }
}

/// The registry: the accounts, the application's credentials, and the events
/// of the last poll with their classification.
pub struct Calendars {
    accounts: Vec<CalenderAccount>,
    config: AppCredentials,
    event_groups: EventGroups,
    events: Vec<Event>,
}

/// What a [`Calendars`] holds.
pub struct CalendarsView {
    pub accounts: Seq<CalenderAccountView>,
    pub config: AppCredentialsView,
    pub event_groups: EventGroupsView,
    pub events: Seq<EventView>,
}

impl View for Calendars {
    type V = CalendarsView;

    closed spec fn view(&self) -> CalendarsView {
        CalendarsView {
            accounts: account_views(self.accounts@),
            config: self.config@,
            event_groups: self.event_groups@,
            events: event_views(self.events@),
        }
    }
}

impl Default for Calendars {
    fn default() -> (empty: Self)
        ensures
            empty@.accounts == Seq::<CalenderAccountView>::empty(),
            empty@.events == Seq::<EventView>::empty(),
            empty@.event_groups == EventGroupsView::empty(),
            empty@.config.google_client_id == Seq::<char>::empty(),
            empty@.config.google_client_secret == Seq::<char>::empty(),
            empty@.config.google_calendar_api_key == Seq::<char>::empty(),
            empty@.config.google_redirect_url == Seq::<char>::empty(),
    {
        let empty = Calendars {
            config: AppCredentials::default(),
            accounts: Vec::new(),
            event_groups: EventGroups::empty(),
            events: Vec::new(),
        };
        assert(empty@.accounts =~= Seq::empty());
        assert(empty@.events =~= Seq::empty());
        empty
    }
}

impl Calendars {
    #[verifier::type_invariant]
    spec fn one_account_per_email(self) -> bool {
        distinct_accounts(account_views(self.accounts@))
    }

    /// A registry of the given credentials that holds, for each email among
    /// `tokens`, the last token that names it. Every token has to say whom
    /// it belongs to.
    pub fn new(tokens: Vec<GoogleAuthToken>, config: AppCredentials, preferences: &Preferences) -> (registry:
        Self)
        requires
            forall|i: int| 0 <= i < tokens.len() ==> (#[trigger] tokens[i])@.user is Some,
        ensures
            registry@ == (CalendarsView {
                accounts: added_all(Seq::empty(), token_views(tokens@), preferences@),
                config: config@,
                event_groups: EventGroupsView::empty(),
                events: Seq::empty(),
            }),
    {
        let mut registry = Calendars {
            config,
            accounts: Vec::new(),
            event_groups: EventGroups::empty(),
            events: Vec::new(),
        };
        assert(registry@.accounts =~= Seq::empty());
        assert(registry@.events =~= Seq::empty());
        assert(token_views(tokens@).take(0) =~= Seq::empty());
        let mut i: usize = 0;
        while i < tokens.len()
            invariant
                i <= tokens.len(),
                forall|k: int| 0 <= k < tokens.len() ==> (#[trigger] tokens[k])@.user is Some,
                registry@ == (CalendarsView {
                    accounts: added_all(
                        Seq::empty(),
                        token_views(tokens@).take(i as int),
                        preferences@,
                    ),
                    config: config@,
                    event_groups: EventGroupsView::empty(),
                    events: Seq::empty(),
                }),
            decreases tokens.len() - i,
        {
            proof {
                let next = token_views(tokens@).take(i + 1);
                assert(next.drop_last() =~= token_views(tokens@).take(i as int));
                assert(next.last() == tokens[i as int]@);
            }
            let entered = registry.add_account(tokens[i].clone(), preferences);
            assert(entered.is_ok());
            i += 1;
        }
        assert(token_views(tokens@).take(i as int) =~= token_views(tokens@));
        registry
    }

    /// Copies of the accounts but that of `email`, each with the choices
    /// that `preferences` lists for it.
    fn others(&self, email: &str, preferences: &Preferences) -> (kept: Vec<CalenderAccount>)
        ensures
            account_views(kept@) == others(self@.accounts, email@, preferences@),
            distinct_accounts(self@.accounts),
            distinct_accounts(account_views(kept@)),
    {
        proof {
            use_type_invariant(self);
        }
        let ghost all = account_views(self.accounts@);
        let mut kept: Vec<CalenderAccount> = Vec::new();
        let mut i: usize = 0;
        proof {
            reveal(Seq::filter);
            assert(all.take(0) =~= Seq::empty());
            assert(account_views(kept@) =~= others(all.take(0), email@, preferences@));
        }
        while i < self.accounts.len()
            invariant
                i <= self.accounts.len(),
                all == account_views(self.accounts@),
                account_views(kept@) == others(all.take(i as int), email@, preferences@),
            decreases self.accounts.len() - i,
        {
            proof {
                assert(all.take(i + 1) =~= all.take(i as int).push(self.accounts[i as int]@));
                lemma_others_push(all.take(i as int), self.accounts[i as int]@, email@, preferences@);
            }
            if !self.accounts[i].is_account(email) {
                let mut account = self.accounts[i].clone();
                let own = account.email();
                account.set_preferences(preferences.get_account_preference(own.as_str()));
                let ghost earlier = account_views(kept@);
                kept.push(account);
                assert(account_views(kept@) =~= earlier.push(
                    with_choices(self.accounts[i as int]@, preferences@),
                ));
            }
            i += 1;
        }
        proof {
            assert(all.take(i as int) =~= all);
            lemma_others(all, email@, preferences@);
        }
        kept
    }

    /// Takes `token` into the registry. A token that does not say whom it
    /// belongs to is refused and the registry stays as it is. Otherwise the
    /// account of the token's email, if there was one, gives way to a new
    /// account that holds the token, every other account stays, and each
    /// account has the choices that `preferences` lists for it.
    pub fn add_account(&mut self, token: GoogleAuthToken, preferences: &Preferences) -> (entered:
        Result<(), RegistryError>)
        ensures
            match entered {
                Ok(_) => token@.user is Some && final(self)@ == (CalendarsView {
                    accounts: added(old(self)@.accounts, token@, preferences@),
                    ..old(self)@
                }),
                Err(e) => e == RegistryError::MissingIdentity && token@.user is None && final(self)@
                    == old(self)@,
            },
            distinct_accounts(final(self)@.accounts),
    {
        self.enter_account(token, preferences, None, 0, 0)
    }

    /// Takes `token` into the registry as [`Calendars::add_account`] does,
    /// with the account built at `now`, `nanos` nanoseconds into that
    /// second: `renewal` is the provider's answer to the refresh asked for
    /// where the token is expired, and the account holds the token as
    /// [`entered_token`] says.
    pub fn enter_account(
        &mut self,
        token: GoogleAuthToken,
        preferences: &Preferences,
        renewal: Option<&RefreshResponse>,
        now: i64,
        nanos: u32,
    ) -> (entered: Result<(), RegistryError>)
        ensures
            match entered {
                Ok(_) => token@.user is Some && final(self)@ == (CalendarsView {
                    accounts: added(
                        old(self)@.accounts,
                        entered_token(token@, renewal_view(renewal), now as int, nanos as int),
                        preferences@,
                    ),
                    ..old(self)@
                }),
                Err(e) => e == RegistryError::MissingIdentity && token@.user is None && final(self)@
                    == old(self)@,
            },
            distinct_accounts(final(self)@.accounts),
    {
        proof {
            use_type_invariant(&*self);
        }
        let email = match &token.user {
            Some(user) => user.email.clone(),
            None => {
                return Err(RegistryError::MissingIdentity);
            },
        };
        let ghost held = entered_token(token@, renewal_view(renewal), now as int, nanos as int);
        let mut kept = self.others(email.as_str(), preferences);
        let choices = preferences.get_account_preference(email.as_str());
        let ghost earlier = account_views(kept@);
        kept.push(CalenderAccount::new(token, choices, renewal, now, nanos));
        proof {
            assert(held.user == token@.user);
            assert(account_views(kept@) =~= earlier.push(entering(held, preferences@)));
            lemma_added(old(self)@.accounts, held, preferences@);
        }
        self.accounts = kept;
        Ok(())
    }

    /// Removes the account of `email`, unless it is the only account of the
    /// registry: then nothing changes. The accounts that stay have the
    /// choices that `preferences` lists for them.
    pub fn remove_account(&mut self, email: String, preferences: &Preferences) -> (done: Result<
        (),
        String,
    >)
        ensures
            done.is_ok(),
            final(self)@ == (CalendarsView {
                accounts: removed(old(self)@.accounts, email@, preferences@),
                ..old(self)@
            }),
            old(self)@.accounts.len() >= 1 ==> final(self)@.accounts.len() >= 1,
            distinct_accounts(final(self)@.accounts),
    {
        proof {
            use_type_invariant(&*self);
        }
        if self.accounts.len() == 1 {
            return Ok(());
        }
        let kept = self.others(email.as_str(), preferences);
        proof {
            if old(self)@.accounts.len() >= 1 {
                lemma_removed_keeps_one(old(self)@.accounts, email@, preferences@);
            }
        }
        self.accounts = kept;
        Ok(())
    }

    /// Applies `change` to the account of `email` and leaves the others.
    fn update(&mut self, email: &str, change: Change<'_>)
        ensures
            final(self)@ == (CalendarsView {
                accounts: applied(old(self)@.accounts, email@, change@),
                ..old(self)@
            }),
            distinct_accounts(old(self)@.accounts),
    {
        proof {
            use_type_invariant(&*self);
        }
        let ghost all = account_views(self.accounts@);
        let mut next: Vec<CalenderAccount> = Vec::new();
        let mut i: usize = 0;
        while i < self.accounts.len()
            invariant
                i <= self.accounts.len(),
                all == account_views(self.accounts@),
                next.len() == i,
                forall|k: int|
                    0 <= k < i ==> (#[trigger] next[k])@ == if all[k].email() == email@ {
                        changed(all[k], change@)
                    } else {
                        all[k]
                    },
            decreases self.accounts.len() - i,
        {
            let mut account = self.accounts[i].clone();
            if account.is_account(email) {
                match &change {
                    Change::Switch(disabled) => {
                        if *disabled {
                            account.disable();
                        } else {
                            account.enable();
                        }
                    },
                    Change::Rechoose(preferences) => {
                        account.set_preferences(preferences.get_account_preference(email));
                    },
                    Change::Relist(ids) => {
                        account.set_calendar_list(clone_texts(ids));
                    },
                    Change::Renew(response, now, nanos) => {
                        let _ = account.refresh_token(response, *now, *nanos);
                    },
                }
            }
            next.push(account);
            i += 1;
        }
        proof {
            assert(account_views(next@) =~= applied(all, email@, change@));
            lemma_applied(all, email@, change@);
        }
        self.accounts = next;
    }

    /// Leaves the account of `email` out of polls from now on. Its token and
    /// calendars stay; no other account changes.
    pub fn disable_account(&mut self, email: String) -> (done: Result<(), String>)
        ensures
            done.is_ok(),
            final(self)@ == (CalendarsView {
                accounts: switched(old(self)@.accounts, email@, true),
                ..old(self)@
            }),
    {
        self.update(email.as_str(), Change::Switch(true));
        proof {
            lemma_applied(old(self)@.accounts, email@, ChangeView::Switch(true));
        }
        Ok(())
    }

    /// Takes the account of `email` into polls again; no other account
    /// changes.
    pub fn enable_account(&mut self, email: String) -> (done: Result<(), String>)
        ensures
            done.is_ok(),
            final(self)@ == (CalendarsView {
                accounts: switched(old(self)@.accounts, email@, false),
                ..old(self)@
            }),
    {
        self.update(email.as_str(), Change::Switch(false));
        proof {
            lemma_applied(old(self)@.accounts, email@, ChangeView::Switch(false));
        }
        Ok(())
    }

    /// Gives the account of `email` the choices that `preferences` lists for
    /// it.
    pub fn set_preferences(&mut self, email: String, preferences: &Preferences)
        ensures
            final(self)@ == (CalendarsView {
                accounts: rechosen(old(self)@.accounts, email@, preferences@),
                ..old(self)@
            }),
    {
        self.update(email.as_str(), Change::Rechoose(preferences));
        proof {
            lemma_applied(old(self)@.accounts, email@, ChangeView::Rechoose(preferences@));
        }
    }

    /// Replaces the calendars of the account of `email` by the identifiers
    /// the provider listed.
    pub fn set_calendar_list(&mut self, email: &str, calendar_ids: &Vec<String>)
        ensures
            final(self)@ == (CalendarsView {
                accounts: relisted(old(self)@.accounts, email@, texts(calendar_ids@)),
                ..old(self)@
            }),
    {
        self.update(email, Change::Relist(calendar_ids));
        proof {
            lemma_applied(old(self)@.accounts, email@, ChangeView::Relist(texts(calendar_ids@)));
        }
    }

    /// The index of the account of `email`, if the registry has one.
    fn position(&self, email: &str) -> (found: Option<usize>)
        ensures
            match found {
                Some(i) => i < self.accounts.len() && account_of(self@.accounts, email@) == Some(
                    self.accounts[i as int]@,
                ) && self.accounts[i as int]@.email() == email@,
                None => account_of(self@.accounts, email@) is None,
            },
    {
        let ghost all = account_views(self.accounts@);
        let mut i: usize = 0;
        assert(all.skip(0) =~= all);
        while i < self.accounts.len()
            invariant
                i <= self.accounts.len(),
                all == account_views(self.accounts@),
                account_of(all, email@) == account_of(all.skip(i as int), email@),
            decreases self.accounts.len() - i,
        {
            proof {
                assert(all.skip(i as int).first() == self.accounts[i as int]@);
                assert(all.skip(i as int).skip(1) =~= all.skip(i + 1));
            }
            if self.accounts[i].is_account(email) {
                return Some(i);
            }
            i += 1;
        }
        None
    }

    /// Takes in the provider's answer to a refresh made for the account of
    /// `email` at `now`, `nanos` nanoseconds into that second. The account's
    /// token is renewed where the report is `true`; in every other case, and
    /// where the registry has no such account, nothing changes.
    pub fn refresh_token(&mut self, email: &str, response: &RefreshResponse, now: i64, nanos: u32) -> (report:
        Result<Option<bool>, AuthError>)
        ensures
            report == renewal_report(old(self)@.accounts, email@, response@, now as int),
            final(self)@ == (CalendarsView {
                accounts: renewed(old(self)@.accounts, email@, response@, now as int, nanos as int),
                ..old(self)@
            }),
    {
        let report = match self.position(email) {
            Some(i) => {
                let mut account = self.accounts[i].clone();
                account.refresh_token(response, now, nanos)
            },
            None => Ok(None),
        };
        self.update(email, Change::Renew(response, now, nanos));
        proof {
            lemma_applied(
                old(self)@.accounts,
                email@,
                ChangeView::Renew(response@, now as int, nanos as int),
            );
        }
        report
    }

    /// Copies of the tokens of the accounts, in the registry's order, as
    /// they are now.
    pub fn get_tokens(&self) -> (tokens: Result<Vec<GoogleAuthToken>, String>)
        ensures
            tokens matches Ok(list) && token_views(list@) == tokens_of(self@.accounts),
    {
        let mut list: Vec<GoogleAuthToken> = Vec::new();
        let mut i: usize = 0;
        while i < self.accounts.len()
            invariant
                i <= self.accounts.len(),
                list.len() == i,
                forall|k: int| 0 <= k < i ==> (#[trigger] list[k])@ == self.accounts[k]@.token,
            decreases self.accounts.len() - i,
        {
            list.push(self.accounts[i].to_auth_token());
            i += 1;
        }
        assert(token_views(list@) =~= tokens_of(self@.accounts));
        Ok(list)
    }

    /// The number of accounts.
    pub fn account_count(&self) -> (count: usize)
        ensures
            count == self@.accounts.len(),
            distinct_accounts(self@.accounts),
    {
        proof {
            use_type_invariant(self);
        }
        self.accounts.len()
    }

    /// The application's credentials.
    pub fn config(&self) -> (config: AppCredentials)
        ensures
            config@ == self@.config,
    {
        self.config.clone()
    }

    /// The classification of the last poll.
    pub fn event_groups(&self) -> (groups: EventGroups)
        ensures
            groups@ == self@.event_groups,
    {
        self.event_groups.clone()
    }

    /// The events of the last poll that were running when it was classified.
    pub fn active_events(&self) -> (events: Vec<Event>)
        ensures
            event_views(events@) == self@.event_groups.now,
    {
        clone_events(&self.event_groups.now)
    }

    /// The events of the last poll that were still to start on the day it
    /// was classified.
    pub fn upcoming_events(&self) -> (events: Vec<Event>)
        ensures
            event_views(events@) == self@.event_groups.upcoming,
    {
        clone_events(&self.event_groups.upcoming)
    }

    /// The events of the last poll that start on the day after it was
    /// classified.
    pub fn tomorrow_events(&self) -> (events: Vec<Event>)
        ensures
            event_views(events@) == self@.event_groups.tomorrow,
    {
        clone_events(&self.event_groups.tomorrow)
    }

    /// Classifies the events of the last poll anew at `clock`; the groups of
    /// the earlier classification are dropped.
    pub fn group_events(&mut self, clock: &Clock)
        ensures
            final(self)@ == (CalendarsView {
                event_groups: EventGroupsView::of(old(self)@.events, clock@),
                ..old(self)@
            }),
    {
        proof {
            use_type_invariant(&*self);
        }
        let groups = classify(&self.events, clock);
        self.event_groups = groups;
    }
}

/// What the program has to do for one account before a poll can use it.
pub struct PollRequest {
    pub email: String,
    /// The refresh token to send first, none while the access token is
    /// valid, or the reason why the account cannot be polled.
    pub refresh: Result<Option<String>, AuthError>,
    /// Identifiers of the calendars to query.
    pub calendars: Vec<String>,
}

/// What a [`PollRequest`] holds.
pub struct PollRequestView {
    pub email: Seq<char>,
    pub refresh: Result<Option<Seq<char>>, AuthError>,
    pub calendars: Seq<Seq<char>>,
}

impl View for PollRequest {
    type V = PollRequestView;

    open spec fn view(&self) -> PollRequestView {
        PollRequestView {
            email: self.email@,
            refresh: need_view(self.refresh),
            calendars: texts(self.calendars@),
        }
    }
}

/// The views of a list of requests, in order.
pub open spec fn request_views(requests: Seq<PollRequest>) -> Seq<PollRequestView> {
    requests.map_values(|r: PollRequest| r@)
}

/// The request for `account` at `now`: its visible calendars, and the
/// refresh it needs first.
pub open spec fn request_for(account: CalenderAccountView, now: int) -> PollRequestView {
    PollRequestView {
        email: account.email(),
        refresh: refresh_need(account.token, now),
        calendars: account.visible_calendars(),
    }
}

/// The accounts that take part in polls: those that are not disabled.
pub open spec fn polled(accounts: Seq<CalenderAccountView>) -> Seq<CalenderAccountView> {
    accounts.filter(|a: CalenderAccountView| !a.token.is_disabled())
}

/// The requests of a poll at `now`: one for each account that takes part.
pub open spec fn poll_requests(accounts: Seq<CalenderAccountView>, now: int) -> Seq<PollRequestView> {
    polled(accounts).map_values(|a: CalenderAccountView| request_for(a, now))
}

/// What a poll brought back for one account: what the refresh of its token
/// reported, where the poll needed one, and for each calendar that was
/// queried its events, or `None` where the query failed.
pub struct AccountListings {
    pub email: String,
    /// The report of the refresh; `Ok(None)` where none was needed.
    pub refresh: Result<Option<bool>, AuthError>,
    pub listings: Vec<Option<Vec<Event>>>,
}

/// What an [`AccountListings`] holds.
pub struct AccountListingsView {
    pub email: Seq<char>,
    pub refresh: Result<Option<bool>, AuthError>,
    pub listings: Seq<Option<Seq<EventView>>>,
}

impl View for AccountListings {
    type V = AccountListingsView;

    open spec fn view(&self) -> AccountListingsView {
        AccountListingsView {
            email: self.email@,
            refresh: self.refresh,
            listings: listing_views(self.listings@),
        }
    }
}

/// The views of what the queries of a poll yielded, account after account.
pub open spec fn fetched_views(fetched: Seq<AccountListings>) -> Seq<AccountListingsView> {
    fetched.map_values(|f: AccountListings| f@)
}

/// Whether the account of `email` takes part in polls.
pub open spec fn takes_part(accounts: Seq<CalenderAccountView>, email: Seq<char>) -> bool {
    match account_of(accounts, email) {
        Some(account) => !account.token.is_disabled(),
        None => false,
    }
}

/// What the listings of one account add to a poll: the events that concern
/// the account, where it takes part in polls and its token did not fail to
/// be renewed, and nothing otherwise.
pub open spec fn share(accounts: Seq<CalenderAccountView>, fetched: AccountListingsView) -> Seq<
    EventView,
> {
    if takes_part(accounts, fetched.email) && fetched.refresh is Ok {
        gathered(fetched.listings, fetched.email)
    } else {
        Seq::empty()
    }
}

/// An account whose token could not be renewed, or that does not take part
/// in polls, adds nothing to a poll, and the shares of the other accounts
/// are what they are without it.
pub proof fn lemma_failed_account_adds_nothing(
    accounts: Seq<CalenderAccountView>,
    fetched: Seq<AccountListingsView>,
    failed: int,
)
    requires
        0 <= failed < fetched.len(),
        fetched[failed].refresh is Err || !takes_part(accounts, fetched[failed].email),
    ensures
        polled_events(accounts, fetched) == polled_events(accounts, fetched.remove(failed)),
    decreases fetched.len(),
{
    let front = fetched.drop_last();
    if failed == fetched.len() - 1 {
        assert(fetched.remove(failed) =~= front);
        assert(polled_events(accounts, front) + Seq::<EventView>::empty() =~= polled_events(
            accounts,
            front,
        ));
    } else {
        lemma_failed_account_adds_nothing(accounts, front, failed);
        assert(fetched.remove(failed).drop_last() =~= front.remove(failed));
        assert(fetched.remove(failed).last() == fetched.last());
    }
}

/// The events of a poll: the share of each account, one after the other.
/// An event that two accounts share is listed for each of them.
pub open spec fn polled_events(
    accounts: Seq<CalenderAccountView>,
    fetched: Seq<AccountListingsView>,
) -> Seq<EventView>
    decreases fetched.len(),
{
    if fetched.len() == 0 {
        Seq::empty()
    } else {
        polled_events(accounts, fetched.drop_last()) + share(accounts, fetched.last())
    }
}

impl Calendars {
    /// What a poll at `now` has to ask for: one request for each account
    /// that is not disabled, in the registry's order.
    pub fn poll_plan(&self, now: i64) -> (plan: Vec<PollRequest>)
        ensures
            request_views(plan@) == poll_requests(self@.accounts, now as int),
    {
        let ghost all = account_views(self.accounts@);
        let ghost pred = |a: CalenderAccountView| !a.token.is_disabled();
        let mut plan: Vec<PollRequest> = Vec::new();
        let mut i: usize = 0;
        proof {
            reveal(Seq::filter);
            assert(all.take(0) =~= Seq::empty());
            assert(request_views(plan@) =~= poll_requests(all.take(0), now as int));
        }
        while i < self.accounts.len()
            invariant
                i <= self.accounts.len(),
                all == account_views(self.accounts@),
                pred == (|a: CalenderAccountView| !a.token.is_disabled()),
                request_views(plan@) == poll_requests(all.take(i as int), now as int),
            decreases self.accounts.len() - i,
        {
            proof {
                reveal(Seq::filter);
                let next = all.take(i + 1);
                assert(next.drop_last() =~= all.take(i as int));
                assert(next.last() == self.accounts[i as int]@);
            }
            if self.accounts[i].is_enabled() {
                let ghost earlier = request_views(plan@);
                plan.push(
                    PollRequest {
                        email: self.accounts[i].email(),
                        refresh: self.accounts[i].refresh_request(now),
                        calendars: self.accounts[i].visible_calendars(),
                    },
                );
                proof {
                    assert(all.take(i + 1).filter(pred) == all.take(i as int).filter(pred).push(
                        self.accounts[i as int]@,
                    ));
                    assert(request_views(plan@) =~= earlier.push(
                        request_for(self.accounts[i as int]@, now as int),
                    ));
                    assert(poll_requests(all.take(i + 1), now as int) =~= earlier.push(
                        request_for(self.accounts[i as int]@, now as int),
                    ));
                }
            } else {
                assert(all.take(i + 1).filter(pred) == all.take(i as int).filter(pred));
            }
            i += 1;
        }
        assert(all.take(i as int) =~= all);
        plan
    }

    /// Takes in what the queries of a poll yielded and classifies it at
    /// `clock`. The events of the poll replace those of the poll before:
    /// for each account that takes part in polls, the listed events that it
    /// created or is invited to. A calendar whose query failed, and an
    /// account whose token could not be renewed, contribute nothing and
    /// leave the shares of the others as they are.
    pub fn poll_events(&mut self, fetched: &Vec<AccountListings>, clock: &Clock)
        ensures
            final(self)@ == (CalendarsView {
                events: polled_events(old(self)@.accounts, fetched_views(fetched@)),
                event_groups: EventGroupsView::of(
                    polled_events(old(self)@.accounts, fetched_views(fetched@)),
                    clock@,
                ),
                ..old(self)@
            }),
    {
        proof {
            use_type_invariant(&*self);
        }
        let mut events: Vec<Event> = Vec::new();
        let mut i: usize = 0;
        assert(fetched_views(fetched@).take(0) =~= Seq::empty());
        assert(event_views(events@) =~= Seq::empty());
        while i < fetched.len()
            invariant
                i <= fetched.len(),
                event_views(events@) == polled_events(
                    self@.accounts,
                    fetched_views(fetched@).take(i as int),
                ),
            decreases fetched.len() - i,
        {
            proof {
                let next = fetched_views(fetched@).take(i + 1);
                assert(next.drop_last() =~= fetched_views(fetched@).take(i as int));
                assert(next.last() == fetched[i as int]@);
            }
            let found = self.position(fetched[i].email.as_str());
            let ghost earlier = event_views(events@);
            match found {
                Some(at) => {
                    if self.accounts[at].is_enabled() && fetched[i].refresh.is_ok() {
                        let kept = self.accounts[at].get_calendar_events(&fetched[i].listings);
                        append_events(&mut events, kept);
                    } else {
                        assert(earlier + Seq::<EventView>::empty() =~= earlier);
                    }
                },
                None => {
                    assert(earlier + Seq::<EventView>::empty() =~= earlier);
                },
            }
            i += 1;
        }
        assert(fetched_views(fetched@).take(i as int) =~= fetched_views(fetched@));
        let groups = classify(&events, clock);
        self.events = events;
        self.event_groups = groups;
    }
}

} // verus!

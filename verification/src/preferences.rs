//! What the user chose per account: the calendars to leave out of polls.

use vstd::prelude::*;
use vstd::string::StringExecFns;
use crate::text::{clone_texts, has_text, same_text, texts, without_text};

verus! {

/// The choices made for one account.
pub struct AccountPreference {
    /// Identifiers of the calendars that are not polled.
    pub hidden_calendars: Vec<String>,
}

/// What an [`AccountPreference`] holds.
pub struct AccountPreferenceView {
    pub hidden_calendars: Seq<Seq<char>>,
}

impl View for AccountPreference {
    type V = AccountPreferenceView;

    open spec fn view(&self) -> AccountPreferenceView {
        AccountPreferenceView { hidden_calendars: texts(self.hidden_calendars@) }
    }
}

impl AccountPreferenceView {
    /// The choices of an account for which none were made: nothing is hidden.
    pub open spec fn none() -> AccountPreferenceView {
        AccountPreferenceView { hidden_calendars: Seq::empty() }
    }

    /// These choices with `calendar` hidden; a calendar is listed once.
    pub open spec fn hiding(self, calendar: Seq<char>) -> AccountPreferenceView {
        if self.hidden_calendars.contains(calendar) {
            self
        } else {
            AccountPreferenceView { hidden_calendars: self.hidden_calendars.push(calendar) }
        }
    }

    /// These choices with `calendar` no longer hidden.
    pub open spec fn showing(self, calendar: Seq<char>) -> AccountPreferenceView {
        AccountPreferenceView {
            hidden_calendars: self.hidden_calendars.filter(|c: Seq<char>| c != calendar),
        }
    }
}

impl Clone for AccountPreference {
    fn clone(&self) -> (copy: Self)
        ensures
            copy@ == self@,
    {
        AccountPreference { hidden_calendars: clone_texts(&self.hidden_calendars) }
    }
}

impl Default for AccountPreference {
    fn default() -> (empty: Self)
        ensures
            empty@ == AccountPreferenceView::none(),
    {
        let empty = AccountPreference { hidden_calendars: Vec::new() };
        assert(empty@.hidden_calendars =~= Seq::empty());
        empty
    }
}

impl AccountPreference {
    /// Whether `calendar_id` is left out of polls.
    pub fn hides(&self, calendar_id: &str) -> (hidden: bool)
        ensures
            hidden == self@.hidden_calendars.contains(calendar_id@),
    {
        has_text(&self.hidden_calendars, calendar_id)
    }
}

/// The choices that a list of pairs of email and choices assigns to each
/// email; of two pairs with one email the later counts.
pub open spec fn preference_map(pairs: Seq<(String, AccountPreference)>) -> Map<
    Seq<char>,
    AccountPreferenceView,
>
    decreases pairs.len(),
{
    if pairs.len() == 0 {
        Map::empty()
    } else {
        preference_map(pairs.drop_last()).insert(pairs.last().0@, pairs.last().1@)
    }
}

/// No two pairs have the same email.
pub open spec fn distinct_emails(pairs: Seq<(String, AccountPreference)>) -> bool {
    forall|i: int, j: int| 0 <= i < j < pairs.len() ==> pairs[i].0@ != pairs[j].0@
}

/// Among pairs of distinct emails, the map holds exactly the listed emails,
/// each with the choices listed beside it.
pub proof fn lemma_preference_map(pairs: Seq<(String, AccountPreference)>)
    requires
        distinct_emails(pairs),
    ensures
        forall|email: Seq<char>|
            preference_map(pairs).contains_key(email) <==> exists|i: int|
                0 <= i < pairs.len() && #[trigger] pairs[i].0@ == email,
        forall|i: int|
            0 <= i < pairs.len() ==> preference_map(pairs)[#[trigger] pairs[i].0@] == pairs[i].1@,
    decreases pairs.len(),
{
    if pairs.len() > 0 {
        let front = pairs.drop_last();
        let full = preference_map(pairs);
        let rest = preference_map(front);
        assert(distinct_emails(front)) by {
            assert forall|i: int, j: int| 0 <= i < j < front.len() implies front[i].0@ != front[j].0@ by {
                assert(front[i] == pairs[i]);
                assert(front[j] == pairs[j]);
            }
        }
        lemma_preference_map(front);
        assert(full == rest.insert(pairs.last().0@, pairs.last().1@));
        assert forall|email: Seq<char>| full.contains_key(email) implies exists|i: int|
            0 <= i < pairs.len() && #[trigger] pairs[i].0@ == email by {
            if email == pairs.last().0@ {
                assert(pairs[pairs.len() - 1].0@ == email);
            } else {
                assert(rest.contains_key(email));
                let i = choose|i: int| 0 <= i < front.len() && #[trigger] front[i].0@ == email;
                assert(front[i] == pairs[i]);
                assert(pairs[i].0@ == email);
            }
        }
        assert forall|email: Seq<char>|
            (exists|i: int| 0 <= i < pairs.len() && #[trigger] pairs[i].0@ == email)
                implies full.contains_key(email) by {
            let i = choose|i: int| 0 <= i < pairs.len() && #[trigger] pairs[i].0@ == email;
            if i < front.len() {
                assert(front[i] == pairs[i]);
                assert(front[i].0@ == email);
                assert(rest.contains_key(email));
            }
        }
        assert forall|i: int| 0 <= i < pairs.len() implies full[#[trigger] pairs[i].0@]
            == pairs[i].1@ by {
            if i < front.len() {
                assert(front[i] == pairs[i]);
                assert(rest[front[i].0@] == front[i].1@);
                assert(pairs[i].0@ != pairs[pairs.len() - 1].0@);
            }
        }
    }
}

/// The preferences of the application: a flag, and the choices made for each
/// account, found by the account's email. An email is listed once.
pub struct Preferences {
    storage_path: String,
    notify_only_meetings: bool,
    accounts_preferences: Vec<(String, AccountPreference)>,
}

/// What a [`Preferences`] holds.
pub struct PreferencesView {
    pub storage_path: Seq<char>,
    pub notify_only_meetings: bool,
    pub accounts: Map<Seq<char>, AccountPreferenceView>,
}

impl PreferencesView {
    /// The choices made for `email`, or none where the email is not listed.
    pub open spec fn preference_of(self, email: Seq<char>) -> AccountPreferenceView {
        if self.accounts.contains_key(email) {
            self.accounts[email]
        } else {
            AccountPreferenceView::none()
        }
    }
}

impl View for Preferences {
    type V = PreferencesView;

    closed spec fn view(&self) -> PreferencesView {
        PreferencesView {
            storage_path: self.storage_path@,
            notify_only_meetings: self.notify_only_meetings,
            accounts: preference_map(self.accounts_preferences@),
        }
    }
}

impl Default for Preferences {
    fn default() -> (empty: Self)
        ensures
            empty@ == (PreferencesView {
                storage_path: Seq::empty(),
                notify_only_meetings: false,
                accounts: Map::empty(),
            }),
    {
        Preferences {
            storage_path: String::new(),
            notify_only_meetings: false,
            accounts_preferences: Vec::new(),
        }
    }
}

impl Preferences {
    #[verifier::type_invariant]
    spec fn listed_once(self) -> bool {
        distinct_emails(self.accounts_preferences@)
    }

    /// The index of the pair of `email`, if it is listed.
    fn position(&self, email: &str) -> (found: Option<usize>)
        ensures
            distinct_emails(self.accounts_preferences@),
            match found {
                Some(i) => i < self.accounts_preferences.len() && self.accounts_preferences[i as int].0@
                    == email@ && self@.accounts.contains_key(email@) && self@.accounts[email@]
                    == self.accounts_preferences[i as int].1@,
                None => !self@.accounts.contains_key(email@),
            },
    {
        proof {
            use_type_invariant(self);
        }
        let mut i: usize = 0;
        while i < self.accounts_preferences.len()
            invariant
                i <= self.accounts_preferences.len(),
                distinct_emails(self.accounts_preferences@),
                forall|k: int| 0 <= k < i ==> self.accounts_preferences[k].0@ != email@,
            decreases self.accounts_preferences.len() - i,
        {
            if same_text(self.accounts_preferences[i].0.as_str(), email) {
                proof {
                    lemma_preference_map(self.accounts_preferences@);
                }
                return Some(i);
            }
            i += 1;
        }
        proof {
            lemma_preference_map(self.accounts_preferences@);
        }
        None
    }

    /// Lists `choices` for `email`, in place of what was listed for it.
    fn put(&mut self, email: String, choices: AccountPreference)
        ensures
            final(self)@ == (PreferencesView {
                accounts: old(self)@.accounts.insert(email@, choices@),
                ..old(self)@
            }),
    {
        proof {
            use_type_invariant(&*self);
        }
        let ghost before = self.accounts_preferences@;
        let mut kept: Vec<(String, AccountPreference)> = Vec::new();
        let mut i: usize = 0;
        assert(before.take(0) =~= Seq::empty());
        while i < self.accounts_preferences.len()
            invariant
                i <= self.accounts_preferences.len(),
                before == self.accounts_preferences@,
                distinct_emails(before),
                distinct_emails(kept@),
                preference_map(kept@) == preference_map(before.take(i as int)).remove(email@),
            decreases self.accounts_preferences.len() - i,
        {
            proof {
                let next = before.take(i + 1);
                assert(next.drop_last() =~= before.take(i as int));
                assert(next.last() == before[i as int]);
                lemma_preference_map(before.take(i as int));
                lemma_preference_map(kept@);
            }
            if !same_text(self.accounts_preferences[i].0.as_str(), email.as_str()) {
                let ghost earlier = kept@;
                kept.push(
                    (self.accounts_preferences[i].0.clone(), self.accounts_preferences[i].1.clone()),
                );
                proof {
                    assert(kept@.drop_last() =~= earlier);
                    let key = before[i as int].0@;
                    assert(!preference_map(before.take(i as int)).contains_key(key)) by {
                        if preference_map(before.take(i as int)).contains_key(key) {
                            let k = choose|k: int|
                                0 <= k < before.take(i as int).len() && #[trigger] before.take(
                                    i as int,
                                )[k].0@ == key;
                            assert(before[k].0@ == before[i as int].0@);
                        }
                    }
                    assert forall|a: int, b: int| 0 <= a < b < kept@.len() implies kept@[a].0@
                        != kept@[b].0@ by {
                        if b == earlier.len() {
                            assert(earlier[a].0@ == kept@[a].0@);
                            assert(preference_map(earlier).contains_key(earlier[a].0@));
                        } else {
                            assert(earlier[a].0@ == kept@[a].0@);
                            assert(earlier[b].0@ == kept@[b].0@);
                        }
                    }
                    assert(preference_map(kept@) =~= preference_map(before.take(i + 1)).remove(
                        email@,
                    ));
                }
            } else {
                assert(preference_map(kept@) =~= preference_map(before.take(i + 1)).remove(email@));
            }
            i += 1;
        }
        proof {
            assert(before.take(i as int) =~= before);
            lemma_preference_map(kept@);
        }
        let ghost earlier = kept@;
        kept.push((email, choices));
        proof {
            assert(kept@.drop_last() =~= earlier);
            assert forall|a: int, b: int| 0 <= a < b < kept@.len() implies kept@[a].0@ != kept@[b].0@ by {
                assert(earlier[a].0@ == kept@[a].0@);
                if b == earlier.len() {
                    assert(preference_map(earlier).contains_key(earlier[a].0@));
                } else {
                    assert(earlier[b].0@ == kept@[b].0@);
                }
            }
            assert(preference_map(kept@) =~= preference_map(before).insert(email@, choices@));
        }
        self.accounts_preferences = kept;
    }

    /// Preferences with the given path and flag, and, for each email among
    /// `accounts`, the choices of the last pair that names it.
    pub fn new(
        storage_path: String,
        notify_only_meetings: bool,
        accounts: Vec<(String, AccountPreference)>,
    ) -> (preferences: Preferences)
        ensures
            preferences@ == (PreferencesView {
                storage_path: storage_path@,
                notify_only_meetings,
                accounts: preference_map(accounts@),
            }),
    {
        let mut preferences = Preferences {
            storage_path,
            notify_only_meetings,
            accounts_preferences: Vec::new(),
        };
        let mut i: usize = 0;
        assert(accounts@.take(0) =~= Seq::empty());
        while i < accounts.len()
            invariant
                i <= accounts.len(),
                preferences@ == (PreferencesView {
                    storage_path: storage_path@,
                    notify_only_meetings,
                    accounts: preference_map(accounts@.take(i as int)),
                }),
            decreases accounts.len() - i,
        {
            proof {
                let next = accounts@.take(i + 1);
                assert(next.drop_last() =~= accounts@.take(i as int));
                assert(next.last() == accounts[i as int]);
            }
            preferences.put(accounts[i].0.clone(), accounts[i].1.clone());
            i += 1;
        }
        assert(accounts@.take(i as int) =~= accounts@);
        preferences
    }

    /// The choices made for `account_email`; none where it is not listed.
    pub fn get_account_preference(&self, account_email: &str) -> (choices: AccountPreference)
        ensures
            choices@ == self@.preference_of(account_email@),
    {
        match self.position(account_email) {
            Some(i) => self.accounts_preferences[i].1.clone(),
            None => AccountPreference::default(),
        }
    }

    /// Whether `calendar_id` of `account` is left out of polls.
    pub fn is_calendar_hidden(&self, account: &str, calendar_id: &String) -> (hidden: bool)
        ensures
            hidden == self@.preference_of(account@).hidden_calendars.contains(calendar_id@),
    {
        match self.position(account) {
            Some(i) => self.accounts_preferences[i].1.hides(calendar_id.as_str()),
            None => false,
        }
    }

    /// Sets the flag and leaves the rest as it is.
    pub fn set_notify_only_meetings(&mut self, value: bool)
        ensures
            final(self)@ == (PreferencesView { notify_only_meetings: value, ..old(self)@ }),
    {
        proof {
            use_type_invariant(&*self);
        }
        self.notify_only_meetings = value;
    }

    /// Hides `calendar_id` of `account`. The account is listed afterwards,
    /// the calendar among its hidden ones once.
    pub fn hide_calendar(&mut self, account: String, calendar_id: String) -> (done: Result<
        (),
        String,
    >)
        ensures
            done.is_ok(),
            final(self)@ == (PreferencesView {
                accounts: old(self)@.accounts.insert(
                    account@,
                    old(self)@.preference_of(account@).hiding(calendar_id@),
                ),
                ..old(self)@
            }),
    {
        let mut choices = self.get_account_preference(account.as_str());
        if !choices.hides(calendar_id.as_str()) {
            let ghost before = choices.hidden_calendars@;
            choices.hidden_calendars.push(calendar_id);
            assert(texts(choices.hidden_calendars@) =~= texts(before).push(calendar_id@));
        }
        self.put(account, choices);
        Ok(())
    }

    /// Shows `calendar_id` of `account` again. The account is listed
    /// afterwards, the calendar no longer among its hidden ones.
    pub fn show_calendar(&mut self, account: String, calendar_id: String) -> (done: Result<
        (),
        String,
    >)
        ensures
            done.is_ok(),
            final(self)@ == (PreferencesView {
                accounts: old(self)@.accounts.insert(
                    account@,
                    old(self)@.preference_of(account@).showing(calendar_id@),
                ),
                ..old(self)@
            }),
    {
        let choices = self.get_account_preference(account.as_str());
        let shown = AccountPreference {
            hidden_calendars: without_text(&choices.hidden_calendars, calendar_id.as_str()),
        };
        self.put(account, shown);
        Ok(())
    }

    /// The path of the file the preferences are kept in.
    pub fn storage_path(&self) -> (path: String)
        ensures
            path@ == self@.storage_path,
    {
        self.storage_path.clone()
    }

    /// Whether alerts are raised for meetings only.
    pub fn notify_only_meetings(&self) -> (flag: bool)
        ensures
            flag == self@.notify_only_meetings,
    {
        self.notify_only_meetings
    }

    /// The listed emails, each once, with the choices made for it.
    pub fn accounts(&self) -> (pairs: Vec<(String, AccountPreference)>)
        ensures
            distinct_emails(pairs@),
            preference_map(pairs@) == self@.accounts,
    {
        proof {
            use_type_invariant(self);
        }
        let mut copy: Vec<(String, AccountPreference)> = Vec::new();
        let mut i: usize = 0;
        while i < self.accounts_preferences.len()
            invariant
                i <= self.accounts_preferences.len(),
                copy.len() == i,
                forall|k: int|
                    0 <= k < i ==> copy[k].0@ == self.accounts_preferences[k].0@ && copy[k].1@
                        == self.accounts_preferences[k].1@,
            decreases self.accounts_preferences.len() - i,
        {
            copy.push((self.accounts_preferences[i].0.clone(), self.accounts_preferences[i].1.clone()));
            i += 1;
        }
        proof {
            lemma_same_pairs(copy@, self.accounts_preferences@);
        }
        copy
    }

    /// These preferences for display: the storage path is withheld.
    pub fn get_state(&self) -> (state: Preferences)
        ensures
            state@ == (PreferencesView { storage_path: "[redacted]"@, ..self@ }),
    {
        Preferences {
            storage_path: String::from_str("[redacted]"),
            notify_only_meetings: self.notify_only_meetings,
            accounts_preferences: self.accounts(),
        }
    }
}

/// Lists that hold the same emails and choices, pair by pair, assign the
/// same choices and are distinct together.
proof fn lemma_same_pairs(a: Seq<(String, AccountPreference)>, b: Seq<(String, AccountPreference)>)
    requires
        a.len() == b.len(),
        forall|k: int| 0 <= k < a.len() ==> a[k].0@ == b[k].0@ && a[k].1@ == b[k].1@,
    ensures
        preference_map(a) == preference_map(b),
        distinct_emails(b) ==> distinct_emails(a),
    decreases a.len(),
{
    if a.len() > 0 {
        lemma_same_pairs(a.drop_last(), b.drop_last());
    }
    if distinct_emails(b) {
        assert forall|i: int, j: int| 0 <= i < j < a.len() implies a[i].0@ != a[j].0@ by {
            assert(b[i].0@ != b[j].0@);
        }
    }
}

} // verus!

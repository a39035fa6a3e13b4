//! Credentials and tokens as the notifier stores them.

use vstd::prelude::*;
use crate::text::{clone_optional_text, optional_text};

verus! {

/// The application's own credentials at the calendar provider.
pub struct AppCredentials {
    pub google_client_id: String,
    pub google_client_secret: String,
    pub google_calendar_api_key: String,
    pub google_redirect_url: String,
}

/// What an [`AppCredentials`] holds.
pub struct AppCredentialsView {
    pub google_client_id: Seq<char>,
    pub google_client_secret: Seq<char>,
    pub google_calendar_api_key: Seq<char>,
    pub google_redirect_url: Seq<char>,
}

impl View for AppCredentials {
    type V = AppCredentialsView;

    open spec fn view(&self) -> AppCredentialsView {
        AppCredentialsView {
            google_client_id: self.google_client_id@,
            google_client_secret: self.google_client_secret@,
            google_calendar_api_key: self.google_calendar_api_key@,
            google_redirect_url: self.google_redirect_url@,
        }
    }
}

impl Clone for AppCredentials {
    fn clone(&self) -> (copy: Self)
        ensures
            copy@ == self@,
    {
        AppCredentials {
            google_client_id: self.google_client_id.clone(),
            google_client_secret: self.google_client_secret.clone(),
            google_calendar_api_key: self.google_calendar_api_key.clone(),
            google_redirect_url: self.google_redirect_url.clone(),
        }
    }
}

impl Default for AppCredentials {
    fn default() -> (empty: Self)
        ensures
            empty@ == (AppCredentialsView {
                google_client_id: Seq::empty(),
                google_client_secret: Seq::empty(),
                google_calendar_api_key: Seq::empty(),
                google_redirect_url: Seq::empty(),
            }),
    {
        AppCredentials {
            google_client_id: String::new(),
            google_client_secret: String::new(),
            google_calendar_api_key: String::new(),
            google_redirect_url: String::new(),
        }
    }
}

/// The provider's profile of the person an account belongs to. The email
/// is the account's identity.
pub struct UserInfo {
    pub id: String,
    pub email: String,
    pub verified_email: bool,
    pub name: String,
    pub given_name: String,
    pub family_name: String,
    pub picture: String,
    pub locale: String,
}

/// What a [`UserInfo`] holds.
pub struct UserInfoView {
    pub id: Seq<char>,
    pub email: Seq<char>,
    pub verified_email: bool,
    pub name: Seq<char>,
    pub given_name: Seq<char>,
    pub family_name: Seq<char>,
    pub picture: Seq<char>,
    pub locale: Seq<char>,
}

impl View for UserInfo {
    type V = UserInfoView;

    open spec fn view(&self) -> UserInfoView {
        UserInfoView {
            id: self.id@,
            email: self.email@,
            verified_email: self.verified_email,
            name: self.name@,
            given_name: self.given_name@,
            family_name: self.family_name@,
            picture: self.picture@,
            locale: self.locale@,
        }
    }
}

impl Clone for UserInfo {
    fn clone(&self) -> (copy: Self)
        ensures
            copy@ == self@,
    {
        UserInfo {
            id: self.id.clone(),
            email: self.email.clone(),
            verified_email: self.verified_email,
            name: self.name.clone(),
            given_name: self.given_name.clone(),
            family_name: self.family_name.clone(),
            picture: self.picture.clone(),
            locale: self.locale.clone(),
        }
    }
}

/// An account's token with what the provider said of it. `expires_at` is the
/// instant, in seconds since the Unix epoch, from which the access token is
/// no longer valid; `expires_in` is the lifetime the provider granted.
pub struct GoogleAuthToken {
    pub access_token: String,
    pub token_type: String,
    pub expires_in: i64,
    pub refresh_token: Option<String>,
    pub scope: String,
    pub expires_at: Option<i64>,
    pub user: Option<UserInfo>,
    pub disabled: Option<bool>,
}

/// What a [`GoogleAuthToken`] holds.
pub struct GoogleAuthTokenView {
    pub access_token: Seq<char>,
    pub token_type: Seq<char>,
    pub expires_in: i64,
    pub refresh_token: Option<Seq<char>>,
    pub scope: Seq<char>,
    pub expires_at: Option<i64>,
    pub user: Option<UserInfoView>,
    pub disabled: Option<bool>,
}

/// The view of an optional profile.
pub open spec fn optional_user(user: Option<UserInfo>) -> Option<UserInfoView> {
    match user {
        Some(u) => Some(u@),
        None => None,
    }
}

impl View for GoogleAuthToken {
    type V = GoogleAuthTokenView;

    open spec fn view(&self) -> GoogleAuthTokenView {
        GoogleAuthTokenView {
            access_token: self.access_token@,
            token_type: self.token_type@,
            expires_in: self.expires_in,
            refresh_token: optional_text(self.refresh_token),
            scope: self.scope@,
            expires_at: self.expires_at,
            user: optional_user(self.user),
            disabled: self.disabled,
        }
    }
}

impl GoogleAuthTokenView {
    /// The email the token is issued to, where the token names its owner.
    pub open spec fn email(self) -> Option<Seq<char>> {
        match self.user {
            Some(u) => Some(u.email),
            None => None,
        }
    }

    /// A token counts as expired at `now` when it has no expiry or its
    /// expiry is not later than `now`.
    pub open spec fn expired_at(self, now: int) -> bool {
        match self.expires_at {
            Some(at) => at <= now,
            None => true,
        }
    }

    /// Whether the account of this token is left out of polls.
    pub open spec fn is_disabled(self) -> bool {
        self.disabled == Some(true)
    }
}

impl GoogleAuthToken {
    /// Whether the access token can no longer be used at `now`: it has no
    /// expiry, or its expiry is not later than `now`.
    pub fn is_expired(&self, now: i64) -> (expired: bool)
        ensures
            expired == self@.expired_at(now as int),
    {
        match self.expires_at {
            Some(at) => at <= now,
            None => true,
        }
    }
}

impl Clone for GoogleAuthToken {
    fn clone(&self) -> (copy: Self)
        ensures
            copy@ == self@,
    {
        let user = match &self.user {
            Some(u) => Some(u.clone()),
            None => None,
        };
        GoogleAuthToken {
            access_token: self.access_token.clone(),
            token_type: self.token_type.clone(),
            expires_in: self.expires_in,
            refresh_token: clone_optional_text(&self.refresh_token),
            scope: self.scope.clone(),
            expires_at: self.expires_at,
            user,
            disabled: self.disabled,
        }
    }
}

/// A token as it is kept on disk between runs.
pub struct StateToken {
    pub token: GoogleAuthToken,
    pub disabled: Option<bool>,
}

/// What a [`StateToken`] holds.
pub struct StateTokenView {
    pub token: GoogleAuthTokenView,
    pub disabled: Option<bool>,
}

impl View for StateToken {
    type V = StateTokenView;

    open spec fn view(&self) -> StateTokenView {
        StateTokenView { token: self.token@, disabled: self.disabled }
    }
}

impl Clone for StateToken {
    fn clone(&self) -> (copy: Self)
        ensures
            copy@ == self@,
    {
        StateToken { token: self.token.clone(), disabled: self.disabled }
    }
}

/// The views of a list of tokens, in order.
pub open spec fn token_views(tokens: Seq<GoogleAuthToken>) -> Seq<GoogleAuthTokenView> {
    tokens.map_values(|t: GoogleAuthToken| t@)
}

} // verus!

//! Settings of the sign-in relay and the environment it runs in.

use vstd::prelude::*;
use vstd::string::StringExecFns;
use crate::text::same_text;

verus! {

/// `text` in lower case, as `str::to_lowercase` yields it.
pub uninterp spec fn lowercase(text: Seq<char>) -> Seq<char>;

/// `str::to_lowercase`. Claimed of it: the result depends on the text alone.
#[verifier::external_body]
fn lowercased(text: &str) -> (lower: String)
    ensures
        lower@ == lowercase(text@),
{
    text.to_lowercase()
}

/// Listening address and provider credentials of the sign-in relay.
pub struct ApplicationSettings {
    pub port: u16,
    pub host: String,
    pub base_url: String,
    pub google_client_id: String,
    pub google_client_secret: String,
    pub google_calendar_api_key: String,
    pub google_redirect_url: String,
}

pub struct Settings {
    pub application: ApplicationSettings,
}

/// The deployment the relay runs in; it selects the settings file.
#[derive(Clone, Copy, Debug, PartialEq, Eq, Structural)]
pub enum Environment {
    Development,
    Production,
}

impl Environment {
    /// The settings-file stem of this environment.
    pub open spec fn name(self) -> Seq<char> {
        match self {
            Environment::Production => "production"@,
            Environment::Development => "development"@,
        }
    }

    pub fn as_str(&self) -> (name: &'static str)
        ensures
            name@ == self.name(),
    {
        match self {
            Environment::Production => "production",
            Environment::Development => "development",
        }
    }
}

/// What a result of reading an environment holds.
pub open spec fn reading_view(reading: Result<Environment, String>) -> Result<Environment, Seq<char>> {
    match reading {
        Ok(environment) => Ok(environment),
        Err(message) => Err(message@),
    }
}

impl Environment {
    /// The environment that the lower-case name `lower` stands for, or the
    /// message that says which names are supported.
    pub open spec fn named(lower: Seq<char>) -> Result<Environment, Seq<char>> {
        if lower == "development"@ {
            Ok(Environment::Development)
        } else if lower == "production"@ {
            Ok(Environment::Production)
        } else {
            Err(lower + " is not a supported environment, use either `development` or `production`"@)
        }
    }

    /// The environment that the lower-case name `lower` stands for.
    pub fn from_lowercase(lower: &str) -> (reading: Result<Environment, String>)
        ensures
            reading_view(reading) == Environment::named(lower@),
    {
        if same_text(lower, "development") {
            Ok(Environment::Development)
        } else if same_text(lower, "production") {
            Ok(Environment::Production)
        } else {
            Err(
                String::from_str(lower).concat(
                    " is not a supported environment, use either `development` or `production`",
                ),
            )
        }
    }

    /// The environment that `value` names, whatever the case of its letters.
    pub fn try_from(value: String) -> (reading: Result<Environment, String>)
        ensures
            reading_view(reading) == Environment::named(lowercase(value@)),
    {
        let lower = lowercased(value.as_str());
        Environment::from_lowercase(lower.as_str())
    }
}

/// Why the sign-in relay could not exchange a code for a token.
pub enum OauthCallbackError {
    /// The provider refused the code; the text is the provider's.
    AuthenticationError(String),
    /// The exchange failed for another reason.
    UnexpectedError(String),
}

impl OauthCallbackError {
    /// The HTTP status the relay answers with: 401 where the provider
    /// refused, 400 otherwise.
    pub fn status_code(&self) -> (status: u16)
        ensures
            status == match self {
                OauthCallbackError::AuthenticationError(_) => 401u16,
                OauthCallbackError::UnexpectedError(_) => 400u16,
            },
    {
        match self {
            OauthCallbackError::AuthenticationError(_) => 401,
            OauthCallbackError::UnexpectedError(_) => 400,
        }
    }

    /// The text of the error.
    pub fn message(&self) -> (text: String)
        ensures
            text@ == match self {
                OauthCallbackError::AuthenticationError(m) => m@,
                OauthCallbackError::UnexpectedError(m) => m@,
            },
    {
        match self {
            OauthCallbackError::AuthenticationError(m) => m.clone(),
            OauthCallbackError::UnexpectedError(m) => m.clone(),
        }
    }
}

} // verus!

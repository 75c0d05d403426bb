//! The settings of the program, resolved from what the caller found.

use vstd::prelude::*;
use crate::decimal::parse_count;
use crate::decimal::parsed_count;

verus! {

/// The seconds to wait for the remote service where no other number is set.
pub const DEFAULT_TIMEOUT_SECS: u64 = 120;

/// The token budget of a context window where no other number is set.
pub const DEFAULT_BUDGET: u64 = 4096;

/// The model that is asked where no other is named.
pub open spec fn default_model() -> Seq<char> {
    "gpt-3.5-turbo"@
}

/// The settings as the caller found them, each `None` where it was not set.
#[derive(Clone, Debug, PartialEq, Eq)]
pub struct Settings {
    /// The credential for the remote service.
    pub api_key: Option<String>,
    /// The model named on the command line.
    pub model_flag: Option<String>,
    /// The model named in the environment.
    pub model: Option<String>,
    /// The text of the request timeout, in seconds.
    pub timeout: Option<String>,
    /// The text of the token budget.
    pub budget: Option<String>,
}

/// The resolved settings.
#[derive(Clone, Debug, PartialEq, Eq)]
pub struct Config {
    pub api_key: String,
    pub model: String,
    /// The request timeout in seconds.
    pub timeout: u64,
    /// The token budget of a context window.
    pub budget: u64,
}

/// Why the settings could not be resolved.
#[derive(Clone, Copy, Debug, PartialEq, Eq, Structural)]
pub enum ConfigError {
    /// No credential is set.
    MissingApiKey,
}

/// The model to ask: the one named on the command line, else the one named
/// in the environment, else the default.
pub open spec fn chosen_model(flag: Option<Seq<char>>, named: Option<Seq<char>>) -> Seq<char> {
    match flag {
        Some(model) => model,
        None => match named {
            Some(model) => model,
            None => default_model(),
        },
    }
}

/// The count that a setting gives: the count that its text writes, and
/// `fallback` where it is not set or writes none.
pub open spec fn count_or(text: Option<Seq<char>>, fallback: u64) -> u64 {
    match text {
        Some(t) => match parsed_count(t) {
            Some(n) => n,
            None => fallback,
        },
        None => fallback,
    }
}

/// Reads the count of a setting, or takes `fallback`.
fn read_count(text: &Option<String>, fallback: u64) -> (count: u64)
    ensures
        count == count_or(text.deep_view(), fallback),
{
    match text {
        Some(t) => match parse_count(t.as_str()) {
            Some(n) => n,
            None => fallback,
        },
        None => fallback,
    }
}

impl Config {
    /// Resolves the settings. It fails where no credential is set, and only
    /// there. The model is the one of the command line before the one of the
    /// environment before the default; a timeout or budget that is not set,
    /// or is no count, is the default.
    pub fn resolve(settings: Settings) -> (outcome: Result<Config, ConfigError>)
        ensures
            settings.api_key is None ==> outcome == Err::<Config, ConfigError>(
                ConfigError::MissingApiKey,
            ),
            settings.api_key matches Some(key) ==> outcome matches Ok(config) && config.api_key@
                == key@ && config.model@ == chosen_model(
                settings.model_flag.deep_view(),
                settings.model.deep_view(),
            ) && config.timeout == count_or(settings.timeout.deep_view(), DEFAULT_TIMEOUT_SECS)
                && config.budget == count_or(settings.budget.deep_view(), DEFAULT_BUDGET),
    {
        let timeout = read_count(&settings.timeout, DEFAULT_TIMEOUT_SECS);
        let budget = read_count(&settings.budget, DEFAULT_BUDGET);
        let model = match settings.model_flag {
            Some(model) => model,
            None => match settings.model {
                Some(model) => model,
                None => "gpt-3.5-turbo".to_owned(),
            },
        };
        match settings.api_key {
            Some(api_key) => Ok(Config { api_key, model, timeout, budget }),
            None => Err(ConfigError::MissingApiKey),
        }
    }
}

} // verus!

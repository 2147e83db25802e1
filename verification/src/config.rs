//! Connection settings.

use vstd::prelude::*;

verus! {

/// Where the API is and how to authenticate.
pub struct Config {
    pub api_url: String,
    pub api_token: String,
}

/// Settings that are missing.
#[derive(Debug, PartialEq, Eq, Structural, Clone, Copy)]
pub enum ConfigError {
    /// `VIKUNJA_API_URL` or `VIKUNJA_API_TOKEN` is unset or empty.
    Missing,
}

impl ConfigError {
    /// The message shown for the error.
    pub fn message(&self) -> (m: String)
        ensures
            m@ == "VIKUNJA_API_URL and VIKUNJA_API_TOKEN must be set.\nExample: export VIKUNJA_API_URL=http://localhost:3456/api/v1\nexport VIKUNJA_API_TOKEN=tk_xxxxxxxx"@,
    {
        "VIKUNJA_API_URL and VIKUNJA_API_TOKEN must be set.\nExample: export VIKUNJA_API_URL=http://localhost:3456/api/v1\nexport VIKUNJA_API_TOKEN=tk_xxxxxxxx".to_owned()
    }
}

/// The settings from the values of `VIKUNJA_API_URL` and `VIKUNJA_API_TOKEN`: both must be
/// present and non-empty.
pub fn config_from(api_url: Option<String>, api_token: Option<String>) -> (r: Result<Config, ConfigError>)
    ensures
        match (api_url, api_token) {
            (Some(u), Some(t)) => if u@.len() > 0 && t@.len() > 0 {
                r matches Ok(c) && c.api_url@ == u@ && c.api_token@ == t@
            } else {
                r == Err::<Config, ConfigError>(ConfigError::Missing)
            },
            _ => r == Err::<Config, ConfigError>(ConfigError::Missing),
        },
{
    match (api_url, api_token) {
        (Some(u), Some(t)) => {
            if u.unicode_len() > 0 && t.unicode_len() > 0 {
                Ok(Config { api_url: u, api_token: t })
            } else {
                Err(ConfigError::Missing)
            }
        },
        _ => Err(ConfigError::Missing),
    }
}

} // verus!

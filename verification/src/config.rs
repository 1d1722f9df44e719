//! The settings of the program: what the environment sets comes before what
//! the configuration file sets.

use crate::text::push_str;
use crate::timestamp::Duration;
use vstd::prelude::*;

verus! {

/// A setting that is needed and that neither the environment nor the
/// configuration file sets, by its name.
#[derive(Debug)]
pub struct MissingVarError(pub &'static str);

impl MissingVarError {
    /// The message of the error.
    pub fn message(&self) -> (r: String)
        ensures
            r@ == self.0@ + " not set"@,
    {
        let mut out = String::new();
        push_str(&mut out, self.0);
        push_str(&mut out, " not set");
        out
    }
}

/// Why the value of a setting in the environment cannot be used.
#[derive(Clone, Copy, Debug, PartialEq, Eq)]
pub enum InvalidVarReason {
    InvalidUtf8,
    ParseError,
}

/// The credentials for the post service, as far as they are set.
#[derive(Debug)]
pub struct OAuth10aConfig {
    pub consumer_key: Option<String>,
    pub consumer_secret: Option<String>,
    pub token: Option<String>,
    pub token_secret: Option<String>,
}

/// The credentials for the post service.
#[derive(Debug)]
pub struct Authentication {
    pub consumer_key: String,
    pub consumer_secret: String,
    pub token: String,
    pub token_secret: String,
}

/// How to reach the post service, as far as it is set.
#[derive(Debug)]
pub struct GoldcrestConfig {
    pub scheme: Option<String>,
    pub host: Option<String>,
    pub port: Option<u16>,
    pub request_timeout_seconds: Option<u32>,
    pub wait_timeout_seconds: Option<u32>,
}

/// How to reach the post service: each part where it is set.
#[derive(Debug)]
pub struct GoldcrestSettings {
    pub scheme: Option<String>,
    pub host: Option<String>,
    pub port: Option<u32>,
    pub request_timeout: Option<Duration>,
    pub wait_timeout: Option<Duration>,
}

/// The value of a setting: that of the environment where it sets one, else
/// that of the configuration file.
pub fn setting<T>(env: Option<T>, config: Option<T>) -> (r: Option<T>)
    ensures
        r == match env {
            Some(v) => Some(v),
            None => config,
        },
{
    match env {
        Some(v) => Some(v),
        None => config,
    }
}

/// The value of a setting that is needed, or the error that names it.
pub fn required_setting(env: Option<String>, config: Option<String>, name: &'static str) -> (r:
    Result<String, MissingVarError>)
    ensures
        match (env, config) {
            (Some(v), _) => r == Ok::<String, MissingVarError>(v),
            (None, Some(v)) => r == Ok::<String, MissingVarError>(v),
            (None, None) => r matches Err(e) && e.0 == name,
        },
{
    match setting(env, config) {
        Some(v) => Ok(v),
        None => Err(MissingVarError(name)),
    }
}

/// What is missing first of the credentials, in the order consumer key,
/// consumer secret, token, token secret.
pub open spec fn first_missing(env: OAuth10aConfig, config: OAuth10aConfig) -> Option<Seq<char>> {
    if env.consumer_key is None && config.consumer_key is None {
        Some("twitter consumer key"@)
    } else if env.consumer_secret is None && config.consumer_secret is None {
        Some("twitter consumer secret"@)
    } else if env.token is None && config.token is None {
        Some("twitter token"@)
    } else if env.token_secret is None && config.token_secret is None {
        Some("twitter token secret"@)
    } else {
        None
    }
}

/// The value that the environment sets, else the one that the file sets.
pub open spec fn chosen(env: Option<String>, config: Option<String>) -> String {
    match env {
        Some(v) => v,
        None => config->0,
    }
}

/// The credentials for the post service, each from the environment where it
/// sets one, else from the configuration file.
pub fn get_twitter_auth(env: OAuth10aConfig, config: OAuth10aConfig) -> (r: Result<
    Authentication,
    MissingVarError,
>)
    ensures
        match first_missing(env, config) {
            Some(name) => r matches Err(e) && e.0@ == name,
            None => r matches Ok(auth) && auth.consumer_key == chosen(
                env.consumer_key,
                config.consumer_key,
            ) && auth.consumer_secret == chosen(env.consumer_secret, config.consumer_secret)
                && auth.token == chosen(env.token, config.token) && auth.token_secret == chosen(
                env.token_secret,
                config.token_secret,
            ),
        },
{
    let consumer_key = match required_setting(
        env.consumer_key,
        config.consumer_key,
        "twitter consumer key",
    ) {
        Ok(v) => v,
        Err(e) => {
            return Err(e);
        },
    };
    let consumer_secret = match required_setting(
        env.consumer_secret,
        config.consumer_secret,
        "twitter consumer secret",
    ) {
        Ok(v) => v,
        Err(e) => {
            return Err(e);
        },
    };
    let token = match required_setting(env.token, config.token, "twitter token") {
        Ok(v) => v,
        Err(e) => {
            return Err(e);
        },
    };
    let token_secret = match required_setting(
        env.token_secret,
        config.token_secret,
        "twitter token secret",
    ) {
        Ok(v) => v,
        Err(e) => {
            return Err(e);
        },
    };
    Ok(Authentication { consumer_key, consumer_secret, token, token_secret })
}

/// A number of seconds as a length of time, where there is one.
pub open spec fn seconds_of(seconds: Option<u32>) -> Option<Duration> {
    match seconds {
        Some(s) => Some(Duration { seconds: s as i64, nanos: 0 }),
        None => None,
    }
}

/// How to reach the post service: each part from the environment where it
/// sets one, else from the configuration file, and left out where neither
/// sets it.
pub fn goldcrest_settings(env: GoldcrestConfig, config: GoldcrestConfig) -> (r: GoldcrestSettings)
    ensures
        r.scheme == match env.scheme {
            Some(v) => Some(v),
            None => config.scheme,
        },
        r.host == match env.host {
            Some(v) => Some(v),
            None => config.host,
        },
        r.port == match (env.port, config.port) {
            (Some(p), _) => Some(p as u32),
            (None, Some(p)) => Some(p as u32),
            (None, None) => None,
        },
        r.request_timeout == seconds_of(
            match env.request_timeout_seconds {
                Some(s) => Some(s),
                None => config.request_timeout_seconds,
            },
        ),
        r.wait_timeout == seconds_of(
            match env.wait_timeout_seconds {
                Some(s) => Some(s),
                None => config.wait_timeout_seconds,
            },
        ),
{
    let port = match setting(env.port, config.port) {
        Some(p) => Some(p as u32),
        None => None,
    };
    let request_timeout = match setting(
        env.request_timeout_seconds,
        config.request_timeout_seconds,
    ) {
        Some(s) => Some(Duration::seconds(s as i64)),
        None => None,
    };
    let wait_timeout = match setting(env.wait_timeout_seconds, config.wait_timeout_seconds) {
        Some(s) => Some(Duration::seconds(s as i64)),
        None => None,
    };
    GoldcrestSettings {
        scheme: setting(env.scheme, config.scheme),
        host: setting(env.host, config.host),
        port,
        request_timeout,
        wait_timeout,
    }
}

} // verus!

//! Snake-specific configuration values and the rules that derive them.
use vstd::prelude::*;

use crate::text::{parse_i64, parse_i64_str};

verus! {

/// Canonical application brand name, the default site title.
pub const APP_BRAND: &'static str = "Snake";

/// Env-var name controlling the undo-history cookie lifetime.
pub const PAGE_HISTORY_COOKIE_AGE_ENV: &'static str = "PAGE_HISTORY_COOKIE_AGE";

/// Env-var name indicating whether the deployment is dev or production.
pub const NODE_ENV_VAR: &'static str = "NODE_ENV";

/// Fallback for the deployment environment when the env var is unset.
pub const DEFAULT_NODE_ENV: &'static str = "development";

/// Default undo-history cookie age in days.
pub const DEFAULT_PAGE_HISTORY_COOKIE_AGE_DAYS: i64 = 365;

/// The port that the shared server configuration falls back to.
pub const SHARED_DEFAULT_PORT: u16 = 4401;

/// The undo-history cookie age from the raw env value: its `i64` value when
/// it reads as one, else [`DEFAULT_PAGE_HISTORY_COOKIE_AGE_DAYS`].
pub fn page_history_cookie_age_from_env(raw: Option<&str>) -> (days: i64)
    ensures
        match raw {
            Some(s) => match parse_i64(s@) {
                Some(v) => days as int == v,
                None => days == DEFAULT_PAGE_HISTORY_COOKIE_AGE_DAYS,
            },
            None => days == DEFAULT_PAGE_HISTORY_COOKIE_AGE_DAYS,
        },
{
    match raw {
        Some(s) => match parse_i64_str(s) {
            Some(v) => v,
            None => DEFAULT_PAGE_HISTORY_COOKIE_AGE_DAYS,
        },
        None => DEFAULT_PAGE_HISTORY_COOKIE_AGE_DAYS,
    }
}

/// The port that assembling the configuration settles on: the caller's
/// `requested` port replaces the shared loader's port only when the shared
/// loader kept its own default and the caller asked for another port.
pub fn assemble_port(shared_port: u16, requested: u16) -> (port: u16)
    ensures
        port == (if shared_port == SHARED_DEFAULT_PORT && requested != SHARED_DEFAULT_PORT {
            requested
        } else {
            shared_port
        }),
{
    if shared_port == SHARED_DEFAULT_PORT && requested != SHARED_DEFAULT_PORT {
        requested
    } else {
        shared_port
    }
}

} // verus!

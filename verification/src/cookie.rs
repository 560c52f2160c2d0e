//! The authentication cookie: its attributes and its clamped lifetime.
use vstd::prelude::*;

verus! {

/// Name of the cookie that carries the authenticated session token.
pub const COOKIE_NAME: &'static str = "SNAKE_PIN";

/// One minute, in seconds: the floor for the cookie lifetime.
pub const MIN_LIFETIME_SECONDS: u64 = 60;

/// Thirty days, in seconds: the ceiling for the cookie lifetime.
pub const MAX_LIFETIME_SECONDS: u64 = 2592000;

/// `seconds` clamped to `[MIN_LIFETIME_SECONDS, MAX_LIFETIME_SECONDS]`.
pub open spec fn clamped_lifetime(seconds: int) -> int {
    if seconds < MIN_LIFETIME_SECONDS {
        MIN_LIFETIME_SECONDS as int
    } else if seconds > MAX_LIFETIME_SECONDS {
        MAX_LIFETIME_SECONDS as int
    } else {
        seconds
    }
}

/// The attributes of a `Set-Cookie` header issued by the server.
#[derive(Debug)]
pub struct AuthCookie {
    pub name: String,
    pub value: String,
    pub path: String,
    pub http_only: bool,
    pub secure: bool,
    /// `SameSite=Strict` when `true`.
    pub same_site_strict: bool,
    /// `Max-Age`, in seconds.
    pub max_age_seconds: u64,
}

/// A cookie lifetime in seconds, clamped to one minute .. thirty days.
pub fn clamp_seconds(seconds: i64) -> (s: u64)
    ensures
        s == clamped_lifetime(seconds as int),
{
    if seconds <= 0 {
        return MIN_LIFETIME_SECONDS;
    }
    let unsigned = seconds as u64;
    if unsigned < MIN_LIFETIME_SECONDS {
        return MIN_LIFETIME_SECONDS;
    }
    if unsigned > MAX_LIFETIME_SECONDS {
        return MAX_LIFETIME_SECONDS;
    }
    unsigned
}

/// `hours * 3600`, saturated at the `i64` bounds.
fn hours_to_seconds(hours: i64) -> (s: i64)
    ensures
        s == if hours * 3600 > i64::MAX {
            i64::MAX as int
        } else if hours * 3600 < i64::MIN {
            i64::MIN as int
        } else {
            hours * 3600
        },
{
    if hours > i64::MAX / 3600 {
        i64::MAX
    } else if hours < i64::MIN / 3600 {
        i64::MIN
    } else {
        hours * 3600
    }
}

/// Construct the authentication cookie carrying `session_id`: path `/`,
/// `HttpOnly`, `SameSite=Strict`, `Secure` as asked, and a lifetime of
/// `max_age_hours` clamped to one minute .. thirty days.
pub fn build_auth_cookie(session_id: &str, max_age_hours: i64, secure: bool) -> (c: AuthCookie)
    ensures
        c.name@ == COOKIE_NAME@,
        c.value@ == session_id@,
        c.path@ == "/"@,
        c.http_only,
        c.secure == secure,
        c.same_site_strict,
        c.max_age_seconds == clamped_lifetime(max_age_hours * 3600),
{
    let seconds = hours_to_seconds(max_age_hours);
    AuthCookie {
        name: String::from_str(COOKIE_NAME),
        value: String::from_str(session_id),
        path: String::from_str("/"),
        http_only: true,
        secure,
        same_site_strict: true,
        max_age_seconds: clamp_seconds(seconds),
    }
}

/// The expired authentication cookie that clears the session on logout:
/// empty value, `Max-Age=0`, otherwise the same attributes.
pub fn build_clear_cookie(secure: bool) -> (c: AuthCookie)
    ensures
        c.name@ == COOKIE_NAME@,
        c.value@ == Seq::<char>::empty(),
        c.path@ == "/"@,
        c.http_only,
        c.secure == secure,
        c.same_site_strict,
        c.max_age_seconds == 0,
{
    AuthCookie {
        name: String::from_str(COOKIE_NAME),
        value: String::new(),
        path: String::from_str("/"),
        http_only: true,
        secure,
        same_site_strict: true,
        max_age_seconds: 0,
    }
}

/// An issued cookie always lives between one minute and thirty days.
pub proof fn law_cookie_lifetime_bounded(hours: i64)
    ensures
        MIN_LIFETIME_SECONDS <= clamped_lifetime(hours * 3600) <= MAX_LIFETIME_SECONDS,
{
}

} // verus!

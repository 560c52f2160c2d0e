//! The browser application's top-level state: what it starts with and what
//! the page frame shows for it.
use vstd::prelude::*;

use crate::text::str_eq;

verus! {

/// The top-level state of the browser application.
pub struct App {
    /// `true` once the PIN gate is cleared (or none is required).
    pub authenticated: bool,
    /// Server version; empty until the configuration arrives.
    pub app_version: String,
    /// Header title; empty until the configuration arrives.
    pub site_title: String,
    /// Active theme name.
    pub theme: String,
    /// Active locale code.
    pub locale_state: String,
    /// Transient footer banner: message and CSS class.
    pub active_notification: Option<(String, String)>,
    /// Whether the PIN gate guards the game.
    pub is_pin_required: bool,
    pub enable_translation: bool,
    pub enable_themes: bool,
    pub enable_print: bool,
    pub show_version: bool,
    pub show_github: bool,
}

impl App {
    /// The state at start-up, with the persisted `theme` and `locale`: not
    /// yet authenticated, the PIN gate assumed until the server says
    /// otherwise, no version or title yet, translation and themes shown,
    /// printing hidden, version badge and source link shown.
    pub fn create_app(theme: String, locale: String) -> (a: App)
        ensures
            !a.authenticated,
            a.app_version@.len() == 0,
            a.site_title@.len() == 0,
            a.theme@ == theme@,
            a.locale_state@ == locale@,
            a.active_notification is None,
            a.is_pin_required,
            a.enable_translation,
            a.enable_themes,
            !a.enable_print,
            a.show_version,
            a.show_github,
    {
        App {
            authenticated: false,
            app_version: String::new(),
            site_title: String::new(),
            theme,
            locale_state: locale,
            active_notification: None,
            is_pin_required: true,
            enable_translation: true,
            enable_themes: true,
            enable_print: false,
            show_version: true,
            show_github: true,
        }
    }

    /// CSS class of the main content area: `app-body` once authenticated,
    /// `container` around the login form.
    pub fn content_class(&self) -> (c: &'static str)
        ensures
            c@ == if self.authenticated {
                "app-body"@
            } else {
                "container"@
            },
    {
        if self.authenticated {
            "app-body"
        } else {
            "container"
        }
    }

    /// Printing is disabled while the PIN gate is still closed.
    pub fn print_disabled(&self) -> (d: bool)
        ensures
            d == (self.is_pin_required && !self.authenticated),
    {
        self.is_pin_required && !self.authenticated
    }

    /// The footer banner: the active notification, or `Ready` styled as
    /// `success` when there is none.
    pub fn footer_status(&self) -> (s: (String, String))
        ensures
            match self.active_notification {
                Some(n) => s.0@ == n.0@ && s.1@ == n.1@,
                None => s.0@ == "Ready"@ && s.1@ == "success"@,
            },
    {
        match &self.active_notification {
            Some(n) => (n.0.clone(), n.1.clone()),
            None => (String::from_str("Ready"), String::from_str("success")),
        }
    }
}

/// Whether a message from the service worker asks for a reload: it must be
/// a `CACHE_UPDATED` message that asks for one, announcing a version other
/// than the one the page already runs. A missing type or version reads as
/// empty, a missing reload flag as `false`.
pub fn cache_update_wants_reload(
    msg_type: &str,
    reload: bool,
    msg_version: &str,
    known_version: &str,
) -> (r: bool)
    ensures
        r == (msg_type@ == "CACHE_UPDATED"@ && reload && msg_version@ != known_version@),
{
    str_eq(msg_type, "CACHE_UPDATED") && reload && !str_eq(msg_version, known_version)
}

} // verus!

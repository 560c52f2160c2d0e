//! Start-up settings read from the process environment.
use vstd::prelude::*;

use crate::text::{parse_unsigned, parse_unsigned_str};

verus! {

/// Default listening port when `PORT` is unset or unparseable.
pub const DEFAULT_PORT: u16 = 4501;

/// Env-var name for the listening port.
pub const PORT_ENV: &'static str = "PORT";

/// The port that a raw `PORT` value selects: its value when it reads as a
/// `u16` decimal, else [`DEFAULT_PORT`].
pub open spec fn port_for(raw: Option<Seq<char>>) -> u16 {
    match raw {
        Some(s) => match parse_unsigned(s, 0xffff) {
            Some(v) => v as u16,
            None => DEFAULT_PORT,
        },
        None => DEFAULT_PORT,
    }
}

/// Resolve the listening port from a raw env value, falling back to
/// [`DEFAULT_PORT`] on missing or invalid input.
pub fn port_from_env(raw: Option<&str>) -> (port: u16)
    ensures
        port == port_for(
            match raw {
                Some(s) => Some(s@),
                None => None,
            },
        ),
{
    match raw {
        Some(s) => match parse_unsigned_str(s, 0xffff) {
            Some(v) => v as u16,
            None => DEFAULT_PORT,
        },
        None => DEFAULT_PORT,
    }
}

} // verus!

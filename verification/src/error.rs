//! The error type of the HTTP handlers and what a client is told about it.
//!
//! Operators see the full error in the logs; clients only ever get the
//! fixed message of its category, so no path, secret or internal context
//! leaks into a response.
use vstd::prelude::*;

verus! {

/// Declares `std::io::Error` so that an I/O failure can be carried.
#[verifier::external_type_specification]
#[verifier::external_body]
pub struct ExIoError(std::io::Error);

/// Declares `serde_json::Error` so that a JSON failure can be carried.
#[verifier::external_type_specification]
#[verifier::external_body]
pub struct ExJsonError(serde_json::Error);

/// Errors produced by the handlers and middleware.
#[derive(Debug)]
pub enum AppError {
    /// Underlying I/O failure (file missing, permission denied, etc.).
    Io(std::io::Error),
    /// JSON serialization/deserialization failure.
    Json(serde_json::Error),
    /// Anything else; the context is for the logs only.
    Internal { context: &'static str },
}

/// HTTP status of every handler error: `500 Internal Server Error`.
pub const INTERNAL_SERVER_ERROR: u16 = 500;

impl AppError {
    /// A generic internal error with the given log-friendly context.
    pub fn internal(context: &'static str) -> (e: Self)
        ensures
            e == (AppError::Internal { context }),
    {
        AppError::Internal { context }
    }

    /// HTTP status that this error maps to.
    pub fn status(&self) -> (code: u16)
        ensures
            code == INTERNAL_SERVER_ERROR,
    {
        match self {
            AppError::Io(_) => INTERNAL_SERVER_ERROR,
            AppError::Json(_) => INTERNAL_SERVER_ERROR,
            AppError::Internal { .. } => INTERNAL_SERVER_ERROR,
        }
    }

    /// The response body shown to the client: a fixed text per category.
    pub fn public_message(&self) -> (body: &'static str)
        ensures
            body@ == match self {
                AppError::Io(_) => "internal error: storage"@,
                AppError::Json(_) => "internal error: serialization"@,
                AppError::Internal { .. } => "internal error"@,
            },
    {
        match self {
            AppError::Io(_) => "internal error: storage",
            AppError::Json(_) => "internal error: serialization",
            AppError::Internal { .. } => "internal error",
        }
    }
}

} // verus!

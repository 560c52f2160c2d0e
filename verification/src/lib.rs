//! Verified core of the Snake arcade game and its score server.
//!
//! The HTTP server and the browser front end call into these modules for
//! every decision they make; the modules themselves do no I/O.
pub mod auth;
pub mod bootstrap;
pub mod config;
pub mod cookie;
pub mod error;
pub mod i18n;
pub mod ip;
pub mod leaderboard;
pub mod limits;
pub mod metrics;
pub mod middleware;
pub mod pages;
pub mod session;
pub mod shell;
pub mod snake;
pub mod storage;
pub mod text;

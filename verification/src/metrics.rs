//! Process-level counters surfaced via `/metrics`, and their Prometheus
//! text rendering.
use vstd::prelude::*;

use crate::text::{append_decimal, decimal_text};

verus! {

/// In-process metric counters.
pub struct Metrics {
    /// Total HTTP requests handled, including 4xx and 5xx responses.
    pub requests_total: u64,
    /// Total requests that returned `429 Too Many Requests`.
    pub requests_429_total: u64,
    /// Last-seen count of active session tokens.
    pub active_sessions: u64,
    /// Last-seen count of leaderboard entries.
    pub leaderboard_entries: u64,
    /// Build version, surfaced via the `snake_build_info` line.
    pub version: String,
}

/// The value that a counter holds after one increment (it wraps at `u64::MAX`).
pub open spec fn bumped(n: u64) -> u64 {
    if n == u64::MAX {
        0
    } else {
        (n + 1) as u64
    }
}

/// The Prometheus text payload for the given counter values: one metric per
/// line, each line ending in a newline.
pub open spec fn metrics_text(
    requests_total: u64,
    requests_429_total: u64,
    active_sessions: u64,
    leaderboard_entries: u64,
    version: Seq<char>,
) -> Seq<char> {
    "snake_requests_total "@ + decimal_text(requests_total as nat) + "\nsnake_requests_429_total "@
        + decimal_text(requests_429_total as nat) + "\nsnake_active_sessions "@ + decimal_text(
        active_sessions as nat,
    ) + "\nsnake_leaderboard_entries "@ + decimal_text(leaderboard_entries as nat)
        + "\nsnake_build_info{version=\""@ + version + "\"} 1\n"@
}

impl Metrics {
    /// Build a `Metrics` snapshot with the supplied initial gauges and zero
    /// counters.
    pub fn new(version: &str, active_sessions: u64, leaderboard_entries: u64) -> (m: Self)
        ensures
            m.requests_total == 0,
            m.requests_429_total == 0,
            m.active_sessions == active_sessions,
            m.leaderboard_entries == leaderboard_entries,
            m.version@ == version@,
    {
        Metrics {
            requests_total: 0,
            requests_429_total: 0,
            active_sessions,
            leaderboard_entries,
            version: String::from_str(version),
        }
    }

    /// Increment `snake_requests_total`.
    pub fn inc_requests(&mut self)
        ensures
            final(self).requests_total == bumped(old(self).requests_total),
            final(self).requests_429_total == old(self).requests_429_total,
            final(self).active_sessions == old(self).active_sessions,
            final(self).leaderboard_entries == old(self).leaderboard_entries,
            final(self).version@ == old(self).version@,
    {
        self.requests_total = self.requests_total.wrapping_add(1);
    }

    /// Increment `snake_requests_429_total`.
    pub fn inc_rate_limited(&mut self)
        ensures
            final(self).requests_429_total == bumped(old(self).requests_429_total),
            final(self).requests_total == old(self).requests_total,
            final(self).active_sessions == old(self).active_sessions,
            final(self).leaderboard_entries == old(self).leaderboard_entries,
            final(self).version@ == old(self).version@,
    {
        self.requests_429_total = self.requests_429_total.wrapping_add(1);
    }

    /// Overwrite the active-sessions gauge.
    pub fn set_active_sessions(&mut self, n: u64)
        ensures
            final(self).active_sessions == n,
            final(self).requests_total == old(self).requests_total,
            final(self).requests_429_total == old(self).requests_429_total,
            final(self).leaderboard_entries == old(self).leaderboard_entries,
            final(self).version@ == old(self).version@,
    {
        self.active_sessions = n;
    }

    /// Overwrite the leaderboard-entries gauge.
    pub fn set_leaderboard_entries(&mut self, n: u64)
        ensures
            final(self).leaderboard_entries == n,
            final(self).requests_total == old(self).requests_total,
            final(self).requests_429_total == old(self).requests_429_total,
            final(self).active_sessions == old(self).active_sessions,
            final(self).version@ == old(self).version@,
    {
        self.leaderboard_entries = n;
    }
}

/// Render `metrics` as a Prometheus text-format payload.
pub fn prometheus_text(metrics: &Metrics) -> (text: String)
    ensures
        text@ == metrics_text(
            metrics.requests_total,
            metrics.requests_429_total,
            metrics.active_sessions,
            metrics.leaderboard_entries,
            metrics.version@,
        ),
{
    let mut out = String::new();
    out.append("snake_requests_total ");
    append_decimal(&mut out, metrics.requests_total);
    out.append("\nsnake_requests_429_total ");
    append_decimal(&mut out, metrics.requests_429_total);
    out.append("\nsnake_active_sessions ");
    append_decimal(&mut out, metrics.active_sessions);
    out.append("\nsnake_leaderboard_entries ");
    append_decimal(&mut out, metrics.leaderboard_entries);
    out.append("\nsnake_build_info{version=\"");
    out.append(metrics.version.as_str());
    out.append("\"} 1\n");
    assert(out@ =~= metrics_text(
        metrics.requests_total,
        metrics.requests_429_total,
        metrics.active_sessions,
        metrics.leaderboard_entries,
        metrics.version@,
    ));
    out
}

/// A counter's value after `k` increments from `n`.
pub open spec fn bumped_times(n: u64, k: nat) -> u64
    decreases k,
{
    if k == 0 {
        n
    } else {
        bumped(bumped_times(n, (k - 1) as nat))
    }
}

/// No increment is lost: `k` increments of a counter at `n` add exactly `k`
/// as long as the sum stays within `u64`.
pub proof fn law_increments_add_up(n: u64, k: nat)
    requires
        n + k <= u64::MAX,
    ensures
        bumped_times(n, k) == n + k,
    decreases k,
{
    if k > 0 {
        law_increments_add_up(n, (k - 1) as nat);
    }
}

} // verus!

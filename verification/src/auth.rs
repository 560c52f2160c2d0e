//! PIN authentication: the set of live sessions, who counts as
//! authenticated, how a submitted PIN is judged, and the lockout message.
use vstd::prelude::*;

use crate::limits::{failures_after, locked_out, lockout_left, AttemptLog};
use crate::text::{append_decimal, chars_of, decimal_text, str_eq};

verus! {

/// Shortest PIN accepted, in characters.
pub const MIN_PIN_LEN: usize = 4;

/// Longest PIN accepted, in characters.
pub const MAX_PIN_LEN: usize = 64;

/// Whether the byte strings `a` and `b` are equal (strings of different
/// lengths are unequal), compared by `constant_time_eq::constant_time_eq`
/// without an early exit. Its constant timing is not stated here.
#[verifier::external_body]
fn bytes_equal_constant_time(a: &[u8], b: &[u8]) -> (r: bool)
    ensures
        r == (a@ == b@),
{
    constant_time_eq::constant_time_eq(a, b)
}

/// Whether the secrets `a` and `b` are the same string, compared in
/// constant time over their UTF-8 bytes.
pub fn secrets_match(a: &str, b: &str) -> (r: bool)
    ensures
        r == (a@ == b@),
{
    let r = bytes_equal_constant_time(a.as_bytes(), b.as_bytes());
    proof {
        vstd::utf8::encode_utf8_decode_utf8(a@);
        vstd::utf8::encode_utf8_decode_utf8(b@);
    }
    r
}

/// The set of currently valid session tokens.
pub struct SessionStore {
    ids: Vec<String>,
}

impl SessionStore {
    /// The tokens held, in insertion order.
    pub closed spec fn id_seq(&self) -> Seq<Seq<char>> {
        self.ids@.map_values(|s: String| s@)
    }

    #[verifier::type_invariant]
    closed spec fn no_duplicate_ids(self) -> bool {
        self.id_seq().no_duplicates()
    }

    /// Index of the token `id`, if held.
    fn position(&self, id: &str) -> (r: Option<usize>)
        ensures
            match r {
                Some(k) => k < self.ids.len() && self.id_seq()[k as int] == id@,
                None => !self.id_seq().contains(id@),
            },
    {
        let n = self.ids.len();
        let mut k: usize = 0;
        while k < n
            invariant
                k <= n == self.ids.len(),
                forall|j: int| 0 <= j < k ==> self.id_seq()[j] != id@,
            decreases n - k,
        {
            if str_eq(self.ids[k].as_str(), id) {
                return Some(k);
            }
            k = k + 1;
        }
        None
    }
}

impl View for SessionStore {
    type V = Set<Seq<char>>;

    closed spec fn view(&self) -> Set<Seq<char>> {
        self.id_seq().to_set()
    }
}

impl SessionStore {
    /// An empty store.
    pub fn new() -> (s: Self)
        ensures
            s@ == Set::<Seq<char>>::empty(),
    {
        let s = SessionStore { ids: Vec::new() };
        assert(s@ =~= Set::<Seq<char>>::empty());
        s
    }

    /// `true` if `id` is currently a valid session token.
    pub fn session_is_valid(&self, id: &str) -> (valid: bool)
        ensures
            valid == self@.contains(id@),
    {
        self.position(id).is_some()
    }

    /// Insert a freshly minted session token.
    pub fn register_session(&mut self, id: String)
        ensures
            final(self)@ == old(self)@.insert(id@),
    {
        proof {
            use_type_invariant(&*self);
        }
        if self.position(id.as_str()).is_some() {
            assert(self@ =~= self@.insert(id@));
            return;
        }
        let ghost before = self.id_seq();
        let mut ids: Vec<String> = Vec::new();
        std::mem::swap(&mut ids, &mut self.ids);
        ids.push(id);
        proof {
            let after = ids@.map_values(|s: String| s@);
            assert(after =~= before.push(id@));
            assert forall|x: Seq<char>| after.to_set().contains(x) <==> before.to_set().insert(
                id@,
            ).contains(x) by {
                if after.contains(x) {
                    let j = choose|j: int| 0 <= j < after.len() && after[j] == x;
                    if j < before.len() {
                        assert(before[j] == x);
                    }
                }
                if before.contains(x) {
                    let j = choose|j: int| 0 <= j < before.len() && before[j] == x;
                    assert(after[j] == x);
                }
                if x == id@ {
                    assert(after[before.len() as int] == x);
                }
            }
            assert(after.to_set() =~= before.to_set().insert(id@));
        }
        self.ids = ids;
    }

    /// Revoke a session token (e.g. on logout).
    pub fn revoke_session(&mut self, id: &str)
        ensures
            final(self)@ == old(self)@.remove(id@),
    {
        proof {
            use_type_invariant(&*self);
        }
        match self.position(id) {
            None => {
                assert(self@ =~= self@.remove(id@));
            },
            Some(k) => {
                let ghost before = self.id_seq();
                let mut ids: Vec<String> = Vec::new();
                std::mem::swap(&mut ids, &mut self.ids);
                ids.remove(k);
                proof {
                    let after = ids@.map_values(|s: String| s@);
                    assert(after =~= before.remove(k as int));
                    assert forall|x: Seq<char>| after.to_set().contains(x) <==> before.to_set().remove(
                        id@,
                    ).contains(x) by {
                        if after.contains(x) {
                            let j = choose|j: int| 0 <= j < after.len() && after[j] == x;
                            if j < k {
                                assert(before[j] == x);
                            } else {
                                assert(before[j + 1] == x);
                            }
                        }
                        if before.contains(x) && x != id@ {
                            let j = choose|j: int| 0 <= j < before.len() && before[j] == x;
                            if j < k {
                                assert(after[j] == x);
                            } else {
                                assert(after[j - 1] == x);
                            }
                        }
                    }
                    assert(after.to_set() =~= before.to_set().remove(id@));
                }
                self.ids = ids;
            },
        }
    }

    /// Number of currently active session tokens.
    pub fn active_session_count(&self) -> (n: usize)
        ensures
            n == self@.len(),
    {
        proof {
            use_type_invariant(self);
            self.id_seq().unique_seq_to_set();
        }
        self.ids.len()
    }
}

/// Who counts as authenticated: everyone when no PIN is configured;
/// otherwise a request whose session cookie names a live session, or whose
/// `x-pin` header equals the PIN.
pub open spec fn authenticated(
    pin: Option<Seq<char>>,
    session_cookie: Option<Seq<char>>,
    sessions: Set<Seq<char>>,
    x_pin: Option<Seq<char>>,
) -> bool {
    match pin {
        None => true,
        Some(p) => {
            ||| (session_cookie matches Some(c) && sessions.contains(c))
            ||| x_pin == Some(p)
        },
    }
}

/// The optional string `s` as an optional character sequence.
pub open spec fn opt_view(s: Option<&str>) -> Option<Seq<char>> {
    match s {
        Some(t) => Some(t@),
        None => None,
    }
}

/// Whether a request presenting `session_cookie` and `x_pin` is
/// authenticated against the configured `pin` and the live `sessions`.
pub fn is_authenticated(
    pin: Option<&str>,
    session_cookie: Option<&str>,
    sessions: &SessionStore,
    x_pin: Option<&str>,
) -> (ok: bool)
    ensures
        ok == authenticated(opt_view(pin), opt_view(session_cookie), sessions@, opt_view(x_pin)),
{
    let p = match pin {
        None => {
            return true;
        },
        Some(p) => p,
    };
    if let Some(c) = session_cookie {
        if sessions.session_is_valid(c) {
            return true;
        }
    }
    if let Some(h) = x_pin {
        return secrets_match(h, p);
    }
    false
}

/// How a submitted PIN is judged.
#[derive(Debug, PartialEq, Eq)]
pub enum PinVerdict {
    /// Shorter than [`MIN_PIN_LEN`] or longer than [`MAX_PIN_LEN`] characters.
    BadFormat,
    /// Well-formed but not the configured PIN.
    Mismatch,
    /// The configured PIN.
    Accepted,
}

/// The verdict on `submitted` against the configured `expected` PIN.
pub open spec fn pin_verdict(expected: Seq<char>, submitted: Seq<char>) -> PinVerdict {
    if submitted.len() < MIN_PIN_LEN || submitted.len() > MAX_PIN_LEN {
        PinVerdict::BadFormat
    } else if submitted != expected {
        PinVerdict::Mismatch
    } else {
        PinVerdict::Accepted
    }
}

/// Judge a submitted PIN: its length first, then a constant-time comparison.
pub fn check_pin(expected: &str, submitted: &str) -> (v: PinVerdict)
    ensures
        v == pin_verdict(expected@, submitted@),
{
    let len = chars_of(submitted).len();
    if len < MIN_PIN_LEN || len > MAX_PIN_LEN {
        return PinVerdict::BadFormat;
    }
    if !secrets_match(submitted, expected) {
        return PinVerdict::Mismatch;
    }
    PinVerdict::Accepted
}

/// Attempts left before lockout after `count` failed attempts.
pub fn attempts_left(max_attempts: u32, count: u32) -> (left: u32)
    ensures
        left == if count >= max_attempts {
            0
        } else {
            max_attempts - count
        },
{
    max_attempts.saturating_sub(count)
}

/// Whole minutes (rounded up) left of a lockout of `remaining_secs` seconds.
pub fn lockout_minutes(remaining_secs: u64) -> (m: u64)
    ensures
        m == (remaining_secs + 59) / 60,
{
    remaining_secs / 60 + if remaining_secs % 60 == 0 {
        0
    } else {
        1
    }
}

/// The error text shown to a locked-out client with `minutes` minutes left.
pub open spec fn lockout_text(minutes: nat) -> Seq<char> {
    "Too many attempts. Please try again in "@ + decimal_text(minutes) + " minute(s)."@
}

/// The error message for a lockout with `remaining_secs` seconds left.
pub fn lockout_message(remaining_secs: u64) -> (msg: String)
    ensures
        msg@ == lockout_text(((remaining_secs + 59) / 60) as nat),
{
    let minutes = lockout_minutes(remaining_secs);
    let mut out = String::new();
    out.append("Too many attempts. Please try again in ");
    append_decimal(&mut out, minutes);
    out.append(" minute(s).");
    assert(out@ =~= lockout_text(minutes as nat));
    out
}

/// What a PIN verification answers.
#[derive(Debug, PartialEq, Eq)]
pub enum PinOutcome {
    /// No PIN is configured: nothing to verify.
    Open,
    /// The client is locked out for `minutes` more minutes (rounded up).
    LockedOut { minutes: u64 },
    /// The PIN is shorter than [`MIN_PIN_LEN`] or longer than [`MAX_PIN_LEN`].
    BadFormat,
    /// A well-formed wrong PIN; `attempts_left` tries remain before lockout.
    Mismatch { attempts_left: u32 },
    /// The configured PIN: a session is issued.
    Accepted,
}

/// The answer to a PIN verification: open without a PIN; otherwise locked
/// out (with the minutes left, rounded up) before anything else; otherwise
/// the verdict on the PIN, a mismatch telling how many of `max_attempts`
/// remain after `count_after_failure` failures.
pub open spec fn pin_outcome(
    expected: Option<Seq<char>>,
    locked_out: bool,
    remaining_secs: u64,
    max_attempts: u32,
    count_after_failure: u32,
    submitted: Seq<char>,
) -> PinOutcome {
    match expected {
        None => PinOutcome::Open,
        Some(e) => if locked_out {
            PinOutcome::LockedOut { minutes: ((remaining_secs + 59) / 60) as u64 }
        } else {
            match pin_verdict(e, submitted) {
                PinVerdict::BadFormat => PinOutcome::BadFormat,
                PinVerdict::Mismatch => PinOutcome::Mismatch {
                    attempts_left: if count_after_failure >= max_attempts {
                        0
                    } else {
                        (max_attempts - count_after_failure) as u32
                    },
                },
                PinVerdict::Accepted => PinOutcome::Accepted,
            }
        },
    }
}

/// Decide the answer to a PIN verification from the lockout state and the
/// failure count that a failure of this attempt brings.
pub fn pin_decision(
    expected: Option<&str>,
    locked_out: bool,
    remaining_secs: u64,
    max_attempts: u32,
    count_after_failure: u32,
    submitted: &str,
) -> (o: PinOutcome)
    ensures
        o == pin_outcome(
            opt_view(expected),
            locked_out,
            remaining_secs,
            max_attempts,
            count_after_failure,
            submitted@,
        ),
{
    match expected {
        None => PinOutcome::Open,
        Some(e) => {
            if locked_out {
                PinOutcome::LockedOut { minutes: lockout_minutes(remaining_secs) }
            } else {
                match check_pin(e, submitted) {
                    PinVerdict::BadFormat => PinOutcome::BadFormat,
                    PinVerdict::Mismatch => PinOutcome::Mismatch {
                        attempts_left: attempts_left(max_attempts, count_after_failure),
                    },
                    PinVerdict::Accepted => PinOutcome::Accepted,
                }
            }
        },
    }
}

/// The failure log after a PIN verification: unchanged when no PIN is
/// configured or the client is locked out; cleared for the client on
/// success; otherwise one more failure recorded at `now`.
pub open spec fn log_after_pin(
    m: Map<Seq<char>, (u32, u64)>,
    client: Seq<char>,
    expected: Option<Seq<char>>,
    submitted: Seq<char>,
    max_attempts: u32,
    lockout_secs: u64,
    now: u64,
) -> Map<Seq<char>, (u32, u64)> {
    match expected {
        None => m,
        Some(e) => if locked_out(m, client, max_attempts, lockout_secs, now) {
            m
        } else if pin_verdict(e, submitted) == PinVerdict::Accepted {
            m.remove(client)
        } else {
            m.insert(client, (failures_after(m, client, lockout_secs, now), now))
        },
    }
}

/// Verify the PIN `submitted` by `client` at `now` against `expected`,
/// keeping `log` of failed attempts: a locked-out client is refused before
/// its PIN is looked at, a malformed or wrong PIN counts as a failure, and
/// the right PIN clears the client's failures.
pub fn judge_pin(
    log: &mut AttemptLog,
    client: &str,
    expected: Option<&str>,
    submitted: &str,
    max_attempts: u32,
    lockout_secs: u64,
    now: u64,
) -> (o: PinOutcome)
    ensures
        o == pin_outcome(
            opt_view(expected),
            locked_out(old(log).failures(), client@, max_attempts, lockout_secs, now),
            lockout_left(old(log).failures(), client@, lockout_secs, now),
            max_attempts,
            failures_after(old(log).failures(), client@, lockout_secs, now),
            submitted@,
        ),
        final(log).failures() == log_after_pin(
            old(log).failures(),
            client@,
            opt_view(expected),
            submitted@,
            max_attempts,
            lockout_secs,
            now,
        ),
{
    let e = match expected {
        None => {
            return PinOutcome::Open;
        },
        Some(e) => e,
    };
    let locked = log.is_locked_out(client, max_attempts, lockout_secs, now);
    let remaining = log.lockout_remaining_secs(client, lockout_secs, now);
    if locked {
        return pin_decision(expected, true, remaining, max_attempts, 0, submitted);
    }
    match check_pin(e, submitted) {
        PinVerdict::Accepted => {
            log.reset(client);
            pin_decision(expected, false, remaining, max_attempts, 0, submitted)
        },
        _ => {
            let count = log.record_failure(client, lockout_secs, now);
            pin_decision(expected, false, remaining, max_attempts, count, submitted)
        },
    }
}

/// A locked-out client is refused even with the right PIN, and the attempt
/// leaves the failure log as it was.
pub proof fn law_lockout_refuses_every_pin(
    m: Map<Seq<char>, (u32, u64)>,
    client: Seq<char>,
    pin: Seq<char>,
    submitted: Seq<char>,
    max_attempts: u32,
    lockout_secs: u64,
    now: u64,
)
    requires
        locked_out(m, client, max_attempts, lockout_secs, now),
    ensures
        pin_outcome(
            Some(pin),
            true,
            lockout_left(m, client, lockout_secs, now),
            max_attempts,
            failures_after(m, client, lockout_secs, now),
            submitted,
        ) is LockedOut,
        log_after_pin(m, client, Some(pin), submitted, max_attempts, lockout_secs, now) == m,
{
}

/// The right PIN, submitted while not locked out, is accepted and clears
/// the client's failures, so it is not locked out afterwards.
pub proof fn law_right_pin_clears_failures(
    m: Map<Seq<char>, (u32, u64)>,
    client: Seq<char>,
    pin: Seq<char>,
    max_attempts: u32,
    lockout_secs: u64,
    now: u64,
    later: u64,
)
    requires
        MIN_PIN_LEN <= pin.len() <= MAX_PIN_LEN,
        !locked_out(m, client, max_attempts, lockout_secs, now),
    ensures
        pin_outcome(
            Some(pin),
            false,
            lockout_left(m, client, lockout_secs, now),
            max_attempts,
            failures_after(m, client, lockout_secs, now),
            pin,
        ) == PinOutcome::Accepted,
        !locked_out(
            log_after_pin(m, client, Some(pin), pin, max_attempts, lockout_secs, now),
            client,
            max_attempts,
            lockout_secs,
            later,
        ),
{
}

/// Request body of a PIN verification.
pub struct VerifyPinPayload {
    /// The PIN the client is asserting.
    pub pin: String,
}

/// A session token can be checked right after it is registered, and no
/// longer after it is revoked; other tokens are not affected.
pub proof fn law_session_lifecycle(s: Set<Seq<char>>, id: Seq<char>, other: Seq<char>)
    requires
        other != id,
    ensures
        s.insert(id).contains(id),
        !s.insert(id).remove(id).contains(id),
        s.insert(id).remove(id).contains(other) == s.contains(other),
{
}

/// Without a configured PIN every request is authenticated.
pub proof fn law_no_pin_admits_all(
    session_cookie: Option<Seq<char>>,
    sessions: Set<Seq<char>>,
    x_pin: Option<Seq<char>>,
)
    ensures
        authenticated(None, session_cookie, sessions, x_pin),
{
}

/// With a PIN configured, a session cookie admits a request exactly while
/// its token is live: right after the token is registered the request is
/// admitted; once the token is revoked it is refused unless its `x-pin`
/// header carries the PIN.
pub proof fn law_cookie_follows_session(
    pin: Seq<char>,
    sessions: Set<Seq<char>>,
    id: Seq<char>,
    x_pin: Option<Seq<char>>,
)
    ensures
        authenticated(Some(pin), Some(id), sessions.insert(id), x_pin),
        authenticated(Some(pin), Some(id), sessions.insert(id).remove(id), x_pin) <==> x_pin
            == Some(pin),
{
}

} // verus!

//! Per-client counters with a time window: the failed-PIN log behind the
//! lockout, and the per-client request budget.
//!
//! Times are whole seconds on one clock chosen by the caller; a record made
//! at `since` is live while `now < since + window`.
use vstd::prelude::*;

use crate::text::str_eq;

verus! {

/// One client's counter.
struct Entry {
    key: String,
    count: u32,
    since: u64,
}

/// A table from client keys to a count and the time it refers to.
pub struct ClientCounters {
    entries: Vec<Entry>,
    table: Ghost<Map<Seq<char>, (u32, u64)>>,
}

/// Whether a record made at `since` is still live at `now` for `window`
/// seconds.
pub open spec fn is_live(since: u64, window: u64, now: u64) -> bool {
    now < since + window
}

/// The records of `m` that are live at `now`.
pub open spec fn live_part(m: Map<Seq<char>, (u32, u64)>, window: u64, now: u64) -> Map<
    Seq<char>,
    (u32, u64),
> {
    m.restrict(m.dom().filter(|k: Seq<char>| is_live(m[k].1, window, now)))
}

/// Whether `since` is live at `now` for `window` seconds.
fn live(since: u64, window: u64, now: u64) -> (r: bool)
    ensures
        r == is_live(since, window, now),
{
    now < since || now - since < window
}

/// `entries` hold distinct keys, and `table` maps exactly those keys to
/// their counts and times.
spec fn kept_in(entries: Seq<Entry>, table: Map<Seq<char>, (u32, u64)>) -> bool {
    &&& forall|i: int, j: int|
        0 <= i < j < entries.len() ==> (#[trigger] entries[i]).key@ != (#[trigger] entries[j]).key@
    &&& forall|i: int|
        0 <= i < entries.len() ==> {
            let e = #[trigger] entries[i];
            table.contains_key(e.key@) && table[e.key@] == (e.count, e.since)
        }
    &&& forall|k: Seq<char>|
        #[trigger] table.contains_key(k) ==> exists|i: int|
            0 <= i < entries.len() && (#[trigger] entries[i]).key@ == k
}

impl View for ClientCounters {
    type V = Map<Seq<char>, (u32, u64)>;

    closed spec fn view(&self) -> Map<Seq<char>, (u32, u64)> {
        self.table@
    }
}

impl ClientCounters {
    #[verifier::type_invariant]
    closed spec fn consistent(self) -> bool {
        kept_in(self.entries@, self.table@)
    }

    /// An empty table.
    pub fn new() -> (c: Self)
        ensures
            c@ == Map::<Seq<char>, (u32, u64)>::empty(),
    {
        ClientCounters { entries: Vec::new(), table: Ghost(Map::empty()) }
    }

    /// Index of the entry for `key`, if any.
    fn find(&self, key: &str) -> (r: Option<usize>)
        ensures
            match r {
                Some(i) => i < self.entries@.len() && self.entries@[i as int].key@ == key@,
                None => !self@.contains_key(key@),
            },
    {
        proof {
            use_type_invariant(self);
        }
        let mut i: usize = 0;
        while i < self.entries.len()
            invariant
                i <= self.entries@.len(),
                forall|j: int| 0 <= j < i ==> (#[trigger] self.entries@[j]).key@ != key@,
            decreases self.entries@.len() - i,
        {
            if str_eq(self.entries[i].key.as_str(), key) {
                return Some(i);
            }
            i = i + 1;
        }
        None
    }

    /// The count and time recorded for `key`.
    pub fn get(&self, key: &str) -> (r: Option<(u32, u64)>)
        ensures
            r == if self@.contains_key(key@) {
                Some(self@[key@])
            } else {
                None
            },
    {
        proof {
            use_type_invariant(self);
        }
        match self.find(key) {
            Some(i) => Some((self.entries[i].count, self.entries[i].since)),
            None => None,
        }
    }

    /// Record `count` at `since` for `key`, replacing what was there.
    pub fn set(&mut self, key: &str, count: u32, since: u64)
        ensures
            final(self)@ == old(self)@.insert(key@, (count, since)),
    {
        proof {
            use_type_invariant(&*self);
        }
        let found = self.find(key);
        let mut this = ClientCounters::new();
        std::mem::swap(self, &mut this);
        proof {
            use_type_invariant(&this);
        }
        let ClientCounters { mut entries, table } = this;
        let ghost before = entries@;
        let ghost new_table = table@.insert(key@, (count, since));
        let e = Entry { key: String::from_str(key), count, since };
        match found {
            Some(i) => {
                entries.set(i, e);
                proof {
                    assert forall|a: int, b: int|
                        0 <= a < b < entries@.len() implies (#[trigger] entries@[a]).key@
                        != (#[trigger] entries@[b]).key@ by {
                        assert(entries@[a].key@ == before[a].key@);
                        assert(entries@[b].key@ == before[b].key@);
                    }
                    assert forall|a: int| 0 <= a < entries@.len() implies {
                        let x = #[trigger] entries@[a];
                        new_table.contains_key(x.key@) && new_table[x.key@] == (x.count, x.since)
                    } by {
                        if a != i {
                            assert(entries@[a] == before[a]);
                            assert(before[a].key@ != before[i as int].key@);
                        }
                    }
                    assert forall|k: Seq<char>| #[trigger] new_table.contains_key(k) implies exists|
                        j: int,
                    | 0 <= j < entries@.len() && (#[trigger] entries@[j]).key@ == k by {
                        if k == key@ {
                            assert(entries@[i as int].key@ == k);
                        } else {
                            let j = choose|j: int| 0 <= j < before.len() && (#[trigger] before[j]).key@ == k;
                            assert(entries@[j].key@ == k);
                        }
                    }
                }
            },
            None => {
                entries.push(e);
                proof {
                    assert forall|a: int| 0 <= a < entries@.len() implies {
                        let x = #[trigger] entries@[a];
                        new_table.contains_key(x.key@) && new_table[x.key@] == (x.count, x.since)
                    } by {
                        if a < before.len() {
                            assert(entries@[a] == before[a]);
                            assert(table@.contains_key(before[a].key@));
                            assert(before[a].key@ != key@);
                        }
                    }
                    assert forall|a: int, b: int|
                        0 <= a < b < entries@.len() implies (#[trigger] entries@[a]).key@
                        != (#[trigger] entries@[b]).key@ by {
                        if b == before.len() {
                            assert(table@.contains_key(before[a].key@));
                        } else {
                            assert(before[a] == entries@[a] && before[b] == entries@[b]);
                        }
                    }
                    assert forall|k: Seq<char>| #[trigger] new_table.contains_key(k) implies exists|
                        j: int,
                    | 0 <= j < entries@.len() && (#[trigger] entries@[j]).key@ == k by {
                        if k == key@ {
                            assert(entries@[before.len() as int].key@ == k);
                        } else {
                            let j = choose|j: int| 0 <= j < before.len() && (#[trigger] before[j]).key@ == k;
                            assert(entries@[j].key@ == k);
                        }
                    }
                }
            },
        }
        assert(kept_in(entries@, new_table));
        *self = ClientCounters { entries, table: Ghost(new_table) };
    }

    /// Forget the record of `key`.
    pub fn remove(&mut self, key: &str)
        ensures
            final(self)@ == old(self)@.remove(key@),
    {
        proof {
            use_type_invariant(&*self);
        }
        let found = self.find(key);
        match found {
            None => {
                assert(self@ =~= self@.remove(key@));
            },
            Some(i) => {
                let mut this = ClientCounters::new();
                std::mem::swap(self, &mut this);
                proof {
                    use_type_invariant(&this);
                }
                let ClientCounters { mut entries, table } = this;
                let ghost before = entries@;
                let ghost new_table = table@.remove(key@);
                entries.remove(i);
                proof {
                    assert forall|a: int, b: int|
                        0 <= a < b < entries@.len() implies (#[trigger] entries@[a]).key@
                        != (#[trigger] entries@[b]).key@ by {
                        let a0 = if a < i { a } else { a + 1 };
                        let b0 = if b < i { b } else { b + 1 };
                        assert(entries@[a] == before[a0] && entries@[b] == before[b0]);
                    }
                    assert forall|a: int| 0 <= a < entries@.len() implies {
                        let e = #[trigger] entries@[a];
                        new_table.contains_key(e.key@) && new_table[e.key@] == (e.count, e.since)
                    } by {
                        let a0 = if a < i { a } else { a + 1 };
                        assert(entries@[a] == before[a0]);
                        assert(before[a0].key@ != before[i as int].key@);
                    }
                    assert forall|k: Seq<char>| #[trigger] new_table.contains_key(k) implies exists|
                        j: int,
                    | 0 <= j < entries@.len() && (#[trigger] entries@[j]).key@ == k by {
                        let j = choose|j: int| 0 <= j < before.len() && (#[trigger] before[j]).key@ == k;
                        assert(j != i);
                        if j < i {
                            assert(entries@[j] == before[j]);
                        } else {
                            assert(entries@[j - 1] == before[j]);
                        }
                    }
                }
                *self = ClientCounters { entries, table: Ghost(new_table) };
            },
        }
    }

    /// Forget every record that is no longer live at `now` for `window`.
    pub fn retain_live(&mut self, window: u64, now: u64)
        ensures
            final(self)@ == live_part(old(self)@, window, now),
    {
        proof {
            use_type_invariant(&*self);
        }
        let mut this = ClientCounters::new();
        std::mem::swap(self, &mut this);
        proof {
            use_type_invariant(&this);
        }
        let ClientCounters { entries, table } = this;
        let ghost m = table@;
        let ghost all = entries@;
        let mut kept: Vec<Entry> = Vec::new();
        let ghost mut sub: Map<Seq<char>, (u32, u64)> = Map::empty();
        let mut i: usize = 0;
        while i < entries.len()
            invariant
                i <= entries@.len(),
                all == entries@,
                forall|a: int, b: int|
                    0 <= a < b < all.len() ==> (#[trigger] all[a]).key@ != (#[trigger] all[b]).key@,
                forall|a: int|
                    0 <= a < all.len() ==> {
                        let e = #[trigger] all[a];
                        m.contains_key(e.key@) && m[e.key@] == (e.count, e.since)
                    },
                forall|a: int, b: int|
                    0 <= a < b < kept@.len() ==> (#[trigger] kept@[a]).key@ != (#[trigger] kept@[b]).key@,
                forall|a: int|
                    0 <= a < kept@.len() ==> {
                        let e = #[trigger] kept@[a];
                        sub.contains_key(e.key@) && sub[e.key@] == (e.count, e.since)
                    },
                forall|a: int|
                    0 <= a < kept@.len() ==> exists|j: int|
                        0 <= j < i && (#[trigger] all[j]).key@ == (#[trigger] kept@[a]).key@,
                forall|k: Seq<char>|
                    #[trigger] sub.contains_key(k) ==> exists|a: int|
                        0 <= a < kept@.len() && (#[trigger] kept@[a]).key@ == k,
                forall|k: Seq<char>|
                    #[trigger] sub.contains_key(k) <==> (m.contains_key(k) && is_live(
                        m[k].1,
                        window,
                        now,
                    ) && exists|j: int| 0 <= j < i && (#[trigger] all[j]).key@ == k),
                forall|k: Seq<char>| #[trigger] sub.contains_key(k) ==> sub[k] == m[k],
            decreases entries@.len() - i,
        {
            let e = &entries[i];
            if live(e.since, window, now) {
                let ghost before = kept@;
                let ghost old_sub = sub;
                kept.push(Entry { key: e.key.clone(), count: e.count, since: e.since });
                proof {
                    let ek = all[i as int].key@;
                    assert(kept@[before.len() as int].key@ == ek);
                    assert(!old_sub.contains_key(ek)) by {
                        if old_sub.contains_key(ek) {
                            let j = choose|j: int| 0 <= j < i && (#[trigger] all[j]).key@ == ek;
                            assert(all[j].key@ != all[i as int].key@);
                        }
                    }
                    sub = old_sub.insert(ek, m[ek]);
                    assert forall|a: int, b: int|
                        0 <= a < b < kept@.len() implies (#[trigger] kept@[a]).key@
                        != (#[trigger] kept@[b]).key@ by {
                        if b == before.len() {
                            assert(kept@[a] == before[a]);
                            assert(old_sub.contains_key(before[a].key@));
                        } else {
                            assert(kept@[a] == before[a] && kept@[b] == before[b]);
                        }
                    }
                    assert forall|a: int| 0 <= a < kept@.len() implies {
                        let x = #[trigger] kept@[a];
                        sub.contains_key(x.key@) && sub[x.key@] == (x.count, x.since)
                    } by {
                        if a < before.len() {
                            assert(kept@[a] == before[a]);
                        }
                    }
                    assert forall|a: int| 0 <= a < kept@.len() implies exists|j: int|
                        0 <= j < i + 1 && (#[trigger] all[j]).key@ == (
                        #[trigger] kept@[a]).key@ by {
                        if a < before.len() {
                            assert(kept@[a] == before[a]);
                            let j = choose|j: int|
                                0 <= j < i && (#[trigger] all[j]).key@ == (#[trigger] before[a]).key@;
                            assert(all[j].key@ == kept@[a].key@);
                        } else {
                            assert(all[i as int].key@ == kept@[a].key@);
                        }
                    }
                    assert forall|k: Seq<char>| #[trigger] sub.contains_key(k) implies exists|a: int|
                        0 <= a < kept@.len() && (#[trigger] kept@[a]).key@ == k by {
                        if k == ek {
                            assert(kept@[before.len() as int].key@ == k);
                        } else {
                            let a = choose|a: int| 0 <= a < before.len() && (#[trigger] before[a]).key@ == k;
                            assert(kept@[a] == before[a]);
                        }
                    }
                    assert forall|k: Seq<char>| #[trigger] sub.contains_key(k) <==> (m.contains_key(k)
                        && is_live(m[k].1, window, now) && exists|j: int|
                        0 <= j < i + 1 && (#[trigger] all[j]).key@ == k) by {
                        if k == ek {
                            assert(all[i as int].key@ == k);
                        } else if m.contains_key(k) && is_live(m[k].1, window, now) && exists|j: int|
                            0 <= j < i + 1 && (#[trigger] all[j]).key@ == k {
                            let j = choose|j: int| 0 <= j < i + 1 && (#[trigger] all[j]).key@ == k;
                            assert(j != i);
                        }
                    }
                }
            } else {
                proof {
                    let ek = all[i as int].key@;
                    assert forall|a: int| 0 <= a < kept@.len() implies exists|j: int|
                        0 <= j < i + 1 && (#[trigger] all[j]).key@ == (
                        #[trigger] kept@[a]).key@ by {
                        let j = choose|j: int|
                            0 <= j < i && (#[trigger] all[j]).key@ == (#[trigger] kept@[a]).key@;
                    }
                    assert forall|k: Seq<char>| #[trigger] sub.contains_key(k) <==> (m.contains_key(k)
                        && is_live(m[k].1, window, now) && exists|j: int|
                        0 <= j < i + 1 && (#[trigger] all[j]).key@ == k) by {
                        if m.contains_key(k) && is_live(m[k].1, window, now) && exists|j: int|
                            0 <= j < i + 1 && (#[trigger] all[j]).key@ == k {
                            let j = choose|j: int| 0 <= j < i + 1 && (#[trigger] all[j]).key@ == k;
                            if j == i {
                                assert(m[ek] == (all[i as int].count, all[i as int].since));
                            }
                        }
                    }
                }
            }
            i = i + 1;
        }
        proof {
            assert forall|k: Seq<char>| #[trigger] sub.contains_key(k) <==> live_part(
                m,
                window,
                now,
            ).contains_key(k) by {
                if m.contains_key(k) {
                    let j = choose|j: int| 0 <= j < all.len() && (#[trigger] all[j]).key@ == k;
                }
            }
            assert(sub =~= live_part(m, window, now));
        }
        *self = ClientCounters { entries: kept, table: Ghost(sub) };
    }
}

/// The failure count after one more failed attempt of `client`: one more
/// than before (saturating) while its last failure is live, else one.
pub open spec fn failures_after(
    m: Map<Seq<char>, (u32, u64)>,
    client: Seq<char>,
    lockout_secs: u64,
    now: u64,
) -> u32 {
    if m.contains_key(client) && is_live(m[client].1, lockout_secs, now) {
        if m[client].0 == u32::MAX {
            u32::MAX
        } else {
            (m[client].0 + 1) as u32
        }
    } else {
        1
    }
}

/// Whether `client` is locked out at `now`: it has failed at least
/// `max_attempts` times and its last failure is less than `lockout_secs`
/// seconds old.
pub open spec fn locked_out(
    m: Map<Seq<char>, (u32, u64)>,
    client: Seq<char>,
    max_attempts: u32,
    lockout_secs: u64,
    now: u64,
) -> bool {
    m.contains_key(client) && m[client].0 >= max_attempts && is_live(m[client].1, lockout_secs, now)
}

/// Seconds until the last failure of `client` stops counting (capped at
/// `u64::MAX`), or `0` when it no longer counts.
pub open spec fn lockout_left(
    m: Map<Seq<char>, (u32, u64)>,
    client: Seq<char>,
    lockout_secs: u64,
    now: u64,
) -> u64 {
    if m.contains_key(client) && is_live(m[client].1, lockout_secs, now) {
        let left = m[client].1 + lockout_secs - now;
        if left > u64::MAX {
            u64::MAX
        } else {
            left as u64
        }
    } else {
        0
    }
}

/// The failed PIN attempts of each client: how many, and when the last one
/// was made.
pub struct AttemptLog {
    counters: ClientCounters,
}

impl AttemptLog {
    /// Each client's failure count and the time of its last failure.
    pub closed spec fn failures(&self) -> Map<Seq<char>, (u32, u64)> {
        self.counters@
    }

    /// A log with no failures.
    pub fn new() -> (log: Self)
        ensures
            log.failures() == Map::<Seq<char>, (u32, u64)>::empty(),
    {
        AttemptLog { counters: ClientCounters::new() }
    }

    /// Record a failed attempt of `client` at `now`; returns its failure
    /// count, which counts on from earlier failures while the last one is
    /// younger than `lockout_secs`.
    pub fn record_failure(&mut self, client: &str, lockout_secs: u64, now: u64) -> (count: u32)
        ensures
            count == failures_after(old(self).failures(), client@, lockout_secs, now),
            final(self).failures() == old(self).failures().insert(client@, (count, now)),
    {
        let count = match self.counters.get(client) {
            Some((c, since)) => {
                if live(since, lockout_secs, now) {
                    c.saturating_add(1)
                } else {
                    1
                }
            },
            None => 1,
        };
        self.counters.set(client, count, now);
        count
    }

    /// Forget the failures of `client` (after a successful login).
    pub fn reset(&mut self, client: &str)
        ensures
            final(self).failures() == old(self).failures().remove(client@),
    {
        self.counters.remove(client);
    }

    /// Whether `client` is locked out at `now`.
    pub fn is_locked_out(&self, client: &str, max_attempts: u32, lockout_secs: u64, now: u64) -> (r:
        bool)
        ensures
            r == locked_out(self.failures(), client@, max_attempts, lockout_secs, now),
    {
        match self.counters.get(client) {
            Some((c, since)) => c >= max_attempts && live(since, lockout_secs, now),
            None => false,
        }
    }

    /// Seconds until the failures of `client` stop counting.
    pub fn lockout_remaining_secs(&self, client: &str, lockout_secs: u64, now: u64) -> (r: u64)
        ensures
            r == lockout_left(self.failures(), client@, lockout_secs, now),
    {
        match self.counters.get(client) {
            Some((_, since)) => {
                if live(since, lockout_secs, now) {
                    let end = since as u128 + lockout_secs as u128;
                    let left = end - now as u128;
                    if left > u64::MAX as u128 {
                        u64::MAX
                    } else {
                        left as u64
                    }
                } else {
                    0
                }
            },
            None => 0,
        }
    }

    /// Drop the failures that no longer count at `now`.
    pub fn forget_expired(&mut self, lockout_secs: u64, now: u64)
        ensures
            final(self).failures() == live_part(old(self).failures(), lockout_secs, now),
    {
        self.counters.retain_live(lockout_secs, now);
    }
}

/// Failures that no longer count are the same as none: dropping them
/// changes neither the lockout, nor the time left, nor the next count.
pub proof fn law_forgetting_expired_failures_changes_nothing(
    m: Map<Seq<char>, (u32, u64)>,
    client: Seq<char>,
    max_attempts: u32,
    lockout_secs: u64,
    now: u64,
)
    ensures
        locked_out(live_part(m, lockout_secs, now), client, max_attempts, lockout_secs, now)
            == locked_out(m, client, max_attempts, lockout_secs, now),
        lockout_left(live_part(m, lockout_secs, now), client, lockout_secs, now) == lockout_left(
            m,
            client,
            lockout_secs,
            now,
        ),
        failures_after(live_part(m, lockout_secs, now), client, lockout_secs, now)
            == failures_after(m, client, lockout_secs, now),
{
}

/// After a failure that brings the count to `max_attempts` or more, the
/// client stays locked out for the next `lockout_secs` seconds.
pub proof fn law_failures_lead_to_lockout(
    m: Map<Seq<char>, (u32, u64)>,
    client: Seq<char>,
    max_attempts: u32,
    lockout_secs: u64,
    now: u64,
    later: u64,
)
    requires
        failures_after(m, client, lockout_secs, now) >= max_attempts,
        now <= later < now + lockout_secs,
    ensures
        locked_out(
            m.insert(client, (failures_after(m, client, lockout_secs, now), now)),
            client,
            max_attempts,
            lockout_secs,
            later,
        ),
{
}

/// A lockout ends: `lockout_secs` seconds after the last failure the client
/// is no longer locked out, and after a reset it never is.
pub proof fn law_lockout_ends(
    m: Map<Seq<char>, (u32, u64)>,
    client: Seq<char>,
    max_attempts: u32,
    lockout_secs: u64,
    now: u64,
)
    ensures
        m.contains_key(client) && now >= m[client].1 + lockout_secs ==> !locked_out(
            m,
            client,
            max_attempts,
            lockout_secs,
            now,
        ),
        !locked_out(m.remove(client), client, max_attempts, lockout_secs, now),
{
}

/// The requests of `client` counted in its current window and the start of
/// that window: the recorded ones while live, else none, from `now`.
pub open spec fn window_use(
    m: Map<Seq<char>, (u32, u64)>,
    client: Seq<char>,
    window_secs: u64,
    now: u64,
) -> (u32, u64) {
    if m.contains_key(client) && is_live(m[client].1, window_secs, now) {
        m[client]
    } else {
        (0, now)
    }
}

/// Whether a request of `client` at `now` fits in its budget.
pub open spec fn request_allowed(
    m: Map<Seq<char>, (u32, u64)>,
    client: Seq<char>,
    max_requests: u32,
    window_secs: u64,
    now: u64,
) -> bool {
    window_use(m, client, window_secs, now).0 < max_requests
}

/// A per-client request budget: at most `max_requests` requests in each
/// window of `window_secs` seconds, the window starting at the first request
/// after the previous one has ended.
pub struct RateLimiter {
    counters: ClientCounters,
    max_requests: u32,
    window_secs: u64,
}

impl RateLimiter {
    /// Each client's requests in its current window and the window's start.
    pub closed spec fn usage(&self) -> Map<Seq<char>, (u32, u64)> {
        self.counters@
    }

    /// Requests allowed per window.
    pub closed spec fn spec_max_requests(&self) -> u32 {
        self.max_requests
    }

    /// Length of a window, in seconds.
    pub closed spec fn spec_window_secs(&self) -> u64 {
        self.window_secs
    }

    /// A limiter allowing `max_requests` requests per `window_secs` seconds.
    pub fn with_limits(max_requests: u32, window_secs: u64) -> (r: Self)
        ensures
            r.usage() == Map::<Seq<char>, (u32, u64)>::empty(),
            r.spec_max_requests() == max_requests,
            r.spec_window_secs() == window_secs,
    {
        RateLimiter { counters: ClientCounters::new(), max_requests, window_secs }
    }

    /// Record a request of `client` at `now` and tell whether it fits in the
    /// budget; a refused request is not counted.
    pub fn check(&mut self, client: &str, now: u64) -> (allowed: bool)
        ensures
            allowed == request_allowed(
                old(self).usage(),
                client@,
                old(self).spec_max_requests(),
                old(self).spec_window_secs(),
                now,
            ),
            final(self).usage() == if allowed {
                let u = window_use(old(self).usage(), client@, old(self).spec_window_secs(), now);
                old(self).usage().insert(client@, ((u.0 + 1) as u32, u.1))
            } else {
                old(self).usage()
            },
            final(self).spec_max_requests() == old(self).spec_max_requests(),
            final(self).spec_window_secs() == old(self).spec_window_secs(),
            ({
                let m = old(self).usage();
                let w = old(self).spec_window_secs();
                let max = old(self).spec_max_requests();
                &&& !(m.contains_key(client@) && now < m[client@].1 + w) ==> (allowed == (0 < max)
                    && (allowed ==> final(self).usage()[client@] == (1u32, now)))
                &&& (m.contains_key(client@) && now < m[client@].1 + w) ==> (allowed == (
                m[client@].0 < max) && (allowed ==> final(self).usage()[client@] == (
                (m[client@].0 + 1) as u32,
                m[client@].1,
                )))
            }),
    {
        let (count, since) = match self.counters.get(client) {
            Some((c, s)) => {
                if live(s, self.window_secs, now) {
                    (c, s)
                } else {
                    (0, now)
                }
            },
            None => (0, now),
        };
        if count < self.max_requests {
            self.counters.set(client, count + 1, since);
            true
        } else {
            false
        }
    }

    /// Drop the clients whose window has ended at `now`.
    pub fn cleanup(&mut self, now: u64)
        ensures
            final(self).usage() == live_part(old(self).usage(), old(self).spec_window_secs(), now),
            final(self).spec_max_requests() == old(self).spec_max_requests(),
            final(self).spec_window_secs() == old(self).spec_window_secs(),
    {
        let window = self.window_secs;
        self.counters.retain_live(window, now);
    }
}

/// A window opens with the request that finds none running: that request is
/// counted as the first at its own time `now`, so every later request within
/// `window_secs` seconds of it counts on in the same window, and at most
/// `max_requests` of them are allowed; a request inside a running window is
/// allowed exactly while that window's count is below `max_requests`.
pub proof fn law_window_opens_at_the_request(
    m: Map<Seq<char>, (u32, u64)>,
    client: Seq<char>,
    max_requests: u32,
    window_secs: u64,
    now: u64,
)
    ensures
        ({
            let allowed = request_allowed(m, client, max_requests, window_secs, now);
            let u = window_use(m, client, window_secs, now);
            let after = if allowed {
                m.insert(client, ((u.0 + 1) as u32, u.1))
            } else {
                m
            };
            &&& !(m.contains_key(client) && now < m[client].1 + window_secs) ==> (allowed == (0
                < max_requests) && (allowed ==> after[client] == (1u32, now)))
            &&& (m.contains_key(client) && now < m[client].1 + window_secs) ==> (allowed == (
            m[client].0 < max_requests) && (allowed ==> after[client] == (
            (m[client].0 + 1) as u32,
            m[client].1,
            )))
        }),
{
}

/// The budget is never exceeded: if no client has more than `max_requests`
/// requests counted, none has after one more request is checked.
pub proof fn law_budget_never_exceeded(
    m: Map<Seq<char>, (u32, u64)>,
    client: Seq<char>,
    max_requests: u32,
    window_secs: u64,
    now: u64,
)
    requires
        forall|k: Seq<char>| #[trigger] m.contains_key(k) ==> m[k].0 <= max_requests,
    ensures
        ({
            let after = if request_allowed(m, client, max_requests, window_secs, now) {
                let u = window_use(m, client, window_secs, now);
                m.insert(client, ((u.0 + 1) as u32, u.1))
            } else {
                m
            };
            forall|k: Seq<char>| #[trigger] after.contains_key(k) ==> after[k].0 <= max_requests
        }),
{
}

} // verus!

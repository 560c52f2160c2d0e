//! The score board: player-name sanitising and the ranking of entries.
//!
//! The board keeps the best [`MAX_LEADERBOARD_ENTRIES`] scores, highest
//! first; among equal scores the one submitted earlier ranks higher.
use vstd::prelude::*;

use crate::text::{chars_of, trim, trim_bounds};

verus! {

/// Maximum number of characters kept from a player name.
pub const MAX_PLAYER_NAME_CHARS: usize = 15;

/// Maximum number of entries the leaderboard keeps.
pub const MAX_LEADERBOARD_ENTRIES: usize = 10;

/// Name given to players who submit an empty or blank name.
pub const ANONYMOUS_NAME: &'static str = "Anonymous";

/// One row in the leaderboard.
#[derive(Debug)]
pub struct LeaderboardEntry {
    /// Player-chosen display name; sanitised server-side.
    pub name: String,
    /// Score, higher = better.
    pub score: u32,
    /// RFC 3339 timestamp taken when the score was submitted.
    pub date: String,
}

/// The display name kept for the raw name `raw`: trimmed, `"Anonymous"` when
/// nothing is left, and cut to [`MAX_PLAYER_NAME_CHARS`] characters.
pub open spec fn sanitized_name(raw: Seq<char>) -> Seq<char> {
    let t = trim(raw);
    if t.len() == 0 {
        "Anonymous"@
    } else if t.len() <= MAX_PLAYER_NAME_CHARS {
        t
    } else {
        t.take(MAX_PLAYER_NAME_CHARS as int)
    }
}

/// Character-safe truncation of `raw` to at most [`MAX_PLAYER_NAME_CHARS`]
/// characters after trimming; blank inputs become [`ANONYMOUS_NAME`].
pub fn sanitize_player_name(raw: &str) -> (name: String)
    ensures
        name@ == sanitized_name(raw@),
{
    let v = chars_of(raw);
    let (start, end) = trim_bounds(&v);
    if start == end {
        return String::from_str("Anonymous");
    }
    let stop = if end - start <= MAX_PLAYER_NAME_CHARS {
        end
    } else {
        start + MAX_PLAYER_NAME_CHARS
    };
    let kept = raw.substring_char(start, stop);
    proof {
        let t = trim(raw@);
        if end - start > MAX_PLAYER_NAME_CHARS {
            assert(v@.subrange(start as int, stop as int) =~= t.take(MAX_PLAYER_NAME_CHARS as int));
        }
    }
    String::from_str(kept)
}

/// `sorted` with `e` inserted after every entry that scores at least as much.
pub open spec fn insert_by_score(sorted: Seq<LeaderboardEntry>, e: LeaderboardEntry) -> Seq<
    LeaderboardEntry,
>
    decreases sorted.len(),
{
    if sorted.len() == 0 {
        seq![e]
    } else if sorted[0].score >= e.score {
        seq![sorted[0]] + insert_by_score(sorted.drop_first(), e)
    } else {
        seq![e] + sorted
    }
}

/// The entries of `s` ranked by descending score, entries with equal scores
/// keeping their order in `s`.
pub open spec fn rank_by_score(s: Seq<LeaderboardEntry>) -> Seq<LeaderboardEntry>
    decreases s.len(),
{
    if s.len() == 0 {
        seq![]
    } else {
        insert_by_score(rank_by_score(s.drop_last()), s.last())
    }
}

/// The leaderboard after `e` is added to `list`: the ranking of all entries,
/// cut to [`MAX_LEADERBOARD_ENTRIES`].
pub open spec fn leaderboard_after(list: Seq<LeaderboardEntry>, e: LeaderboardEntry) -> Seq<
    LeaderboardEntry,
> {
    let r = rank_by_score(list.push(e));
    if r.len() <= MAX_LEADERBOARD_ENTRIES {
        r
    } else {
        r.take(MAX_LEADERBOARD_ENTRIES as int)
    }
}

/// `true` when the scores of `s` never increase from one entry to a later one.
pub open spec fn scores_descending(s: Seq<LeaderboardEntry>) -> bool {
    forall|i: int, j: int| 0 <= i < j < s.len() ==> s[i].score >= s[j].score
}

/// Where [`insert_by_score`] puts an entry scoring `score`.
pub open spec fn insertion_point(sorted: Seq<LeaderboardEntry>, score: u32) -> nat
    decreases sorted.len(),
{
    if sorted.len() == 0 {
        0
    } else if sorted[0].score >= score {
        1 + insertion_point(sorted.drop_first(), score)
    } else {
        0
    }
}

/// The insertion point is the first entry scoring less than the new one.
proof fn lemma_insertion_point(sorted: Seq<LeaderboardEntry>, e: LeaderboardEntry)
    ensures
        insertion_point(sorted, e.score) <= sorted.len(),
        forall|k: int| 0 <= k < insertion_point(sorted, e.score) ==> sorted[k].score >= e.score,
        insertion_point(sorted, e.score) < sorted.len() ==> sorted[insertion_point(sorted, e.score) as int].score
            < e.score,
        insert_by_score(sorted, e) == sorted.insert(insertion_point(sorted, e.score) as int, e),
    decreases sorted.len(),
{
    if sorted.len() > 0 && sorted[0].score >= e.score {
        let rest = sorted.drop_first();
        lemma_insertion_point(rest, e);
        let p = insertion_point(sorted, e.score);
        assert forall|k: int| 0 <= k < p implies sorted[k].score >= e.score by {
            if k > 0 {
                assert(sorted[k] == rest[k - 1]);
            }
        }
        assert(seq![sorted[0]] + rest.insert(p - 1, e) =~= sorted.insert(p as int, e));
    } else if sorted.len() > 0 {
        assert(seq![e] + sorted =~= sorted.insert(0, e));
    } else {
        assert(seq![e] =~= sorted.insert(0, e));
    }
}

/// Any index `p` with every earlier entry scoring at least `e.score` and the
/// entry at `p` (if any) scoring less is the insertion point.
proof fn lemma_insertion_point_unique(sorted: Seq<LeaderboardEntry>, score: u32, p: int)
    requires
        0 <= p <= sorted.len(),
        forall|k: int| 0 <= k < p ==> sorted[k].score >= score,
        p < sorted.len() ==> sorted[p].score < score,
    ensures
        p == insertion_point(sorted, score),
    decreases sorted.len(),
{
    if sorted.len() > 0 && p > 0 {
        let rest = sorted.drop_first();
        assert forall|k: int| 0 <= k < p - 1 implies rest[k].score >= score by {
            assert(rest[k] == sorted[k + 1]);
        }
        lemma_insertion_point_unique(rest, score, p - 1);
    }
}

/// Inserting into a descending list keeps it descending.
proof fn lemma_insert_keeps_descending(sorted: Seq<LeaderboardEntry>, e: LeaderboardEntry)
    requires
        scores_descending(sorted),
    ensures
        scores_descending(insert_by_score(sorted, e)),
        forall|k: int|
            insertion_point(sorted, e.score) <= k < sorted.len() ==> sorted[k].score < e.score,
{
    lemma_insertion_point(sorted, e);
    let p = insertion_point(sorted, e.score) as int;
    let r = insert_by_score(sorted, e);
    assert forall|k: int| p <= k < sorted.len() implies sorted[k].score < e.score by {
        assert(sorted[p].score >= sorted[k].score);
    }
    assert forall|i: int, j: int| 0 <= i < j < r.len() implies r[i].score >= r[j].score by {
        if i < p {
            assert(r[i] == sorted[i]);
            if j < p {
                assert(r[j] == sorted[j]);
            } else if j > p {
                assert(r[j] == sorted[j - 1]);
            }
        } else if i == p {
            assert(r[i] == e);
            assert(r[j] == sorted[j - 1]);
        } else {
            assert(r[i] == sorted[i - 1]);
            assert(r[j] == sorted[j - 1]);
        }
    }
}

/// The ranking is ordered by descending score.
pub proof fn law_ranking_descending(s: Seq<LeaderboardEntry>)
    ensures
        scores_descending(rank_by_score(s)),
    decreases s.len(),
{
    if s.len() > 0 {
        law_ranking_descending(s.drop_last());
        lemma_insert_keeps_descending(rank_by_score(s.drop_last()), s.last());
    }
}

/// The ranking holds exactly the entries it was given (as a multiset).
pub proof fn law_ranking_is_permutation(s: Seq<LeaderboardEntry>)
    ensures
        rank_by_score(s).to_multiset() == s.to_multiset(),
    decreases s.len(),
{
    broadcast use vstd::seq_lib::group_to_multiset_ensures;

    if s.len() > 0 {
        let prev = rank_by_score(s.drop_last());
        law_ranking_is_permutation(s.drop_last());
        lemma_insertion_point(prev, s.last());
        let p = insertion_point(prev, s.last().score) as int;
        assert(prev.insert(p, s.last()) =~= prev.take(p) + seq![s.last()] + prev.skip(p));
        assert(prev =~= prev.take(p) + prev.skip(p));
        vstd::seq_lib::lemma_multiset_commutative(prev.take(p) + seq![s.last()], prev.skip(p));
        vstd::seq_lib::lemma_multiset_commutative(prev.take(p), seq![s.last()]);
        vstd::seq_lib::lemma_multiset_commutative(prev.take(p), prev.skip(p));
        assert(s =~= s.drop_last().push(s.last()));
    }
}

/// Ranking is stable: for every score, the entries with that score appear
/// in the ranking in the order in which they were given.
pub proof fn law_ranking_is_stable(s: Seq<LeaderboardEntry>, score: u32)
    ensures
        rank_by_score(s).filter(|x: LeaderboardEntry| x.score == score) == s.filter(
            |x: LeaderboardEntry| x.score == score,
        ),
    decreases s.len(),
{
    let pred = |x: LeaderboardEntry| x.score == score;
    if s.len() > 0 {
        let prev = rank_by_score(s.drop_last());
        let e = s.last();
        law_ranking_is_stable(s.drop_last(), score);
        law_ranking_descending(s.drop_last());
        lemma_insert_keeps_descending(prev, e);
        lemma_insertion_point(prev, e);
        let p = insertion_point(prev, e.score) as int;
        let a = prev.take(p);
        let b = prev.skip(p);
        assert(prev.insert(p, e) =~= a + seq![e] + b);
        assert(prev =~= a + b);
        Seq::filter_distributes_over_add(a + seq![e], b, pred);
        Seq::filter_distributes_over_add(a, seq![e], pred);
        Seq::filter_distributes_over_add(a, b, pred);
        reveal_with_fuel(Seq::filter, 2);
        assert(seq![e].drop_last() =~= Seq::<LeaderboardEntry>::empty());
        if e.score == score {
            assert forall|k: int| 0 <= k < b.len() implies !pred(b[k]) by {
                assert(b[k] == prev[p + k]);
            }
            b.lemma_all_neg_filter_empty(pred);
            assert(b.filter(pred) =~= Seq::<LeaderboardEntry>::empty());
            assert(seq![e].filter(pred) =~= seq![e]);
            assert(a.filter(pred) + seq![e] + b.filter(pred) =~= (a.filter(pred) + b.filter(pred)).push(e));
        } else {
            assert(seq![e].filter(pred) =~= Seq::<LeaderboardEntry>::empty());
            assert(a.filter(pred) + seq![e].filter(pred) + b.filter(pred) =~= a.filter(pred) + b.filter(pred));
        }
    }
}

/// The board after a submission holds `min(n + 1, 10)` entries, ranked by
/// descending score: it is the best part of the ranking of all entries.
pub proof fn law_board_size_and_order(list: Seq<LeaderboardEntry>, e: LeaderboardEntry)
    ensures
        leaderboard_after(list, e).len() == if list.len() + 1 <= MAX_LEADERBOARD_ENTRIES {
            list.len() + 1
        } else {
            MAX_LEADERBOARD_ENTRIES as nat
        },
        scores_descending(leaderboard_after(list, e)),
        leaderboard_after(list, e) == rank_by_score(list.push(e)).take(
            leaderboard_after(list, e).len() as int,
        ),
{
    let all = list.push(e);
    law_ranking_descending(all);
    law_ranking_is_permutation(all);
    let r = rank_by_score(all);
    assert(r.len() == all.len()) by {
        broadcast use vstd::seq_lib::group_to_multiset_ensures;

        assert(r.to_multiset().len() == all.to_multiset().len());
    }
    if r.len() <= MAX_LEADERBOARD_ENTRIES {
        assert(r.take(r.len() as int) =~= r);
    }
}

/// A kept name is never empty, never longer than
/// [`MAX_PLAYER_NAME_CHARS`], and (unless it is the anonymous name) a prefix
/// of the trimmed input.
pub proof fn law_sanitized_name_shape(raw: Seq<char>)
    ensures
        0 < sanitized_name(raw).len() <= MAX_PLAYER_NAME_CHARS,
        trim(raw).len() > 0 ==> trim(raw).take(sanitized_name(raw).len() as int) == sanitized_name(
            raw,
        ),
{
    reveal_strlit("Anonymous");
    let t = trim(raw);
    if t.len() > 0 && t.len() <= MAX_PLAYER_NAME_CHARS {
        assert(t.take(t.len() as int) =~= t);
    }
}

/// Index of the first entry of `out` that scores less than `score`.
fn find_insertion_point(out: &Vec<LeaderboardEntry>, score: u32) -> (p: usize)
    ensures
        p == insertion_point(out@, score),
{
    let mut p: usize = 0;
    while p < out.len() && out[p].score >= score
        invariant
            p <= out.len(),
            forall|k: int| 0 <= k < p ==> out@[k].score >= score,
        decreases out.len() - p,
    {
        p = p + 1;
    }
    proof {
        lemma_insertion_point_unique(out@, score, p as int);
    }
    p
}

/// Adds `entry` to `list`, ranks all entries by descending score (earlier
/// entries first among equal scores) and keeps the best
/// [`MAX_LEADERBOARD_ENTRIES`].
pub fn add_to_leaderboard(list: Vec<LeaderboardEntry>, entry: LeaderboardEntry) -> (board: Vec<
    LeaderboardEntry,
>)
    ensures
        board@ == leaderboard_after(list@, entry),
{
    let ghost all = list@.push(entry);
    let mut rest = list;
    rest.push(entry);
    let mut out: Vec<LeaderboardEntry> = Vec::new();
    let ghost mut i: int = 0;
    assert(all.take(0) =~= Seq::<LeaderboardEntry>::empty());
    assert(all.skip(0) =~= all);
    while rest.len() > 0
        invariant
            0 <= i <= all.len(),
            rest@ == all.skip(i),
            out@ == rank_by_score(all.take(i)),
        decreases rest.len(),
    {
        let e = rest.remove(0);
        let p = find_insertion_point(&out, e.score);
        proof {
            assert(e == all[i]);
            lemma_insertion_point(out@, e);
            assert(all.take(i + 1).drop_last() =~= all.take(i));
            assert(all.take(i + 1).last() == all[i]);
            assert(all.skip(i).drop_first() =~= all.skip(i + 1));
        }
        out.insert(p, e);
        proof {
            i = i + 1;
        }
    }
    proof {
        assert(all.take(i) =~= all);
    }
    if out.len() > MAX_LEADERBOARD_ENTRIES {
        out.truncate(MAX_LEADERBOARD_ENTRIES);
    }
    out
}

/// The stored form of a submitted entry: its name sanitised and its date
/// replaced by `date`, the submission time.
pub fn prepare_entry(entry: LeaderboardEntry, date: String) -> (stored: LeaderboardEntry)
    ensures
        stored.name@ == sanitized_name(entry.name@),
        stored.score == entry.score,
        stored.date == date,
{
    let name = sanitize_player_name(entry.name.as_str());
    LeaderboardEntry { name, score: entry.score, date }
}

} // verus!

//! Request-level policies of the HTTP layer: which origins CORS admits,
//! when HSTS applies, and which cross-site `POST`s the origin check lets
//! through.
use vstd::prelude::*;

use crate::text::{
    chars_of, eq_ignore_ascii_case, has_prefix, law_trim_idempotent, str_eq,
    str_eq_ignore_ascii_case, str_starts_with, trim, trim_bounds,
};

verus! {

/// Value of the `Strict-Transport-Security` header on secure responses.
pub const HSTS_HEADER_VALUE: &'static str = "max-age=31536000; includeSubDomains";

/// Whether a request arrived over HTTPS: the `X-Forwarded-Proto` header
/// decides when present (`https` in any case), else the configured base URL.
pub fn request_is_secure(forwarded_proto: Option<&str>, base_url: &str) -> (secure: bool)
    ensures
        secure == match forwarded_proto {
            Some(p) => eq_ignore_ascii_case(p@, "https"@),
            None => has_prefix(base_url@, "https"@),
        },
{
    match forwarded_proto {
        Some(p) => str_eq_ignore_ascii_case(p, "https"),
        None => str_starts_with(base_url, "https"),
    }
}

/// Which origins the CORS layer admits.
pub enum CorsPolicy {
    /// `*`: every origin.
    AnyOrigin,
    /// No origins configured: only the literal `null` origin.
    NullOrigin,
    /// The listed origins.
    Origins(Vec<String>),
}

/// The kept item for the text `cur` between two commas: its trimmed form,
/// when that is not empty.
pub open spec fn kept_item(cur: Seq<char>) -> Seq<Seq<char>> {
    if trim(cur).len() > 0 {
        seq![trim(cur)]
    } else {
        seq![]
    }
}

/// The trimmed, non-empty comma-separated items of `cur` followed by `s`,
/// where `cur` is the text of the current item read so far.
pub open spec fn comma_items_from(s: Seq<char>, cur: Seq<char>) -> Seq<Seq<char>>
    decreases s.len(),
{
    if s.len() == 0 {
        kept_item(cur)
    } else if s[0] == ',' {
        kept_item(cur) + comma_items_from(s.drop_first(), seq![])
    } else {
        comma_items_from(s.drop_first(), cur.push(s[0]))
    }
}

/// The trimmed, non-empty comma-separated items of `s`.
pub open spec fn comma_items(s: Seq<char>) -> Seq<Seq<char>> {
    comma_items_from(s, seq![])
}

/// Every item read from a comma-separated list by [`comma_items_from`] is
/// non-empty and already trimmed.
proof fn lemma_comma_items_from_trimmed(s: Seq<char>, cur: Seq<char>)
    ensures
        forall|i: int|
            0 <= i < comma_items_from(s, cur).len() ==> {
                let item = #[trigger] comma_items_from(s, cur)[i];
                item.len() > 0 && trim(item) == item
            },
    decreases s.len(),
{
    law_trim_idempotent(cur);
    if s.len() == 0 {
        assert(comma_items_from(s, cur) == kept_item(cur));
        if trim(cur).len() > 0 {
            assert(comma_items_from(s, cur)[0] == trim(cur));
        }
    } else {
        if s[0] == ',' {
            lemma_comma_items_from_trimmed(s.drop_first(), seq![]);
            let head = kept_item(cur);
            let rest = comma_items_from(s.drop_first(), seq![]);
            assert(comma_items_from(s, cur) == head + rest);
            assert forall|i: int| 0 <= i < comma_items_from(s, cur).len() implies {
                let item = #[trigger] comma_items_from(s, cur)[i];
                item.len() > 0 && trim(item) == item
            } by {
                if i < head.len() {
                    assert(comma_items_from(s, cur)[i] == head[i]);
                } else {
                    assert(comma_items_from(s, cur)[i] == rest[i - head.len()]);
                }
            }
        } else {
            lemma_comma_items_from_trimmed(s.drop_first(), cur.push(s[0]));
            assert(comma_items_from(s, cur) == comma_items_from(s.drop_first(), cur.push(s[0])));
        }
    }
}

/// The configured origins are clean: each listed item is non-empty and
/// carries no surrounding white space.
pub proof fn law_comma_items_are_trimmed(s: Seq<char>)
    ensures
        forall|i: int|
            0 <= i < comma_items(s).len() ==> (#[trigger] comma_items(s)[i]).len() > 0
                && trim(comma_items(s)[i]) == comma_items(s)[i],
{
    lemma_comma_items_from_trimmed(s, seq![]);
    assert forall|i: int| 0 <= i < comma_items(s).len() implies (#[trigger] comma_items(
        s,
    )[i]).len() > 0 && trim(comma_items(s)[i]) == comma_items(s)[i] by {
        let item = comma_items_from(s, seq![])[i];
        assert(item.len() > 0 && trim(item) == item);
    }
}

/// The policy for the configured origin list (after trimming): `*` admits
/// every origin, an empty list only `null`, otherwise the listed origins.
pub open spec fn cors_policy_for(list: Seq<char>) -> (int, Seq<Seq<char>>) {
    let t = trim(list);
    if t == "*"@ {
        (0, seq![])
    } else if t.len() == 0 {
        (1, seq![])
    } else {
        (2, comma_items(t))
    }
}

impl CorsPolicy {
    /// The policy as a tag (`0` any, `1` null only, `2` listed) and its list.
    pub open spec fn shape(&self) -> (int, Seq<Seq<char>>) {
        match self {
            CorsPolicy::AnyOrigin => (0, seq![]),
            CorsPolicy::NullOrigin => (1, seq![]),
            CorsPolicy::Origins(v) => (2, v@.map_values(|s: String| s@)),
        }
    }
}

/// The trimmed text of `v[start..end]`, taken from `s`, pushed onto `items`
/// when not empty.
fn push_item(s: &str, v: &Vec<char>, start: usize, end: usize, items: &mut Vec<String>)
    requires
        v@ == s@,
        start <= end <= v.len(),
    ensures
        final(items)@.map_values(|x: String| x@) == old(items)@.map_values(|x: String| x@) + kept_item(
            v@.subrange(start as int, end as int),
        ),
{
    let ghost before = old(items)@.map_values(|x: String| x@);
    let piece = s.substring_char(start, end);
    let pv = chars_of(piece);
    let (a, b) = trim_bounds(&pv);
    if a < b {
        let t = piece.substring_char(a, b);
        items.push(String::from_str(t));
        assert(items@.map_values(|x: String| x@) =~= before + kept_item(
            v@.subrange(start as int, end as int),
        ));
    } else {
        assert(before + kept_item(v@.subrange(start as int, end as int)) =~= before);
        assert(items@.map_values(|x: String| x@) =~= before);
    }
}

/// The trimmed, non-empty comma-separated items of `s`.
pub fn split_comma_items(s: &str) -> (items: Vec<String>)
    ensures
        items@.map_values(|x: String| x@) == comma_items(s@),
{
    let v = chars_of(s);
    let n = v.len();
    let mut items: Vec<String> = Vec::new();
    let mut seg: usize = 0;
    let mut i: usize = 0;
    assert(v@.skip(0) =~= v@);
    assert(v@.subrange(0, 0) =~= Seq::<char>::empty());
    while i < n
        invariant
            seg <= i <= n == v.len(),
            v@ == s@,
            comma_items(s@) == items@.map_values(|x: String| x@) + comma_items_from(
                v@.skip(i as int),
                v@.subrange(seg as int, i as int),
            ),
        decreases n - i,
    {
        let ghost rest = v@.skip(i as int);
        assert(rest[0] == v@[i as int]);
        assert(rest.drop_first() =~= v@.skip(i + 1));
        if v[i] == ',' {
            let ghost before = items@.map_values(|x: String| x@);
            push_item(s, &v, seg, i, &mut items);
            assert(v@.subrange((i + 1) as int, (i + 1) as int) =~= Seq::<char>::empty());
            assert(before + (kept_item(v@.subrange(seg as int, i as int)) + comma_items_from(
                v@.skip(i + 1),
                seq![],
            )) =~= items@.map_values(|x: String| x@) + comma_items_from(v@.skip(i + 1), seq![]));
            i = i + 1;
            seg = i;
        } else {
            assert(v@.subrange(seg as int, i + 1) =~= v@.subrange(seg as int, i as int).push(
                v@[i as int],
            ));
            i = i + 1;
        }
    }
    let ghost before = items@.map_values(|x: String| x@);
    push_item(s, &v, seg, n, &mut items);
    assert(v@.skip(n as int) =~= Seq::<char>::empty());
    items
}

/// The CORS policy for the configured `allowed_origins` list.
pub fn cors_policy(allowed_origins: &str) -> (p: CorsPolicy)
    ensures
        p.shape() == cors_policy_for(allowed_origins@),
{
    let v = chars_of(allowed_origins);
    let (a, b) = trim_bounds(&v);
    let t = allowed_origins.substring_char(a, b);
    if str_eq(t, "*") {
        CorsPolicy::AnyOrigin
    } else if a == b {
        CorsPolicy::NullOrigin
    } else {
        CorsPolicy::Origins(split_comma_items(t))
    }
}

/// Whether the origin check lets a `POST` through. A missing `Origin` is
/// refused; the literal `null` origin (any case) passes only when allowed;
/// any other origin passes when it names the requested host
/// (`same_host`) or the configured base URL (`matches_base_url`).
pub fn origin_allowed(
    origin: Option<&str>,
    allow_null_origin: bool,
    same_host: bool,
    matches_base_url: bool,
) -> (allowed: bool)
    ensures
        allowed == match origin {
            None => false,
            Some(o) => if eq_ignore_ascii_case(o@, "null"@) {
                allow_null_origin
            } else {
                same_host || matches_base_url
            },
        },
{
    match origin {
        None => false,
        Some(o) => {
            if str_eq_ignore_ascii_case(o, "null") {
                allow_null_origin
            } else {
                same_host || matches_base_url
            }
        },
    }
}

/// `origin` without a leading `https://` or `http://`.
pub open spec fn without_scheme(origin: Seq<char>) -> Seq<char> {
    if has_prefix(origin, "https://"@) {
        origin.skip(8)
    } else if has_prefix(origin, "http://"@) {
        origin.skip(7)
    } else {
        origin
    }
}

/// `s` without its trailing slashes.
pub open spec fn without_trailing_slashes(s: Seq<char>) -> Seq<char>
    decreases s.len(),
{
    if s.len() > 0 && s.last() == '/' {
        without_trailing_slashes(s.drop_last())
    } else {
        s
    }
}

/// Whether the `Origin` value names the host the request was sent to: once
/// its scheme is removed it equals the `Host` header.
pub fn names_host(origin: &str, host: Option<&str>) -> (r: bool)
    ensures
        r == match host {
            Some(h) => without_scheme(origin@) == h@,
            None => false,
        },
{
    proof {
        reveal_strlit("https://");
        reveal_strlit("http://");
    }
    let h = match host {
        Some(h) => h,
        None => {
            return false;
        },
    };
    let n = origin.unicode_len();
    let bare = if str_starts_with(origin, "https://") {
        origin.substring_char(8, n)
    } else if str_starts_with(origin, "http://") {
        origin.substring_char(7, n)
    } else {
        origin
    };
    proof {
        if has_prefix(origin@, "https://"@) {
            assert(origin@.subrange(8, n as int) =~= origin@.skip(8));
        } else if has_prefix(origin@, "http://"@) {
            assert(origin@.subrange(7, n as int) =~= origin@.skip(7));
        }
    }
    str_eq(bare, h)
}

/// Length of `v` once its trailing slashes are removed.
fn slash_trimmed_len(v: &Vec<char>) -> (n: usize)
    ensures
        n <= v@.len(),
        v@.take(n as int) == without_trailing_slashes(v@),
{
    let mut n = v.len();
    assert(v@.take(n as int) =~= v@);
    while n > 0 && v[n - 1] == '/'
        invariant
            n <= v@.len(),
            without_trailing_slashes(v@) == without_trailing_slashes(v@.take(n as int)),
        decreases n,
    {
        proof {
            let t = v@.take(n as int);
            assert(t.last() == v@[n - 1]);
            assert(t.drop_last() =~= v@.take(n - 1));
        }
        n = n - 1;
    }
    proof {
        let t = v@.take(n as int);
        if n > 0 {
            assert(t.last() == v@[n - 1]);
        }
    }
    n
}

/// Whether the `Origin` value is the configured base URL, trailing slashes
/// aside; an empty base URL names no origin.
pub fn names_base_url(origin: &str, base_url: &str) -> (r: bool)
    ensures
        r == (base_url@.len() > 0 && without_trailing_slashes(origin@) == without_trailing_slashes(
            base_url@,
        )),
{
    let o = chars_of(origin);
    let b = chars_of(base_url);
    if b.len() == 0 {
        return false;
    }
    let n = slash_trimmed_len(&o);
    let m = slash_trimmed_len(&b);
    proof {
        assert(o@ == origin@ && b@ == base_url@);
        assert(without_trailing_slashes(origin@).len() == n);
        assert(without_trailing_slashes(base_url@).len() == m);
    }
    if n != m {
        assert(without_trailing_slashes(origin@) != without_trailing_slashes(base_url@));
        return false;
    }
    let mut i: usize = 0;
    while i < n
        invariant
            i <= n == m,
            n <= o@.len(),
            m <= b@.len(),
            o@ == origin@,
            b@ == base_url@,
            o@.take(n as int) == without_trailing_slashes(origin@),
            b@.take(m as int) == without_trailing_slashes(base_url@),
            base_url@.len() > 0,
            forall|j: int| 0 <= j < i ==> o@[j] == b@[j],
        decreases n - i,
    {
        if o[i] != b[i] {
            assert(o@.take(n as int)[i as int] != b@.take(m as int)[i as int]);
            assert(without_trailing_slashes(origin@) != without_trailing_slashes(base_url@));
            return false;
        }
        i = i + 1;
    }
    assert(o@.take(n as int) =~= b@.take(m as int));
    true
}

} // verus!

//! What the front end reads from and writes to browser storage: the theme
//! survives in a long-lived cookie besides `localStorage`, and values that
//! some browsers store wrapped in JSON quotes are unwrapped on read.
//!
//! The functions here decide; the caller performs the returned writes.
use vstd::prelude::*;

use crate::text::{chars_of, index_of, str_eq, trim, trim_bounds, trim_end, trim_start};

verus! {

/// Name of the long-lived cookie that persists the active theme.
pub const THEME_COOKIE_NAME: &'static str = "snake_theme";

/// Storage key of the theme.
pub const THEME_KEY: &'static str = "theme";

/// A write that a storage operation asks the caller to perform.
#[derive(Debug, PartialEq, Eq)]
pub enum StorageWrite {
    /// `localStorage.setItem(key, value)`.
    Local { key: String, value: String },
    /// `document.cookie = text`.
    Cookie(String),
}

/// The content of a [`StorageWrite`].
pub enum WriteView {
    Local(Seq<char>, Seq<char>),
    Cookie(Seq<char>),
}

impl StorageWrite {
    /// The write as plain character sequences.
    pub open spec fn view_write(&self) -> WriteView {
        match self {
            StorageWrite::Local { key, value } => WriteView::Local(key@, value@),
            StorageWrite::Cookie(text) => WriteView::Cookie(text@),
        }
    }
}

/// The writes of `v`, as plain character sequences.
pub open spec fn writes_view(v: Seq<StorageWrite>) -> Seq<WriteView> {
    v.map_values(|w: StorageWrite| w.view_write())
}

/// `true` when `v` is wrapped in a pair of double quotes.
pub open spec fn is_quoted(v: Seq<char>) -> bool {
    v.len() >= 2 && v[0] == '"' && v.last() == '"'
}

/// `v` without its wrapping double quotes, if it has them.
pub open spec fn unquoted(v: Seq<char>) -> Seq<char> {
    if is_quoted(v) {
        v.subrange(1, v.len() - 1)
    } else {
        v
    }
}

/// The theme value that one `name=value` cookie pair carries: `None` when
/// the pair has no `=` or another name. Name and value are trimmed; the
/// value ends at a second `=`, if any.
pub open spec fn theme_pair_value(pair: Seq<char>) -> Option<Seq<char>> {
    let e = index_of(pair, '=');
    if e >= pair.len() {
        None
    } else {
        let rest = pair.skip(e + 1 as int);
        let value = trim(rest.take(index_of(rest, '=') as int));
        if trim(pair.take(e as int)) == THEME_COOKIE_NAME@ {
            Some(value)
        } else {
            None
        }
    }
}

/// The theme value of the first `;`-separated cookie pair (the pair read so
/// far being `cur`, then the text `s`) that names the theme cookie.
pub open spec fn theme_cookie_from(s: Seq<char>, cur: Seq<char>) -> Option<Seq<char>>
    decreases s.len(),
{
    if s.len() == 0 {
        theme_pair_value(cur)
    } else if s[0] == ';' {
        match theme_pair_value(cur) {
            Some(v) => Some(v),
            None => theme_cookie_from(s.drop_first(), seq![]),
        }
    } else {
        theme_cookie_from(s.drop_first(), cur.push(s[0]))
    }
}

/// The theme value in the cookie string `cookies`, if it holds the theme cookie.
pub open spec fn theme_cookie_value(cookies: Seq<char>) -> Option<Seq<char>> {
    theme_cookie_from(cookies, seq![])
}

/// The text written to `document.cookie` to persist the theme `value` for a year.
pub open spec fn theme_cookie_text(value: Seq<char>) -> Seq<char> {
    "snake_theme="@ + value + "; Path=/; Max-Age=31536000; SameSite=Lax"@
}

/// The writes that storing `value` under `key` performs: `localStorage`,
/// and for the theme also the cookie.
pub open spec fn set_writes(key: Seq<char>, value: Seq<char>) -> Seq<WriteView> {
    if key == THEME_KEY@ {
        seq![WriteView::Local(key, value), WriteView::Cookie(theme_cookie_text(value))]
    } else {
        seq![WriteView::Local(key, value)]
    }
}

/// The value read for `key` and the writes the read performs, given the
/// cookie string (if any) and the value stored in `localStorage` (if any).
///
/// For the theme, a theme cookie wins: its unquoted value is returned and
/// copied to `localStorage`. Otherwise the stored value is returned, and
/// when it was wrapped in quotes its unquoted form is returned and stored
/// back. With nothing stored, `default` is returned.
pub open spec fn read_outcome(
    key: Seq<char>,
    default: Seq<char>,
    cookies: Option<Seq<char>>,
    stored: Option<Seq<char>>,
) -> (Seq<char>, Seq<WriteView>) {
    if key == THEME_KEY@ && cookies is Some && theme_cookie_value(cookies->0) is Some {
        let clean = unquoted(theme_cookie_value(cookies->0)->0);
        (clean, seq![WriteView::Local(key, clean)])
    } else {
        match stored {
            Some(v) => if is_quoted(v) {
                (unquoted(v), set_writes(key, unquoted(v)))
            } else {
                (v, seq![])
            },
            None => (default, seq![]),
        }
    }
}

/// Text without `;` passes into the current cookie pair.
proof fn lemma_theme_cookie_from_skip(a: Seq<char>, b: Seq<char>, cur: Seq<char>)
    requires
        forall|k: int| 0 <= k < a.len() ==> a[k] != ';',
    ensures
        theme_cookie_from(a + b, cur) == theme_cookie_from(b, cur + a),
    decreases a.len(),
{
    if a.len() == 0 {
        assert(a + b =~= b);
        assert(cur + a =~= cur);
    } else {
        assert((a + b)[0] == a[0]);
        assert((a + b).drop_first() =~= a.drop_first() + b);
        assert(cur.push(a[0]) + a.drop_first() =~= cur + a);
        lemma_theme_cookie_from_skip(a.drop_first(), b, cur.push(a[0]));
    }
}

/// A value that is not wrapped in quotes reads back as written.
pub proof fn law_stored_value_reads_back(key: Seq<char>, default: Seq<char>, value: Seq<char>)
    requires
        !is_quoted(value),
        key != THEME_KEY@,
    ensures
        read_outcome(key, default, None, Some(value)) == (value, Seq::<WriteView>::empty()),
{
}

/// The theme cookie that storing the theme writes reads back as the theme,
/// for a theme name without `;`, `=` or surrounding white space.
pub proof fn law_theme_cookie_reads_back(value: Seq<char>)
    requires
        forall|k: int| 0 <= k < value.len() ==> value[k] != ';' && value[k] != '=',
        trim(value) == value,
    ensures
        theme_cookie_value(theme_cookie_text(value)) == Some(value),
{
    reveal_strlit("snake_theme=");
    reveal_strlit("snake_theme");
    reveal_strlit("; Path=/; Max-Age=31536000; SameSite=Lax");
    let head = "snake_theme="@;
    let tail = "; Path=/; Max-Age=31536000; SameSite=Lax"@;
    let pair = head + value;
    assert(theme_cookie_text(value) =~= pair + tail);
    assert forall|k: int| 0 <= k < pair.len() implies pair[k] != ';' by {
        if k >= head.len() {
            assert(pair[k] == value[k - head.len()]);
        }
    }
    lemma_theme_cookie_from_skip(pair, tail, seq![]);
    assert(Seq::<char>::empty() + pair =~= pair);
    assert(tail[0] == ';');
    assert(tail.drop_first().len() < tail.len());
    lemma_index_of(pair, '=', 11);
    let rest = pair.skip(12);
    assert(rest =~= value);
    lemma_index_of(value, '=', value.len() as int);
    assert(value.take(value.len() as int) =~= value);
    let name = pair.take(11);
    assert(name =~= "snake_theme"@);
    assert(trim_start(name) == name);
    assert(trim_end(name) == name);
}

/// Index of the first `c` in `v[from..to]`, or `to`.
fn find_char(v: &Vec<char>, from: usize, to: usize, c: char) -> (k: usize)
    requires
        from <= to <= v.len(),
    ensures
        k == from + index_of(v@.subrange(from as int, to as int), c),
        from <= k <= to,
        k < to ==> v@[k as int] == c,
        forall|j: int| from <= j < k ==> v@[j] != c,
{
    let mut k = from;
    while k < to && v[k] != c
        invariant
            from <= k <= to <= v.len(),
            forall|j: int| from <= j < k ==> v@[j] != c,
        decreases to - k,
    {
        k = k + 1;
    }
    proof {
        lemma_index_of(v@.subrange(from as int, to as int), c, k - from);
    }
    k
}

/// The first index of `c` in `s` is the `k` before which no `c` occurs and
/// at which `c` occurs (or the end).
proof fn lemma_index_of(s: Seq<char>, c: char, k: int)
    requires
        0 <= k <= s.len(),
        forall|j: int| 0 <= j < k ==> s[j] != c,
        k < s.len() ==> s[k] == c,
    ensures
        index_of(s, c) == k,
    decreases s.len(),
{
    if s.len() > 0 && k > 0 {
        assert forall|j: int| 0 <= j < k - 1 implies s.drop_first()[j] != c by {
            assert(s.drop_first()[j] == s[j + 1]);
        }
        lemma_index_of(s.drop_first(), c, k - 1);
    }
}

/// The theme value of the cookie pair `v[start..end]` of the string `s`.
fn pair_theme_value(s: &str, v: &Vec<char>, start: usize, end: usize) -> (r: Option<String>)
    requires
        v@ == s@,
        start <= end <= v.len(),
    ensures
        match theme_pair_value(v@.subrange(start as int, end as int)) {
            Some(x) => r is Some && r->0@ == x,
            None => r is None,
        },
{
    let ghost pair = v@.subrange(start as int, end as int);
    let e = find_char(v, start, end, '=');
    if e >= end {
        return None;
    }
    let ghost rest = pair.skip(e - start + 1);
    assert(rest =~= v@.subrange(e + 1, end as int));
    let e2 = find_char(v, e + 1, end, '=');
    assert(rest.take(index_of(rest, '=') as int) =~= v@.subrange(e + 1, e2 as int));
    assert(pair.take(e - start) =~= v@.subrange(start as int, e as int));
    let name = s.substring_char(start, e);
    let nv = chars_of(name);
    let (na, nb) = trim_bounds(&nv);
    let trimmed_name = name.substring_char(na, nb);
    if !str_eq(trimmed_name, THEME_COOKIE_NAME) {
        return None;
    }
    let value = s.substring_char(e + 1, e2);
    let vv = chars_of(value);
    let (va, vb) = trim_bounds(&vv);
    let trimmed_value = value.substring_char(va, vb);
    Some(String::from_str(trimmed_value))
}

/// The theme value in the cookie string `cookies`, if it holds the theme cookie.
pub fn theme_from_cookies(cookies: &str) -> (r: Option<String>)
    ensures
        match theme_cookie_value(cookies@) {
            Some(x) => r is Some && r->0@ == x,
            None => r is None,
        },
{
    let v = chars_of(cookies);
    let n = v.len();
    let mut seg: usize = 0;
    let mut i: usize = 0;
    assert(v@.skip(0) =~= v@);
    assert(v@.subrange(0, 0) =~= Seq::<char>::empty());
    while i < n
        invariant
            seg <= i <= n == v.len(),
            v@ == cookies@,
            theme_cookie_value(cookies@) == theme_cookie_from(
                v@.skip(i as int),
                v@.subrange(seg as int, i as int),
            ),
        decreases n - i,
    {
        let ghost rest = v@.skip(i as int);
        assert(rest[0] == v@[i as int]);
        assert(rest.drop_first() =~= v@.skip(i + 1));
        if v[i] == ';' {
            let found = pair_theme_value(cookies, &v, seg, i);
            if found.is_some() {
                return found;
            }
            assert(v@.subrange((i + 1) as int, (i + 1) as int) =~= Seq::<char>::empty());
            i = i + 1;
            seg = i;
        } else {
            assert(v@.subrange(seg as int, i + 1) =~= v@.subrange(seg as int, i as int).push(
                v@[i as int],
            ));
            i = i + 1;
        }
    }
    assert(v@.skip(n as int) =~= Seq::<char>::empty());
    pair_theme_value(cookies, &v, seg, n)
}

/// `value` without its wrapping double quotes, if it has them.
pub fn strip_quotes(value: &str) -> (r: String)
    ensures
        r@ == unquoted(value@),
{
    let v = chars_of(value);
    let n = v.len();
    if n >= 2 && v[0] == '"' && v[n - 1] == '"' {
        String::from_str(value.substring_char(1, n - 1))
    } else {
        String::from_str(value)
    }
}

/// Whether `value` is wrapped in double quotes.
fn quoted(value: &str) -> (q: bool)
    ensures
        q == is_quoted(value@),
{
    let v = chars_of(value);
    let n = v.len();
    n >= 2 && v[0] == '"' && v[n - 1] == '"'
}

/// Static facade over the browser storage used by the application.
pub struct StorageService;

impl StorageService {
    /// The writes that storing `value` under `key` performs: `localStorage`,
    /// and for the `"theme"` key also a cookie that lives for a year.
    pub fn set_item(key: &str, value: &str) -> (writes: Vec<StorageWrite>)
        ensures
            writes_view(writes@) == set_writes(key@, value@),
    {
        let mut writes: Vec<StorageWrite> = Vec::new();
        writes.push(StorageWrite::Local { key: String::from_str(key), value: String::from_str(value) });
        if str_eq(key, THEME_KEY) {
            let mut text = String::from_str("snake_theme=");
            text.append(value);
            text.append("; Path=/; Max-Age=31536000; SameSite=Lax");
            writes.push(StorageWrite::Cookie(text));
        }
        assert(writes_view(writes@) =~= set_writes(key@, value@));
        writes
    }

    /// The value read for `key` (or `default`), given the cookie string and
    /// the value stored in `localStorage`, with the writes the read performs.
    pub fn get_item(key: &str, default: &str, cookies: Option<&str>, stored: Option<&str>) -> (r: (
        String,
        Vec<StorageWrite>,
    ))
        ensures
            ({
                let (value, writes) = read_outcome(
                    key@,
                    default@,
                    match cookies {
                        Some(c) => Some(c@),
                        None => None,
                    },
                    match stored {
                        Some(s) => Some(s@),
                        None => None,
                    },
                );
                r.0@ == value && writes_view(r.1@) == writes
            }),
    {
        if str_eq(key, THEME_KEY) {
            if let Some(c) = cookies {
                if let Some(v) = theme_from_cookies(c) {
                    let clean = strip_quotes(v.as_str());
                    let mut writes: Vec<StorageWrite> = Vec::new();
                    writes.push(StorageWrite::Local { key: String::from_str(key), value: clean.clone() });
                    assert(writes_view(writes@) =~= seq![WriteView::Local(key@, clean@)]);
                    return (clean, writes);
                }
            }
        }
        match stored {
            Some(v) => {
                if quoted(v) {
                    let clean = strip_quotes(v);
                    let writes = Self::set_item(key, clean.as_str());
                    (clean, writes)
                } else {
                    let writes: Vec<StorageWrite> = Vec::new();
                    assert(writes_view(writes@) =~= Seq::<WriteView>::empty());
                    (String::from_str(v), writes)
                }
            },
            None => {
                let writes: Vec<StorageWrite> = Vec::new();
                assert(writes_view(writes@) =~= Seq::<WriteView>::empty());
                (String::from_str(default), writes)
            },
        }
    }
}

} // verus!

//! Page shells and redirects: site-title injection into HTML, the login
//! redirect of unauthenticated visitors, and the post-login target.
use vstd::prelude::*;

use vstd::string::StringSliceAdditionalSpecFns;

use crate::text::{chars_have_prefix_at, chars_of, has_prefix, str_starts_with};

verus! {

/// The placeholder in HTML bodies that the site title replaces.
pub const SITE_TITLE_PLACEHOLDER: &'static str = "{{SITE_TITLE}}";

/// `s` with every occurrence of `pat` replaced by `rep`, scanning left to
/// right without overlaps (what `str::replace` does for a non-empty `pat`).
pub open spec fn replace_all(s: Seq<char>, pat: Seq<char>, rep: Seq<char>) -> Seq<char>
    decreases s.len(),
{
    if s.len() == 0 || pat.len() == 0 {
        s
    } else if has_prefix(s, pat) {
        rep + replace_all(s.skip(pat.len() as int), pat, rep)
    } else {
        seq![s[0]] + replace_all(s.drop_first(), pat, rep)
    }
}

/// Replace every occurrence of the non-empty `pat` in `s` by `rep`.
pub fn replace_all_str(s: &str, pat: &str, rep: &str) -> (out: String)
    requires
        pat@.len() > 0,
    ensures
        out@ == replace_all(s@, pat@, rep@),
{
    let v = chars_of(s);
    let p = chars_of(pat);
    let n = v.len();
    let m = p.len();
    let mut out = String::new();
    let mut seg: usize = 0;
    let mut i: usize = 0;
    assert(v@.skip(0) =~= v@);
    while i < n
        invariant
            seg <= i <= n == v.len(),
            v@ == s@,
            p@ == pat@,
            m == p.len() > 0,
            replace_all(s@, pat@, rep@) == out@ + v@.subrange(seg as int, i as int) + replace_all(
                v@.skip(i as int),
                pat@,
                rep@,
            ),
        decreases n - i,
    {
        let ghost rest = v@.skip(i as int);
        if chars_have_prefix_at(&v, i, &p) {
            let ghost old_out = out@;
            let piece = s.substring_char(seg, i);
            out.append(piece);
            out.append(rep);
            proof {
                assert(rest.skip(m as int) =~= v@.skip(i + m));
                assert(replace_all(rest, pat@, rep@) == rep@ + replace_all(
                    rest.skip(m as int),
                    pat@,
                    rep@,
                ));
                assert(v@.subrange((i + m) as int, (i + m) as int) =~= Seq::<char>::empty());
                assert(out@ =~= old_out + v@.subrange(seg as int, i as int) + rep@);
                assert(out@ + v@.subrange((i + m) as int, (i + m) as int) =~= out@);
            }
            i = i + m;
            seg = i;
        } else {
            proof {
                assert(rest.drop_first() =~= v@.skip(i + 1));
                assert(rest[0] == v@[i as int]);
                assert(v@.subrange(seg as int, i + 1) =~= v@.subrange(seg as int, i as int).push(
                    v@[i as int],
                ));
            }
            i = i + 1;
        }
    }
    let tail = s.substring_char(seg, n);
    out.append(tail);
    assert(v@.skip(n as int) =~= Seq::<char>::empty());
    out
}

/// `html` with every `{{SITE_TITLE}}` placeholder replaced by `site_title`.
pub fn inject_site_title(html: &str, site_title: &str) -> (page: String)
    ensures
        page@ == replace_all(html@, SITE_TITLE_PLACEHOLDER@, site_title@),
{
    proof {
        reveal_strlit("{{SITE_TITLE}}");
    }
    replace_all_str(html, SITE_TITLE_PLACEHOLDER, site_title)
}

/// Whether a `Content-Type` value denotes an HTML body (`text/html...`).
pub fn is_html_content_type(content_type: &str) -> (html: bool)
    ensures
        html == has_prefix(content_type@, "text/html"@),
{
    str_starts_with(content_type, "text/html")
}

/// `true` for ASCII letters and digits.
pub open spec fn is_ascii_alphanumeric(b: u8) -> bool {
    (0x30 <= b <= 0x39) || (0x41 <= b <= 0x5A) || (0x61 <= b <= 0x7A)
}

/// The upper-case hexadecimal character of the nibble `d`.
pub open spec fn hex_upper_char(d: nat) -> char {
    if d < 10 {
        (('0' as u32) + d) as char
    } else {
        (('A' as u32) + (d - 10)) as char
    }
}

/// Percent-encoding of the bytes `b`: ASCII letters and digits stay, every
/// other byte becomes `%` and two upper-case hexadecimal digits.
pub open spec fn percent_encoded(b: Seq<u8>) -> Seq<char>
    decreases b.len(),
{
    if b.len() == 0 {
        seq![]
    } else {
        let x = b.last();
        percent_encoded(b.drop_last()) + if is_ascii_alphanumeric(x) {
            seq![x as char]
        } else {
            seq!['%', hex_upper_char((x / 16) as nat), hex_upper_char((x % 16) as nat)]
        }
    }
}

/// `s` percent-encoded by `percent_encoding::utf8_percent_encode` with the
/// `NON_ALPHANUMERIC` set: each UTF-8 byte of `s` that is not an ASCII
/// letter or digit becomes `%XX` with upper-case hexadecimal digits, the
/// others are kept.
#[verifier::external_body]
fn percent_encode_non_alphanumeric(s: &str) -> (r: String)
    ensures
        r@ == percent_encoded(s.spec_bytes()),
{
    percent_encoding::utf8_percent_encode(s, percent_encoding::NON_ALPHANUMERIC).to_string()
}

/// `true` for the characters a percent-encoded text is made of: ASCII
/// letters, digits and `%`.
pub open spec fn is_query_safe_char(c: char) -> bool {
    ('0' <= c <= '9') || ('A' <= c <= 'Z') || ('a' <= c <= 'z') || c == '%'
}

/// A percent-encoded text cannot break out of the query parameter that
/// carries it: it holds only ASCII letters, digits and `%`, so no `&`, `#`,
/// `=`, `/` or white space.
pub proof fn law_percent_encoding_is_query_safe(b: Seq<u8>)
    ensures
        forall|i: int|
            0 <= i < percent_encoded(b).len() ==> is_query_safe_char(
                #[trigger] percent_encoded(b)[i],
            ),
    decreases b.len(),
{
    if b.len() > 0 {
        law_percent_encoding_is_query_safe(b.drop_last());
        let x = b.last();
        let head = percent_encoded(b.drop_last());
        let tail = if is_ascii_alphanumeric(x) {
            seq![x as char]
        } else {
            seq!['%', hex_upper_char((x / 16) as nat), hex_upper_char((x % 16) as nat)]
        };
        assert(percent_encoded(b) == head + tail);
        assert forall|i: int| 0 <= i < tail.len() implies is_query_safe_char(tail[i]) by {
            if !is_ascii_alphanumeric(x) && i > 0 {
                let d: nat = if i == 1 {
                    (x / 16) as nat
                } else {
                    (x % 16) as nat
                };
                assert(d < 16);
                assert(tail[i] == hex_upper_char(d));
            }
        }
        assert forall|i: int| 0 <= i < percent_encoded(b).len() implies is_query_safe_char(
            #[trigger] percent_encoded(b)[i],
        ) by {
            if i >= head.len() {
                assert(percent_encoded(b)[i] == tail[i - head.len()]);
            } else {
                assert(percent_encoded(b)[i] == head[i]);
            }
        }
    }
}

/// Where an unauthenticated visit to `uri` is redirected: the login page,
/// carrying the percent-encoded `uri` as its `redirect` parameter.
pub fn login_redirect_location(uri: &str) -> (location: String)
    ensures
        location@ == "/login?redirect="@ + percent_encoded(uri.spec_bytes()),
{
    let encoded = percent_encode_non_alphanumeric(uri);
    let mut out = String::from_str("/login?redirect=");
    out.append(encoded.as_str());
    out
}

/// The in-app path to go to after a successful login: the `redirect`
/// parameter when it is a non-empty local path (starting with `/` but not
/// `//`), else `/`.
pub open spec fn post_login_target(redirect: Option<Seq<char>>) -> Seq<char> {
    match redirect {
        Some(r) => if r.len() > 0 && has_prefix(r, "/"@) && !has_prefix(r, "//"@) {
            r
        } else {
            "/"@
        },
        None => "/"@,
    }
}

/// The path to go to after a successful login, from the optional `redirect`
/// query parameter.
pub fn post_login_path(redirect: Option<&str>) -> (path: String)
    ensures
        path@ == post_login_target(
            match redirect {
                Some(r) => Some(r@),
                None => None,
            },
        ),
{
    match redirect {
        Some(r) => {
            if !r.is_empty() && str_starts_with(r, "/") && !str_starts_with(r, "//") {
                String::from_str(r)
            } else {
                String::from_str("/")
            }
        },
        None => String::from_str("/"),
    }
}

/// After a login the browser stays on this site: the target is always a
/// local path, starting with `/` but never with `//` (which would name
/// another host).
pub proof fn law_post_login_stays_on_site(redirect: Option<Seq<char>>)
    ensures
        has_prefix(post_login_target(redirect), "/"@),
        !has_prefix(post_login_target(redirect), "//"@),
{
    reveal_strlit("/");
    reveal_strlit("//");
    let t = post_login_target(redirect);
    if t == "/"@ {
        assert(t.take(1) =~= "/"@);
    }
}

} // verus!

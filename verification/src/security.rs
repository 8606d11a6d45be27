//! Path and URI safety checks.
use vstd::prelude::*;

use crate::error::{MagGraphError, Result};
use crate::path::{components, path_components, path_starts_with, path_starts_with_exec};
use crate::text::{
    chars_eq, chars_of, ends_with, ends_with_exec, find_at_or_after, find_from, lemma_find_from_props,
    lower_seq, push_str, slice_vec, starts_with, starts_with_exec, str_eq, string_of,
    strip_leading, strip_leading_start, strip_trailing, strip_trailing_len, to_ascii_lowercase,
    before_char, before_char_len,
};

use crate::ip::{ip_literal_blocked, ip_literal_blocked_exec};

verus! {

/// Why a node path is refused, if it is.
pub open spec fn relative_path_problem(p: Seq<char>) -> Option<Seq<char>> {
    if p.len() == 0 {
        Some("node relative_path must not be empty"@)
    } else if p[0] == '/' {
        Some("node relative_path must be relative to the graph root"@)
    } else if components(p).contains(seq!['.', '.']) {
        Some("node relative_path must not contain '..' components"@)
    } else if components(p).contains(".maggraph"@) {
        Some("node paths must not live under `.maggraph/`"@)
    } else {
        None
    }
}

fn has_component(comps: &Vec<Vec<char>>, name: &[char]) -> (b: bool)
    ensures
        b == comps@.map_values(|v: Vec<char>| v@).contains(name@),
{
    let ghost cv = comps@.map_values(|v: Vec<char>| v@);
    let mut i: usize = 0;
    while i < comps.len()
        invariant
            i <= comps.len(),
            cv == comps@.map_values(|v: Vec<char>| v@),
            forall|m: int| 0 <= m < i ==> cv[m] != name@,
        decreases comps.len() - i,
    {
        assert(cv[i as int] == comps@[i as int]@);
        if chars_eq(comps[i].as_slice(), name) {
            assert(cv.contains(name@));
            return true;
        }
        i = i + 1;
    }
    false
}

/// Validate that a node path stays inside the graph root: not empty, not absolute, no
/// `..` component, and not under the metadata directory.
pub fn validate_relative_node_path(relative_path: &str) -> (r: Result<String>)
    ensures
        match relative_path_problem(relative_path@) {
            None => r matches Ok(p) && p@ == relative_path@,
            Some(m) => r matches Err(MagGraphError::Index(e)) && e@ == m,
        },
{
    let cs = chars_of(relative_path);
    if cs.len() == 0 {
        return Err(MagGraphError::Index("node relative_path must not be empty".to_owned()));
    }
    if cs[0] == '/' {
        return Err(
            MagGraphError::Index("node relative_path must be relative to the graph root".to_owned()),
        );
    }
    let comps = path_components(cs.as_slice());
    let dd = vec!['.', '.'];
    assert(dd@ =~= seq!['.', '.']);
    if has_component(&comps, dd.as_slice()) {
        return Err(
            MagGraphError::Index("node relative_path must not contain '..' components".to_owned()),
        );
    }
    let meta = chars_of(".maggraph");
    if has_component(&comps, meta.as_slice()) {
        return Err(MagGraphError::Index("node paths must not live under `.maggraph/`".to_owned()));
    }
    Ok(relative_path.to_owned())
}

/// Ensure a canonical path stays under the canonical graph root.
pub fn assert_path_within_root(canonical_root: &str, canonical: &str) -> (r: Result<String>)
    ensures
        path_starts_with(canonical@, canonical_root@) ==> (r matches Ok(p) && p@ == canonical@),
        !path_starts_with(canonical@, canonical_root@) ==> (r matches Err(MagGraphError::Index(m))
            && m@ == "path "@ + canonical@ + " escapes graph root "@ + canonical_root@),
{
    let c = chars_of(canonical);
    let root = chars_of(canonical_root);
    if !path_starts_with_exec(c.as_slice(), root.as_slice()) {
        let mut out: Vec<char> = Vec::new();
        push_str(&mut out, "path ");
        push_str(&mut out, canonical);
        push_str(&mut out, " escapes graph root ");
        push_str(&mut out, canonical_root);
        return Err(MagGraphError::Index(string_of(out.as_slice())));
    }
    Ok(canonical.to_owned())
}

/// Host named by an `http://` or `https://` URI: the authority up to any `/`, without
/// user info and port, with brackets around IPv6 literals removed.
pub open spec fn http_host_spec(uri: Seq<char>) -> Option<Seq<char>> {
    let rest = if starts_with(uri, "http://"@) {
        Some(uri.subrange(7, uri.len() as int))
    } else if starts_with(uri, "https://"@) {
        Some(uri.subrange(8, uri.len() as int))
    } else {
        None
    };
    match rest {
        None => None,
        Some(r) => {
            let authority = before_char(before_char(r, '/'), '@');
            let host = before_char(authority, ':');
            if host.len() == 0 {
                None
            } else {
                Some(strip_brackets(host))
            }
        },
    }
}

/// `s` without leading and trailing `[` and `]` characters.
pub open spec fn strip_brackets(s: Seq<char>) -> Seq<char>
    decreases s.len(),
{
    if s.len() > 0 && (s[0] == '[' || s[0] == ']') {
        strip_brackets(s.drop_first())
    } else if s.len() > 0 && (s.last() == '[' || s.last() == ']') {
        strip_brackets(s.drop_last())
    } else {
        s
    }
}

fn strip_brackets_exec(s: &[char]) -> (r: Vec<char>)
    ensures
        r@ == strip_brackets(s@),
{
    let mut a: usize = 0;
    let mut b: usize = s.len();
    assert(s@.subrange(0, s.len() as int) =~= s@);
    while a < b && (s[a] == '[' || s[a] == ']' || s[b - 1] == '[' || s[b - 1] == ']')
        invariant
            a <= b <= s.len(),
            strip_brackets(s@) == strip_brackets(s@.subrange(a as int, b as int)),
        decreases b - a,
    {
        let ghost cur = s@.subrange(a as int, b as int);
        if s[a] == '[' || s[a] == ']' {
            assert(cur.drop_first() =~= s@.subrange(a + 1, b as int));
            a = a + 1;
        } else {
            assert(cur.drop_last() =~= s@.subrange(a as int, b - 1));
            b = b - 1;
        }
    }
    slice_vec(s, a, b)
}

/// Host of an HTTP(S) URI (see [`http_host_spec`]).
pub fn http_uri_host(uri: &str) -> (r: Option<String>)
    ensures
        match http_host_spec(uri@) {
            Some(h) => r matches Some(s) && s@ == h,
            None => r is None,
        },
{
    let cs = chars_of(uri);
    let http = chars_of("http://");
    let https = chars_of("https://");
    let rest = if starts_with_exec(cs.as_slice(), http.as_slice()) {
        proof {
            reveal_strlit("http://");
        }
        slice_vec(cs.as_slice(), 7, cs.len())
    } else if starts_with_exec(cs.as_slice(), https.as_slice()) {
        proof {
            reveal_strlit("https://");
        }
        slice_vec(cs.as_slice(), 8, cs.len())
    } else {
        return None;
    };
    let n1 = before_char_len(rest.as_slice(), '/');
    let path_cut = slice_vec(rest.as_slice(), 0, n1);
    let n2 = before_char_len(path_cut.as_slice(), '@');
    let authority = slice_vec(path_cut.as_slice(), 0, n2);
    let n3 = before_char_len(authority.as_slice(), ':');
    let host = slice_vec(authority.as_slice(), 0, n3);
    if host.len() == 0 {
        return None;
    }
    Some(string_of(strip_brackets_exec(host.as_slice()).as_slice()))
}

/// Verdict on an HTTP(S) host: `localhost` is refused; an IP literal is refused when
/// `ip_blocked` is `Some(true)` (loopback, private, link-local and similar addresses);
/// other names ending in `.local` or `.localhost` are refused.
pub open spec fn host_verdict(host: Seq<char>, ip_blocked: Option<bool>) -> Option<Seq<char>> {
    if lower_seq(host) == "localhost"@ {
        Some("HTTP URI host `"@ + host + "` is not allowed (loopback)"@)
    } else {
        match ip_blocked {
            Some(true) => Some(
                "HTTP URI host `"@ + host + "` is not allowed (private or loopback address)"@,
            ),
            Some(false) => None,
            None => if ends_with(host, ".local"@) || ends_with(host, ".localhost"@) {
                Some("HTTP URI host `"@ + host + "` is not allowed"@)
            } else {
                None
            },
        }
    }
}

/// Decide whether an HTTP(S) URI may be fetched, given `ip_blocked`: when the host is an
/// IP address literal, whether that address is blocked.
fn check_http_host(uri: &str, ip_blocked: Option<bool>) -> (r: Result<()>)
    ensures
        match http_host_spec(uri@) {
            None => r matches Err(MagGraphError::Lakehouse(m)) && m@ == "invalid HTTP URI (missing host): "@ + uri@,
            Some(h) => match host_verdict(h, ip_blocked) {
                None => r is Ok,
                Some(m) => r matches Err(MagGraphError::Lakehouse(e)) && e@ == m,
            },
        },
{
    let host = match http_uri_host(uri) {
        None => {
            let mut out: Vec<char> = Vec::new();
            push_str(&mut out, "invalid HTTP URI (missing host): ");
            push_str(&mut out, uri);
            return Err(MagGraphError::Lakehouse(string_of(out.as_slice())));
        },
        Some(h) => h,
    };
    let hs = chars_of(host.as_str());
    let lower = to_ascii_lowercase(hs.as_slice());
    let lh = chars_of("localhost");
    if chars_eq(lower.as_slice(), lh.as_slice()) {
        let mut out: Vec<char> = Vec::new();
        push_str(&mut out, "HTTP URI host `");
        push_str(&mut out, host.as_str());
        push_str(&mut out, "` is not allowed (loopback)");
        return Err(MagGraphError::Lakehouse(string_of(out.as_slice())));
    }
    match ip_blocked {
        Some(true) => {
            let mut out: Vec<char> = Vec::new();
            push_str(&mut out, "HTTP URI host `");
            push_str(&mut out, host.as_str());
            push_str(&mut out, "` is not allowed (private or loopback address)");
            Err(MagGraphError::Lakehouse(string_of(out.as_slice())))
        },
        Some(false) => Ok(()),
        None => {
            let local = chars_of(".local");
            let localhost = chars_of(".localhost");
            if ends_with_exec(hs.as_slice(), local.as_slice()) || ends_with_exec(
                hs.as_slice(),
                localhost.as_slice(),
            ) {
                let mut out: Vec<char> = Vec::new();
                push_str(&mut out, "HTTP URI host `");
                push_str(&mut out, host.as_str());
                push_str(&mut out, "` is not allowed");
                Err(MagGraphError::Lakehouse(string_of(out.as_slice())))
            } else {
                Ok(())
            }
        },
    }
}


/// Reject HTTP(S) URIs whose host is `localhost`, a loopback, private (RFC 1918),
/// link-local, unspecified or broadcast IP literal, or a `.local`/`.localhost` name
/// (SSRF mitigation).
pub fn validate_http_uri_host(uri: &str) -> (r: Result<()>)
    ensures
        match http_host_spec(uri@) {
            None => r matches Err(MagGraphError::Lakehouse(m)) && m@ == "invalid HTTP URI (missing host): "@ + uri@,
            Some(h) => match host_verdict(h, ip_literal_blocked(h)) {
                None => r is Ok,
                Some(m) => r matches Err(MagGraphError::Lakehouse(e)) && e@ == m,
            },
        },
{
    let ip_blocked = match http_uri_host(uri) {
        None => None,
        Some(h) => {
            let hs = chars_of(h.as_str());
            ip_literal_blocked_exec(hs.as_slice())
        },
    };
    check_http_host(uri, ip_blocked)
}

} // verus!

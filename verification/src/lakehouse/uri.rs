//! URI helpers for lakehouse content: scheme detection, allowlisting, and
//! resolution of relative node sources against configured remote roots.
use vstd::prelude::*;

use crate::config::RemoteSource;
use crate::error::{MagGraphError, Result};
use crate::text::{
    chars_eq, chars_of, ends_with, ends_with_exec, extend_chars, find_at_or_after, find_from,
    lemma_find_from_props, slice_vec, starts_with, starts_with_exec, string_of, strip_leading,
    strip_leading_start, strip_trailing, strip_trailing_len, trim, trim_bounds,
};

verus! {

/// ASCII letter or digit.
pub open spec fn is_ascii_alnum(c: char) -> bool {
    ('0' <= c && c <= '9') || ('a' <= c && c <= 'z') || ('A' <= c && c <= 'Z')
}

/// Scheme of `uri`: the text before the first `:` when that text is a non-empty run of
/// ASCII letters and digits and the `:` is followed by `//`.
pub open spec fn scheme_of(uri: Seq<char>) -> Option<Seq<char>> {
    match find_from(uri, seq![':'], 0) {
        Some(i) => {
            let scheme = uri.subrange(0, i);
            let rest = uri.subrange(i + 1, uri.len() as int);
            if rest.len() >= 2 && rest[0] == '/' && rest[1] == '/' && scheme.len() > 0 && forall|
                k: int,
            |
                0 <= k < scheme.len() ==> is_ascii_alnum(#[trigger] scheme[k]) {
                Some(scheme)
            } else {
                None
            }
        },
        None => None,
    }
}

/// The schemes lakehouse resolution accepts.
pub open spec fn allowed_scheme(s: Seq<char>) -> bool {
    s == "file"@ || s == "s3"@ || s == "http"@ || s == "https"@
}

/// Allowed URI schemes for lakehouse content resolution.
pub fn allowed_schemes() -> (r: Vec<&'static str>)
    ensures
        r@.len() == 4,
        r@[0]@ == "file"@,
        r@[1]@ == "s3"@,
        r@[2]@ == "http"@,
        r@[3]@ == "https"@,
        forall|s: Seq<char>| allowed_scheme(s) <==> exists|i: int| 0 <= i < r@.len() && #[trigger] r@[i]@ == s,
{
    let r = vec!["file", "s3", "http", "https"];
    proof {
        assert forall|s: Seq<char>| allowed_scheme(s) <==> exists|i: int| 0 <= i < r@.len() && #[trigger] r@[i]@ == s by {
            if allowed_scheme(s) {
                if s == "file"@ {
                    assert(r@[0]@ == s);
                } else if s == "s3"@ {
                    assert(r@[1]@ == s);
                } else if s == "http"@ {
                    assert(r@[2]@ == s);
                } else {
                    assert(r@[3]@ == s);
                }
            }
        }
    }
    r
}

/// Every scheme listed by [`allowed_schemes`] is accepted, and an absolute source (after
/// trimming) with an accepted scheme resolves to itself, whatever the remotes.
pub proof fn law_allowed_absolute_passes(source: Seq<char>, remotes: Seq<RemoteSource>)
    requires
        trim(source).len() > 0,
        scheme_of(trim(source)) matches Some(s) && (s == "file"@ || s == "s3"@ || s == "http"@
            || s == "https"@),
    ensures
        allowed_scheme(scheme_of(trim(source))->0),
        resolved_source(source, remotes) == Some(trim(source)),
{
}

fn is_ascii_alnum_exec(c: char) -> (b: bool)
    ensures
        b == is_ascii_alnum(c),
{
    ('0' <= c && c <= '9') || ('a' <= c && c <= 'z') || ('A' <= c && c <= 'Z')
}

/// Character length of the scheme of `cs`, if it has one.
#[verifier::loop_isolation(false)]
fn scheme_len(cs: &[char]) -> (r: Option<usize>)
    ensures
        match r {
            Some(n) => n <= cs.len() && scheme_of(cs@) == Some(cs@.subrange(0, n as int)),
            None => scheme_of(cs@) is None,
        },
{
    let colon = vec![':'];
    assert(colon@ =~= seq![':']);
    match find_at_or_after(cs, colon.as_slice(), 0) {
        None => None,
        Some(i) => {
            proof {
                lemma_find_from_props(cs@, seq![':'], 0);
            }
            let ghost scheme = cs@.subrange(0, i as int);
            let ghost rest = cs@.subrange(i + 1, cs@.len() as int);
            if cs.len() - i - 1 < 2 || cs[i + 1] != '/' || cs[i + 2] != '/' || i == 0 {
                return None;
            }
            assert(rest[0] == cs@[i + 1] && rest[1] == cs@[i + 2]);
            let mut k: usize = 0;
            while k < i
                invariant
                    k <= i,
                    i < cs.len(),
                    scheme == cs@.subrange(0, i as int),
                    forall|m: int| 0 <= m < k ==> is_ascii_alnum(#[trigger] scheme[m]),
                decreases i - k,
            {
                if !is_ascii_alnum_exec(cs[k]) {
                    assert(!is_ascii_alnum(scheme[k as int]));
                    return None;
                }
                k = k + 1;
            }
            Some(i)
        },
    }
}

/// Scheme of `uri` (see [`scheme_of`]).
pub fn uri_scheme(uri: &str) -> (r: Option<String>)
    ensures
        match r {
            Some(s) => scheme_of(uri@) == Some(s@),
            None => scheme_of(uri@) is None,
        },
{
    let cs = chars_of(uri);
    match scheme_len(cs.as_slice()) {
        Some(n) => Some(string_of(slice_vec(cs.as_slice(), 0, n).as_slice())),
        None => None,
    }
}

fn allowed_scheme_chars(s: &[char]) -> (b: bool)
    ensures
        b == allowed_scheme(s@),
{
    let f = chars_of("file");
    let s3 = chars_of("s3");
    let h = chars_of("http");
    let hs = chars_of("https");
    chars_eq(s, f.as_slice()) || chars_eq(s, s3.as_slice()) || chars_eq(s, h.as_slice())
        || chars_eq(s, hs.as_slice())
}

/// Accept `scheme` only when it is one of the allowed schemes.
pub fn validate_scheme(scheme: &str) -> (r: Result<()>)
    ensures
        r is Ok <==> allowed_scheme(scheme@),
        r matches Err(e) ==> e matches MagGraphError::DisallowedScheme { scheme: s } && s@
            == scheme@,
{
    let cs = chars_of(scheme);
    if allowed_scheme_chars(cs.as_slice()) {
        Ok(())
    } else {
        Err(MagGraphError::DisallowedScheme { scheme: scheme.to_owned() })
    }
}


/// `base` and `relative` joined by exactly one `/`.
pub open spec fn join_uri_spec(base: Seq<char>, relative: Seq<char>) -> Seq<char> {
    strip_trailing(base, '/') + seq!['/'] + strip_leading(relative, '/')
}

fn join_uri_path(base: &[char], relative: &[char]) -> (r: Vec<char>)
    ensures
        r@ == join_uri_spec(base@, relative@),
{
    let n = strip_trailing_len(base, '/');
    let a = strip_leading_start(relative, '/');
    let mut out = slice_vec(base, 0, n);
    out.push('/');
    let rest = slice_vec(relative, a, relative.len());
    extend_chars(&mut out, rest.as_slice());
    out
}

/// A remote whose URI (without trailing `/`) prefixes `source` is a candidate base.
pub open spec fn is_base_candidate(source: Seq<char>, uri: Seq<char>) -> bool {
    starts_with(source, strip_trailing(uri, '/'))
}

/// Among the first `n` remotes, the first candidate base in configured order.
pub open spec fn pick_among(source: Seq<char>, remotes: Seq<RemoteSource>, n: int) -> Option<int>
    decreases n,
{
    if n <= 0 {
        None
    } else {
        let b = pick_among(source, remotes, n - 1);
        if b is None && is_base_candidate(source, remotes[n - 1].uri@) {
            Some(n - 1)
        } else {
            b
        }
    }
}

/// Index of the remote a relative `source` is joined to: the best candidate, else the first.
pub open spec fn pick_index(source: Seq<char>, remotes: Seq<RemoteSource>) -> int {
    match pick_among(source, remotes, remotes.len() as int) {
        Some(i) => i,
        None => 0,
    }
}

fn pick_remote_base(source: &[char], remote_sources: &[RemoteSource]) -> (r: usize)
    requires
        remote_sources.len() > 0,
    ensures
        r < remote_sources.len(),
        r == pick_index(source@, remote_sources@),
{
    let mut best: Option<usize> = None;
    let mut i: usize = 0;
    while i < remote_sources.len()
        invariant
            i <= remote_sources.len(),
            match best {
                Some(b) => pick_among(source@, remote_sources@, i as int) == Some(b as int) && b
                    < i,
                None => pick_among(source@, remote_sources@, i as int) is None,
            },
        decreases remote_sources.len() - i,
    {
        let uri = chars_of(remote_sources[i].uri.as_str());
        let n = strip_trailing_len(uri.as_slice(), '/');
        let trimmed = slice_vec(uri.as_slice(), 0, n);
        if best.is_none() && starts_with_exec(source, trimmed.as_slice()) {
            best = Some(i);
        }
        i = i + 1;
    }
    match best {
        Some(b) => b,
        None => 0,
    }
}

/// Result of resolving a node `source` against the configured remotes, when it succeeds.
pub open spec fn resolved_source(source: Seq<char>, remotes: Seq<RemoteSource>) -> Option<
    Seq<char>,
> {
    let t = trim(source);
    if t.len() == 0 {
        None
    } else if scheme_of(t) is Some {
        if allowed_scheme(scheme_of(t)->0) {
            Some(t)
        } else {
            None
        }
    } else if remotes.len() == 0 {
        None
    } else {
        Some(join_uri_spec(remotes[pick_index(t, remotes)].uri@, t))
    }
}

/// Resolve a node's `source` against configured `[lakehouse].remote_sources`.
///
/// - Absolute URIs (with an allowed scheme) are returned unchanged (trimmed).
/// - Relative paths are joined to the first matching `remote_sources` entry, or the
///   first entry when no prefix match is found.
pub fn resolve_source_uri(source: &str, remote_sources: &[RemoteSource]) -> (r: Result<String>)
    ensures
        r is Ok <==> resolved_source(source@, remote_sources@) is Some,
        r matches Ok(u) ==> resolved_source(source@, remote_sources@) == Some(u@),
        trim(source@).len() == 0 ==> (r matches Err(MagGraphError::Lakehouse(m)) && m@
            == "source must not be empty"@),
        trim(source@).len() > 0 && scheme_of(trim(source@)) is Some && !allowed_scheme(
            scheme_of(trim(source@))->0,
        ) ==> (r matches Err(MagGraphError::DisallowedScheme { scheme: s }) && s@ == scheme_of(
            trim(source@),
        )->0),
        trim(source@).len() > 0 && scheme_of(trim(source@)) is None && remote_sources.len() == 0
            ==> (r matches Err(MagGraphError::Lakehouse(m)) && m@
            == "relative source requires at least one [lakehouse].remote_sources entry"@),
{
    let cs = chars_of(source);
    let (a, b) = trim_bounds(cs.as_slice());
    let t = slice_vec(cs.as_slice(), a, b);
    if t.len() == 0 {
        return Err(MagGraphError::Lakehouse("source must not be empty".to_owned()));
    }
    match scheme_len(t.as_slice()) {
        Some(n) => {
            let scheme = slice_vec(t.as_slice(), 0, n);
            if allowed_scheme_chars(scheme.as_slice()) {
                return Ok(string_of(t.as_slice()));
            } else {
                return Err(
                    MagGraphError::DisallowedScheme { scheme: string_of(scheme.as_slice()) },
                );
            }
        },
        None => {},
    }
    if remote_sources.len() == 0 {
        return Err(
            MagGraphError::Lakehouse(
                "relative source requires at least one [lakehouse].remote_sources entry".to_owned(),
            ),
        );
    }
    let i = pick_remote_base(t.as_slice(), remote_sources);
    let base = chars_of(remote_sources[i].uri.as_str());
    Ok(string_of(join_uri_path(base.as_slice(), t.as_slice()).as_slice()))
}

/// Path part of a URI: what follows `scheme://`, or the whole text when there is no scheme.
pub open spec fn uri_path_spec(uri: Seq<char>) -> Seq<char> {
    match scheme_of(uri) {
        Some(s) => uri.subrange(s.len() + 3int, uri.len() as int),
        None => uri,
    }
}

fn uri_path(uri: &[char]) -> (r: Vec<char>)
    ensures
        r@ == uri_path_spec(uri@),
{
    match scheme_len(uri) {
        Some(n) => {
            proof {
                lemma_find_from_props(uri@, seq![':'], 0);
            }
            slice_vec(uri, n + 3, uri.len())
        },
        None => slice_vec(uri, 0, uri.len()),
    }
}

/// Index of the first remote (from `k`) whose URI prefixes `uri`.
pub open spec fn first_prefix_remote(uri: Seq<char>, remotes: Seq<RemoteSource>, k: int) -> Option<
    int,
>
    decreases remotes.len() - k,
{
    if k < 0 || k >= remotes.len() {
        None
    } else if starts_with(uri, remotes[k].uri@) {
        Some(k)
    } else {
        first_prefix_remote(uri, remotes, k + 1)
    }
}

/// Asset format of `uri`: from its extension, else from the first remote it lies under,
/// else `unknown`.
pub open spec fn infer_format_spec(uri: Seq<char>, remotes: Seq<RemoteSource>) -> Seq<char> {
    let p = uri_path_spec(uri);
    if ends_with(p, ".parquet"@) {
        "parquet"@
    } else if ends_with(p, ".json"@) {
        "json"@
    } else if ends_with(p, ".csv"@) {
        "csv"@
    } else {
        match first_prefix_remote(uri, remotes, 0) {
            Some(i) => remotes[i].format@,
            None => "unknown"@,
        }
    }
}

/// Infer asset format from URI path and optional remote source format hint.
#[verifier::loop_isolation(false)]
pub fn infer_format(uri: &str, remote_sources: &[RemoteSource]) -> (r: String)
    ensures
        r@ == infer_format_spec(uri@, remote_sources@),
{
    let cs = chars_of(uri);
    let p = uri_path(cs.as_slice());
    let pq = chars_of(".parquet");
    let js = chars_of(".json");
    let csv = chars_of(".csv");
    if ends_with_exec(p.as_slice(), pq.as_slice()) {
        return "parquet".to_owned();
    }
    if ends_with_exec(p.as_slice(), js.as_slice()) {
        return "json".to_owned();
    }
    if ends_with_exec(p.as_slice(), csv.as_slice()) {
        return "csv".to_owned();
    }
    let mut i: usize = 0;
    while i < remote_sources.len()
        invariant
            i <= remote_sources.len(),
            cs@ == uri@,
            first_prefix_remote(uri@, remote_sources@, 0) == first_prefix_remote(
                uri@,
                remote_sources@,
                i as int,
            ),
        decreases remote_sources.len() - i,
    {
        let ru = chars_of(remote_sources[i].uri.as_str());
        if starts_with_exec(cs.as_slice(), ru.as_slice()) {
            return remote_sources[i].format.clone();
        }
        i = i + 1;
    }
    "unknown".to_owned()
}

} // verus!

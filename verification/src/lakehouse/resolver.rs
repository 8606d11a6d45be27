//! Content resolvers for external URIs (`file`, `http(s)`, `s3`) and their registry.
use vstd::prelude::*;

use crate::error::{MagGraphError, Result};
use crate::lakehouse::content::{
    opt_view, AssetMetadata, AssetView, ContentView, ParquetMetadata, ResolvedContent,
};
use crate::lakehouse::uri::{
    infer_format, infer_format_spec, scheme_of, uri_scheme, validate_scheme,
};
use crate::path::{extension_of, path_extension, path_starts_with, path_starts_with_exec};
use crate::text::{
    chars_eq, chars_of, find_at_or_after, find_from, lemma_find_from_props, push_str, slice_vec,
    starts_with, starts_with_exec, str_eq, string_of,
};

verus! {

/// Why a fetch failed: a resolve failure with its message, or a disallowed scheme.
pub enum FetchFailure {
    Resolve(Seq<char>),
    Disallowed(Seq<char>),
}

/// `e` is the error that `f` describes for `uri`.
pub open spec fn fails_as(e: MagGraphError, uri: Seq<char>, f: FetchFailure) -> bool {
    match f {
        FetchFailure::Resolve(m) => e matches MagGraphError::ContentResolve { uri: u, message: mm }
            && u@ == uri && mm@ == m,
        FetchFailure::Disallowed(s) => e matches MagGraphError::DisallowedScheme { scheme: ss }
            && ss@ == s,
    }
}

/// `r` is the outcome `expected` describes for `uri`.
pub open spec fn outcome_is(
    r: Result<ResolvedContent>,
    uri: Seq<char>,
    expected: core::result::Result<ContentView, FetchFailure>,
) -> bool {
    match expected {
        Ok(v) => r matches Ok(c) && c@ == v,
        Err(f) => r matches Err(e) && fails_as(e, uri, f),
    }
}

/// What the caller learned, by reading the file system, about the local file that a
/// `file` URI names.
pub struct FileFacts {
    /// Canonical absolute path, or why canonicalization failed.
    pub canonical_path: core::result::Result<String, String>,
    /// Size in bytes, or why reading the metadata failed.
    pub size_bytes: core::result::Result<u64, String>,
    /// Whether the file begins with the `PAR1` magic header.
    pub magic_valid: bool,
    /// Up to 256 leading bytes (lossily decoded), when the file could be opened and read.
    pub snippet: Option<String>,
    /// Whole file as UTF-8 text, or why it could not be read.
    pub text: core::result::Result<String, String>,
}

impl FileFacts {
    /// Facts for a URI that names no local file (nothing was read).
    pub fn unread() -> (r: FileFacts)
        ensures
            r.canonical_path is Err,
            r.size_bytes is Err,
            !r.magic_valid,
            r.snippet is None,
            r.text is Err,
    {
        FileFacts {
            canonical_path: Err("not read".to_owned()),
            size_bytes: Err("not read".to_owned()),
            magic_valid: false,
            snippet: None,
            text: Err("not read".to_owned()),
        }
    }
}

/// Fetches content for a resolved external URI.
pub trait ContentResolver {
    /// URI schemes this resolver handles.
    spec fn scheme_names(&self) -> Seq<Seq<char>>;

    /// Fetch outcome for `uri` given `files` (see [`FileFacts`]).
    spec fn fetch_spec(
        &self,
        uri: Seq<char>,
        format_hint: Seq<char>,
        files: FileFacts,
    ) -> core::result::Result<ContentView, FetchFailure>;

    fn schemes(&self) -> (r: Vec<&'static str>)
        ensures
            r@.map_values(|s: &str| s@) == self.scheme_names(),
    ;

    /// Whether the scheme of `uri` is one this resolver handles.
    fn supports(&self, uri: &str) -> (b: bool)
        ensures
            b == (scheme_of(uri@) is Some && self.scheme_names().contains(scheme_of(uri@)->0)),
    {
        match uri_scheme(uri) {
            None => false,
            Some(s) => {
                let names = self.schemes();
                let ghost nv = names@.map_values(|x: &str| x@);
                let mut i: usize = 0;
                while i < names.len()
                    invariant
                        i <= names.len(),
                        nv == names@.map_values(|x: &str| x@),
                        nv == self.scheme_names(),
                        scheme_of(uri@) == Some(s@),
                        forall|m: int| 0 <= m < i ==> nv[m] != s@,
                    decreases names.len() - i,
                {
                    assert(nv[i as int] == names@[i as int]@);
                    if str_eq(names[i], s.as_str()) {
                        return true;
                    }
                    i = i + 1;
                }
                assert forall|m: int| 0 <= m < nv.len() implies #[trigger] nv[m] != s@ by {}
                false
            },
        }
    }

    fn fetch(&self, uri: &str, format_hint: &str, files: &FileFacts) -> (r: Result<ResolvedContent>)
        ensures
            outcome_is(r, uri@, self.fetch_spec(uri@, format_hint@, *files)),
    ;
}


/// Format used when fetching: the hint, unless it is `unknown`, in which case the format
/// inferred from the URI alone.
pub open spec fn hinted_format(uri: Seq<char>, hint: Seq<char>) -> Seq<char> {
    if hint == "unknown"@ {
        infer_format_spec(uri, Seq::empty())
    } else {
        hint
    }
}

fn hinted_format_exec(uri: &str, hint: &str) -> (r: String)
    ensures
        r@ == hinted_format(uri@, hint@),
{
    if str_eq(hint, "unknown") {
        let none: Vec<crate::config::RemoteSource> = Vec::new();
        assert(none@ =~= Seq::<crate::config::RemoteSource>::empty());
        infer_format(uri, none.as_slice())
    } else {
        hint.to_owned()
    }
}

/// Bucket and key of an `s3://bucket/key` URI, or the message explaining why it is malformed.
pub open spec fn s3_parts(uri: Seq<char>) -> core::result::Result<(Seq<char>, Seq<char>), Seq<char>> {
    if !starts_with(uri, "s3://"@) {
        Err("invalid s3 URI"@)
    } else {
        let rest = uri.subrange("s3://"@.len() as int, uri.len() as int);
        match find_from(rest, seq!['/'], 0) {
            None => Err("s3 URI must be s3://bucket/key"@),
            Some(i) => {
                let bucket = rest.subrange(0, i);
                let key = rest.subrange(i + 1, rest.len() as int);
                if bucket.len() == 0 || key.len() == 0 {
                    Err("s3 bucket and key must not be empty"@)
                } else {
                    Ok((bucket, key))
                }
            },
        }
    }
}

fn resolve_error(uri: &str, message: &str) -> (e: MagGraphError)
    ensures
        fails_as(e, uri@, FetchFailure::Resolve(message@)),
{
    MagGraphError::ContentResolve { uri: uri.to_owned(), message: message.to_owned() }
}

fn parse_s3_uri(uri: &str) -> (r: Result<(String, String)>)
    ensures
        match s3_parts(uri@) {
            Ok(p) => r matches Ok(q) && q.0@ == p.0 && q.1@ == p.1,
            Err(m) => r matches Err(e) && fails_as(e, uri@, FetchFailure::Resolve(m)),
        },
{
    let cs = chars_of(uri);
    let prefix = chars_of("s3://");
    if !starts_with_exec(cs.as_slice(), prefix.as_slice()) {
        return Err(resolve_error(uri, "invalid s3 URI"));
    }
    let rest = slice_vec(cs.as_slice(), prefix.len(), cs.len());
    let slash = vec!['/'];
    assert(slash@ =~= seq!['/']);
    match find_at_or_after(rest.as_slice(), slash.as_slice(), 0) {
        None => Err(resolve_error(uri, "s3 URI must be s3://bucket/key")),
        Some(i) => {
            proof {
                lemma_find_from_props(rest@, seq!['/'], 0);
            }
            let bucket = slice_vec(rest.as_slice(), 0, i);
            let key = slice_vec(rest.as_slice(), i + 1, rest.len());
            if bucket.len() == 0 || key.len() == 0 {
                Err(resolve_error(uri, "s3 bucket and key must not be empty"))
            } else {
                Ok((string_of(bucket.as_slice()), string_of(key.as_slice())))
            }
        },
    }
}

/// S3 stub resolver: returns metadata and a short snippet without AWS credentials.
#[derive(Debug, Clone, Copy, Default)]
pub struct S3StubResolver;

/// HTTP/HTTPS stub: returns metadata only (no network I/O).
#[derive(Debug, Clone, Copy, Default)]
pub struct HttpResolver;

/// Resolves `file://` URIs, optionally restricted to allowlisted directory roots.
#[derive(Debug, Clone)]
pub struct FileResolver {
    allowed_roots: Vec<String>,
}

pub open spec fn s3_fetch_spec(uri: Seq<char>, hint: Seq<char>) -> core::result::Result<
    ContentView,
    FetchFailure,
> {
    match s3_parts(uri) {
        Err(m) => Err(FetchFailure::Resolve(m)),
        Ok(p) => {
            let format = hinted_format(uri, hint);
            let is_parquet = format == "parquet"@;
            Ok(
                ContentView::ExternalAsset(
                    uri,
                    format,
                    AssetView {
                        size_bytes: None,
                        content_type: Some(
                            if is_parquet {
                                "application/vnd.apache.parquet"@
                            } else {
                                "application/octet-stream"@
                            },
                        ),
                        parquet: if is_parquet {
                            Some(ParquetMetadata { magic_valid: false, row_groups: None })
                        } else {
                            None
                        },
                    },
                    Some("s3://"@ + p.0 + "/"@ + p.1 + " (stub resolver — metadata only)"@),
                ),
            )
        },
    }
}

impl ContentResolver for S3StubResolver {
    open spec fn scheme_names(&self) -> Seq<Seq<char>> {
        seq!["s3"@]
    }

    open spec fn fetch_spec(&self, uri: Seq<char>, format_hint: Seq<char>, files: FileFacts) -> core::result::Result<
        ContentView,
        FetchFailure,
    > {
        s3_fetch_spec(uri, format_hint)
    }

    fn schemes(&self) -> (r: Vec<&'static str>) {
        let r = vec!["s3"];
        assert(r@.map_values(|s: &str| s@) =~= seq!["s3"@]);
        r
    }

    fn fetch(&self, uri: &str, format_hint: &str, files: &FileFacts) -> (r: Result<ResolvedContent>) {
        if let Err(e) = validate_scheme("s3") {
            return Err(e);
        }
        let format = hinted_format_exec(uri, format_hint);
        let (bucket, key) = match parse_s3_uri(uri) {
            Ok(p) => p,
            Err(e) => return Err(e),
        };
        let mut snippet: Vec<char> = Vec::new();
        push_str(&mut snippet, "s3://");
        push_str(&mut snippet, bucket.as_str());
        push_str(&mut snippet, "/");
        push_str(&mut snippet, key.as_str());
        push_str(&mut snippet, " (stub resolver — metadata only)");
        let is_parquet = str_eq(format.as_str(), "parquet");
        let content_type = if is_parquet {
            "application/vnd.apache.parquet".to_owned()
        } else {
            "application/octet-stream".to_owned()
        };
        let parquet = if is_parquet {
            Some(ParquetMetadata { magic_valid: false, row_groups: None })
        } else {
            None
        };
        let r = ResolvedContent::ExternalAsset {
            uri: uri.to_owned(),
            format,
            metadata: AssetMetadata { size_bytes: None, content_type: Some(content_type), parquet },
            snippet: Some(string_of(snippet.as_slice())),
        };
        Ok(r)
    }
}

pub open spec fn http_fetch_spec(uri: Seq<char>, hint: Seq<char>) -> core::result::Result<
    ContentView,
    FetchFailure,
> {
    let scheme = match scheme_of(uri) {
        Some(s) => s,
        None => "http"@,
    };
    if !crate::lakehouse::uri::allowed_scheme(scheme) {
        Err(FetchFailure::Disallowed(scheme))
    } else {
        Ok(
            ContentView::ExternalAsset(
                uri,
                hint,
                AssetView {
                    size_bytes: None,
                    content_type: Some("application/octet-stream"@),
                    parquet: None,
                },
                Some("HTTP fetch is not enabled in MVP; URI recorded for agent follow-up."@),
            ),
        )
    }
}

impl ContentResolver for HttpResolver {
    open spec fn scheme_names(&self) -> Seq<Seq<char>> {
        seq!["http"@, "https"@]
    }

    open spec fn fetch_spec(&self, uri: Seq<char>, format_hint: Seq<char>, files: FileFacts) -> core::result::Result<
        ContentView,
        FetchFailure,
    > {
        http_fetch_spec(uri, format_hint)
    }

    fn schemes(&self) -> (r: Vec<&'static str>) {
        let r = vec!["http", "https"];
        assert(r@.map_values(|s: &str| s@) =~= seq!["http"@, "https"@]);
        r
    }

    fn fetch(&self, uri: &str, format_hint: &str, files: &FileFacts) -> (r: Result<ResolvedContent>) {
        let scheme = match uri_scheme(uri) {
            Some(s) => s,
            None => "http".to_owned(),
        };
        if let Err(e) = validate_scheme(scheme.as_str()) {
            return Err(e);
        }
        Ok(
            ResolvedContent::ExternalAsset {
                uri: uri.to_owned(),
                format: format_hint.to_owned(),
                metadata: AssetMetadata {
                    size_bytes: None,
                    content_type: Some("application/octet-stream".to_owned()),
                    parquet: None,
                },
                snippet: Some(
                    "HTTP fetch is not enabled in MVP; URI recorded for agent follow-up.".to_owned(),
                ),
            },
        )
    }
}


/// Local path named by a `file` URI: what follows `file://`, or the URI itself.
pub open spec fn file_local_path(uri: Seq<char>) -> Seq<char> {
    if starts_with(uri, "file://"@) {
        uri.subrange("file://"@.len() as int, uri.len() as int)
    } else {
        uri
    }
}

/// Local path of a `file://` URI: what follows the prefix; `None` for other URIs.
pub fn file_uri_path(uri: &str) -> (r: Option<String>)
    ensures
        starts_with(uri@, "file://"@) ==> (r matches Some(p) && p@ == file_local_path(uri@)),
        !starts_with(uri@, "file://"@) ==> r is None,
{
    let cs = chars_of(uri);
    let prefix = chars_of("file://");
    if starts_with_exec(cs.as_slice(), prefix.as_slice()) {
        proof {
            reveal_strlit("file://");
        }
        Some(string_of(slice_vec(cs.as_slice(), 7, cs.len()).as_slice()))
    } else {
        None
    }
}

/// `canonical` lies under one of `roots`, or no roots are configured.
pub open spec fn within_allowlist(roots: Seq<Seq<char>>, canonical: Seq<char>) -> bool {
    roots.len() == 0 || exists|i: int| 0 <= i < roots.len() && path_starts_with(canonical, #[trigger] roots[i])
}

/// Outcome of fetching a `file` URI under the allowlist `roots`, given what was read.
pub open spec fn file_fetch_spec(
    roots: Seq<Seq<char>>,
    uri: Seq<char>,
    hint: Seq<char>,
    files: FileFacts,
) -> core::result::Result<ContentView, FetchFailure> {
    match files.canonical_path {
        Err(e) => Err(
            FetchFailure::Resolve("failed to read file "@ + file_local_path(uri) + ": "@ + e@),
        ),
        Ok(canonical) => if !within_allowlist(roots, canonical@) {
            Err(
                FetchFailure::Resolve(
                    "path "@ + canonical@ + " is outside configured file allowlist"@,
                ),
            )
        } else {
            match files.size_bytes {
                Err(e) => Err(FetchFailure::Resolve("metadata: "@ + e@)),
                Ok(size) => if hinted_format(uri, hint) == "parquet"@ || extension_of(canonical@)
                    == Some("parquet"@) {
                    Ok(
                        ContentView::ExternalAsset(
                            uri,
                            "parquet"@,
                            AssetView {
                                size_bytes: Some(size),
                                content_type: Some("application/vnd.apache.parquet"@),
                                parquet: Some(
                                    ParquetMetadata {
                                        magic_valid: files.magic_valid,
                                        row_groups: None,
                                    },
                                ),
                            },
                            opt_view(files.snippet),
                        ),
                    )
                } else {
                    match files.text {
                        Err(e) => Err(FetchFailure::Resolve("read: "@ + e@)),
                        Ok(body) => Ok(ContentView::Text(uri, body@)),
                    }
                },
            }
        },
    }
}

impl View for FileResolver {
    type V = Seq<Seq<char>>;

    closed spec fn view(&self) -> Seq<Seq<char>> {
        self.allowed_roots@.map_values(|s: String| s@)
    }
}

/// A message made of the two given pieces, in order.
fn message2(a: &str, b: &str) -> (r: String)
    ensures
        r@ == a@ + b@,
{
    let mut out: Vec<char> = Vec::new();
    push_str(&mut out, a);
    push_str(&mut out, b);
    string_of(out.as_slice())
}

/// A message made of the four given pieces, in order.
fn message4(a: &str, b: &str, c: &str, d: &str) -> (r: String)
    ensures
        r@ == a@ + b@ + c@ + d@,
{
    let mut out: Vec<char> = Vec::new();
    push_str(&mut out, a);
    push_str(&mut out, b);
    push_str(&mut out, c);
    push_str(&mut out, d);
    string_of(out.as_slice())
}

/// A message made of the three given pieces, in order.
fn message3(a: &str, b: &str, c: &str) -> (r: String)
    ensures
        r@ == a@ + b@ + c@,
{
    let mut out: Vec<char> = Vec::new();
    push_str(&mut out, a);
    push_str(&mut out, b);
    push_str(&mut out, c);
    string_of(out.as_slice())
}

impl FileResolver {
    pub fn new(allowed_roots: Vec<String>) -> (r: FileResolver)
        ensures
            r@ == allowed_roots@.map_values(|s: String| s@),
    {
        FileResolver { allowed_roots }
    }

    /// Whether `canonical` lies under an allowlisted root (or none are configured).
    pub fn allows(&self, canonical: &str) -> (b: bool)
        ensures
            b == within_allowlist(self@, canonical@),
    {
        if self.allowed_roots.len() == 0 {
            return true;
        }
        let cs = chars_of(canonical);
        let ghost rv = self@;
        let mut i: usize = 0;
        while i < self.allowed_roots.len()
            invariant
                i <= self.allowed_roots.len(),
                rv == self@,
                cs@ == canonical@,
                forall|m: int| 0 <= m < i ==> !path_starts_with(canonical@, #[trigger] rv[m]),
            decreases self.allowed_roots.len() - i,
        {
            let root = chars_of(self.allowed_roots[i].as_str());
            assert(rv[i as int] == self.allowed_roots@[i as int]@);
            if path_starts_with_exec(cs.as_slice(), root.as_slice()) {
                return true;
            }
            i = i + 1;
        }
        false
    }
}

impl ContentResolver for FileResolver {
    open spec fn scheme_names(&self) -> Seq<Seq<char>> {
        seq!["file"@]
    }

    open spec fn fetch_spec(&self, uri: Seq<char>, format_hint: Seq<char>, files: FileFacts) -> core::result::Result<
        ContentView,
        FetchFailure,
    > {
        file_fetch_spec(self@, uri, format_hint, files)
    }

    fn schemes(&self) -> (r: Vec<&'static str>) {
        let r = vec!["file"];
        assert(r@.map_values(|s: &str| s@) =~= seq!["file"@]);
        r
    }

    fn fetch(&self, uri: &str, format_hint: &str, files: &FileFacts) -> (r: Result<ResolvedContent>) {
        if let Err(e) = validate_scheme("file") {
            return Err(e);
        }
        let canonical = match &files.canonical_path {
            Err(e) => {
                let cs = chars_of(uri);
                let prefix = chars_of("file://");
                let local = if starts_with_exec(cs.as_slice(), prefix.as_slice()) {
                    string_of(slice_vec(cs.as_slice(), prefix.len(), cs.len()).as_slice())
                } else {
                    uri.to_owned()
                };
                let message = message4("failed to read file ", local.as_str(), ": ", e.as_str());
                return Err(resolve_error(uri, message.as_str()));
            },
            Ok(c) => c,
        };
        if !self.allows(canonical.as_str()) {
            let message = message3(
                "path ",
                canonical.as_str(),
                " is outside configured file allowlist",
            );
            return Err(resolve_error(uri, message.as_str()));
        }
        let size = match &files.size_bytes {
            Err(e) => {
                let message = message2("metadata: ", e.as_str());
                return Err(resolve_error(uri, message.as_str()));
            },
            Ok(n) => *n,
        };
        let format = hinted_format_exec(uri, format_hint);
        let canonical_chars = chars_of(canonical.as_str());
        let pq = vec!['p', 'a', 'r', 'q', 'u', 'e', 't'];
        assert(pq@ =~= "parquet"@) by {
            reveal_strlit("parquet");
        }
        let ext_is_parquet = match path_extension(canonical_chars.as_slice()) {
            Some(ext) => chars_eq(ext.as_slice(), pq.as_slice()),
            None => false,
        };
        if str_eq(format.as_str(), "parquet") || ext_is_parquet {
            let snippet = match &files.snippet {
                Some(s) => Some(s.clone()),
                None => None,
            };
            return Ok(
                ResolvedContent::ExternalAsset {
                    uri: uri.to_owned(),
                    format: "parquet".to_owned(),
                    metadata: AssetMetadata {
                        size_bytes: Some(size),
                        content_type: Some("application/vnd.apache.parquet".to_owned()),
                        parquet: Some(
                            ParquetMetadata { magic_valid: files.magic_valid, row_groups: None },
                        ),
                    },
                    snippet,
                },
            );
        }
        match &files.text {
            Err(e) => {
                let message = message2("read: ", e.as_str());
                Err(resolve_error(uri, message.as_str()))
            },
            Ok(body) => Ok(ResolvedContent::Text { uri: uri.to_owned(), body: body.clone() }),
        }
    }
}

/// Stands in for "no custom resolver": it handles no scheme, so it is never chosen.
#[derive(Debug, Clone)]
pub struct NoCustom;

impl ContentResolver for NoCustom {
    open spec fn scheme_names(&self) -> Seq<Seq<char>> {
        seq![]
    }

    open spec fn fetch_spec(&self, uri: Seq<char>, format_hint: Seq<char>, files: FileFacts) -> core::result::Result<
        ContentView,
        FetchFailure,
    > {
        Err(FetchFailure::Resolve("no resolver registered for URI scheme"@))
    }

    fn schemes(&self) -> (r: Vec<&'static str>) {
        let r: Vec<&'static str> = Vec::new();
        assert(r@.map_values(|s: &str| s@) =~= Seq::<Seq<char>>::empty());
        r
    }

    fn fetch(&self, uri: &str, format_hint: &str, files: &FileFacts) -> (r: Result<ResolvedContent>) {
        Err(resolve_error(uri, "no resolver registered for URI scheme"))
    }
}

/// One resolver held by a [`ResolverRegistry`]: a built-in one, or a resolver of the
/// user's own type `C` (see [`ContentResolver`]).
#[derive(Debug, Clone)]
pub enum RegisteredResolver<C = NoCustom> {
    File(FileResolver),
    Http(HttpResolver),
    S3(S3StubResolver),
    Custom(C),
}

/// Abstract form of a registered resolver: the file allowlist, which stub, or the custom
/// resolver itself (whose own specification then applies).
pub enum ResolverView<C = NoCustom> {
    File(Seq<Seq<char>>),
    Http,
    S3,
    Custom(C),
}

impl<C> View for RegisteredResolver<C> {
    type V = ResolverView<C>;

    open spec fn view(&self) -> ResolverView<C> {
        match self {
            RegisteredResolver::File(f) => ResolverView::File(f@),
            RegisteredResolver::Http(_) => ResolverView::Http,
            RegisteredResolver::S3(_) => ResolverView::S3,
            RegisteredResolver::Custom(c) => ResolverView::Custom(*c),
        }
    }
}

/// Schemes handled by a resolver of the given form.
pub open spec fn view_schemes<C: ContentResolver>(v: ResolverView<C>) -> Seq<Seq<char>> {
    match v {
        ResolverView::File(_) => seq!["file"@],
        ResolverView::Http => seq!["http"@, "https"@],
        ResolverView::S3 => seq!["s3"@],
        ResolverView::Custom(c) => c.scheme_names(),
    }
}

/// A resolver of the given form handles the scheme of `uri`.
pub open spec fn view_supports<C: ContentResolver>(v: ResolverView<C>, uri: Seq<char>) -> bool {
    scheme_of(uri) is Some && view_schemes(v).contains(scheme_of(uri)->0)
}

/// Fetch outcome of a resolver of the given form.
pub open spec fn view_fetch<C: ContentResolver>(
    v: ResolverView<C>,
    uri: Seq<char>,
    hint: Seq<char>,
    files: FileFacts,
) -> core::result::Result<ContentView, FetchFailure> {
    match v {
        ResolverView::File(roots) => file_fetch_spec(roots, uri, hint, files),
        ResolverView::Http => http_fetch_spec(uri, hint),
        ResolverView::S3 => s3_fetch_spec(uri, hint),
        ResolverView::Custom(c) => c.fetch_spec(uri, hint, files),
    }
}

impl<C: ContentResolver> ContentResolver for RegisteredResolver<C> {
    open spec fn scheme_names(&self) -> Seq<Seq<char>> {
        view_schemes(self@)
    }

    open spec fn fetch_spec(&self, uri: Seq<char>, format_hint: Seq<char>, files: FileFacts) -> core::result::Result<
        ContentView,
        FetchFailure,
    > {
        view_fetch(self@, uri, format_hint, files)
    }

    fn schemes(&self) -> (r: Vec<&'static str>) {
        match self {
            RegisteredResolver::File(f) => f.schemes(),
            RegisteredResolver::Http(h) => h.schemes(),
            RegisteredResolver::S3(s) => s.schemes(),
            RegisteredResolver::Custom(c) => c.schemes(),
        }
    }

    fn fetch(&self, uri: &str, format_hint: &str, files: &FileFacts) -> (r: Result<ResolvedContent>) {
        match self {
            RegisteredResolver::File(f) => f.fetch(uri, format_hint, files),
            RegisteredResolver::Http(h) => h.fetch(uri, format_hint, files),
            RegisteredResolver::S3(s) => s.fetch(uri, format_hint, files),
            RegisteredResolver::Custom(c) => c.fetch(uri, format_hint, files),
        }
    }
}

/// Registry of resolvers tried in registration order; `C` is the type of the custom
/// resolvers it may hold.
#[derive(Debug, Clone)]
pub struct ResolverRegistry<C = NoCustom> {
    resolvers: Vec<RegisteredResolver<C>>,
}

impl<C> View for ResolverRegistry<C> {
    type V = Seq<ResolverView<C>>;

    closed spec fn view(&self) -> Seq<ResolverView<C>> {
        self.resolvers@.map_values(|r: RegisteredResolver<C>| r@)
    }
}

/// Index of the first resolver at or after `k` that handles `uri`.
pub open spec fn first_supporting<C: ContentResolver>(rs: Seq<ResolverView<C>>, uri: Seq<char>, k: int) -> Option<int>
    decreases rs.len() - k,
{
    if k < 0 || k >= rs.len() {
        None
    } else if view_supports(rs[k], uri) {
        Some(k)
    } else {
        first_supporting(rs, uri, k + 1)
    }
}

/// Fetch outcome of a registry: the first resolver that handles the URI's scheme decides.
pub open spec fn registry_fetch_spec<C: ContentResolver>(
    rs: Seq<ResolverView<C>>,
    uri: Seq<char>,
    hint: Seq<char>,
    files: FileFacts,
) -> core::result::Result<ContentView, FetchFailure> {
    match first_supporting(rs, uri, 0) {
        Some(i) => view_fetch(rs[i], uri, hint, files),
        None => Err(FetchFailure::Resolve("no resolver registered for URI scheme"@)),
    }
}

/// The default resolver set: files under the allowlist `roots`, then the HTTP and S3 stubs.
pub open spec fn default_resolvers<C>(roots: Seq<Seq<char>>) -> Seq<ResolverView<C>> {
    seq![ResolverView::File(roots), ResolverView::Http, ResolverView::S3]
}

impl ResolverRegistry {
    pub fn new() -> (r: ResolverRegistry)
        ensures
            r@ == Seq::<ResolverView>::empty(),
    {
        ResolverRegistry::custom()
    }

    pub fn with_defaults() -> (r: ResolverRegistry)
        ensures
            r@ == default_resolvers::<NoCustom>(Seq::empty()),
    {
        let none: Vec<String> = Vec::new();
        assert(none@.map_values(|s: String| s@) =~= Seq::<Seq<char>>::empty());
        ResolverRegistry::custom_with_file_allowlist(none)
    }

    /// Resolver set for production use: file allowlist plus HTTP/S3 stubs.
    pub fn with_file_allowlist(allowed_roots: Vec<String>) -> (r: ResolverRegistry)
        ensures
            r@ == default_resolvers::<NoCustom>(allowed_roots@.map_values(|s: String| s@)),
    {
        ResolverRegistry::custom_with_file_allowlist(allowed_roots)
    }
}

impl<C: ContentResolver> ResolverRegistry<C> {
    /// An empty registry for custom resolvers of type `C`.
    pub fn custom() -> (r: ResolverRegistry<C>)
        ensures
            r@ == Seq::<ResolverView<C>>::empty(),
    {
        let r = ResolverRegistry { resolvers: Vec::new() };
        assert(r@ =~= Seq::<ResolverView<C>>::empty());
        r
    }

    /// The production resolver set (file allowlist plus HTTP/S3 stubs), to which custom
    /// resolvers of type `C` can be added.
    pub fn custom_with_file_allowlist(allowed_roots: Vec<String>) -> (r: ResolverRegistry<C>)
        ensures
            r@ == default_resolvers::<C>(allowed_roots@.map_values(|s: String| s@)),
    {
        let mut registry = ResolverRegistry::<C>::custom();
        registry.register(RegisteredResolver::File(FileResolver::new(allowed_roots)));
        registry.register(RegisteredResolver::Http(HttpResolver));
        registry.register(RegisteredResolver::S3(S3StubResolver));
        registry
    }

    /// Add a resolver; it is tried after those registered before it.
    pub fn register(&mut self, resolver: RegisteredResolver<C>)
        ensures
            final(self)@ == old(self)@.push(resolver@),
    {
        self.resolvers.push(resolver);
        assert(self@ =~= old(self)@.push(resolver@));
    }

    pub fn fetch(&self, uri: &str, format_hint: &str, files: &FileFacts) -> (r: Result<ResolvedContent>)
        ensures
            outcome_is(r, uri@, registry_fetch_spec(self@, uri@, format_hint@, *files)),
    {
        let ghost rv = self@;
        let mut i: usize = 0;
        while i < self.resolvers.len()
            invariant
                i <= self.resolvers.len(),
                rv == self@,
                first_supporting(rv, uri@, 0) == first_supporting(rv, uri@, i as int),
            decreases self.resolvers.len() - i,
        {
            assert(rv[i as int] == self.resolvers@[i as int]@);
            if self.resolvers[i].supports(uri) {
                return self.resolvers[i].fetch(uri, format_hint, files);
            }
            i = i + 1;
        }
        Err(resolve_error(uri, "no resolver registered for URI scheme"))
    }
}

/// Local paths named by `file://` remote URIs, in order (the rest left out).
pub open spec fn file_remote_paths_spec(uris: Seq<Seq<char>>) -> Seq<Seq<char>>
    decreases uris.len(),
{
    if uris.len() == 0 {
        seq![]
    } else {
        let u = uris.last();
        file_remote_paths_spec(uris.drop_last()) + if starts_with(u, "file://"@) {
            seq![u.subrange(7, u.len() as int)]
        } else {
            seq![]
        }
    }
}

/// Local paths named by `file://` remote URIs (see [`file_remote_paths_spec`]); the caller
/// canonicalizes them into the file resolver's allowlist.
pub fn file_remote_paths(uris: &[String]) -> (r: Vec<String>)
    ensures
        r@.map_values(|s: String| s@) == file_remote_paths_spec(uris@.map_values(|s: String| s@)),
{
    proof {
        reveal_strlit("file://");
        assert("file://"@.len() == 7);
    }
    let ghost uv = uris@.map_values(|s: String| s@);
    let mut out: Vec<String> = Vec::new();
    let mut i: usize = 0;
    assert(uv.take(0) =~= Seq::<Seq<char>>::empty());
    assert(out@.map_values(|s: String| s@) =~= Seq::<Seq<char>>::empty());
    while i < uris.len()
        invariant
            i <= uris.len(),
            uv == uris@.map_values(|s: String| s@),
            out@.map_values(|s: String| s@) == file_remote_paths_spec(uv.take(i as int)),
            "file://"@.len() == 7,
        decreases uris.len() - i,
    {
        let cs = chars_of(uris[i].as_str());
        let prefix = chars_of("file://");
        assert(prefix@.len() == 7);
        let ghost before = out@.map_values(|s: String| s@);
        assert(uv.take(i + 1).drop_last() =~= uv.take(i as int));
        assert(uv.take(i + 1).last() == uv[i as int]);
        if starts_with_exec(cs.as_slice(), prefix.as_slice()) {
            let rest = string_of(slice_vec(cs.as_slice(), 7, cs.len()).as_slice());
            let ghost rv = rest@;
            out.push(rest);
            assert(out@.map_values(|s: String| s@) =~= before + seq![rv]);
        } else {
            assert(before + Seq::<Seq<char>>::empty() =~= before);
        }
        i = i + 1;
    }
    assert(uv.take(uris.len() as int) =~= uv);
    out
}

} // verus!

//! `maggraph.toml` configuration model and validation.
use vstd::prelude::*;

use crate::error::{MagGraphError, Result};
use crate::path::{last_index, last_index_exec};
use crate::text::{
    chars_of, dec_seq, is_blank, push_str, push_u64, slice_vec, starts_with, string_of,
    strip_trailing, strip_trailing_len, trim,
};

verus! {

/// Name of the optional metadata directory created under the graph root.
pub const METADATA_DIR_NAME: &'static str = ".maggraph";

/// Where node content lives.
#[derive(Debug, Clone, Copy, PartialEq, Eq, Structural)]
pub enum StorageMode {
    Local,
    Lakehouse,
}

/// Replication role of this graph instance.
#[derive(Debug, Clone, Copy, PartialEq, Eq, Structural)]
pub enum SyncRole {
    Leader,
    Follower,
}

#[derive(Debug, Clone, PartialEq, Eq)]
pub struct StorageConfig {
    pub mode: StorageMode,
    pub root_path: String,
}

#[derive(Debug, Clone, PartialEq, Eq)]
pub struct RemoteSource {
    pub uri: String,
    pub format: String,
}

impl RemoteSource {
    /// A copy equal to `self`.
    pub fn duplicate(&self) -> (r: RemoteSource)
        ensures
            r == *self,
    {
        RemoteSource { uri: self.uri.clone(), format: self.format.clone() }
    }
}


/// `[lakehouse.cache]`: entry lifetime in seconds (0: no expiry) and byte limit (0: none).
#[derive(Debug, Clone, Copy, PartialEq, Eq)]
pub struct LakehouseCacheConfig {
    pub ttl_secs: u64,
    pub max_bytes: usize,
}

impl Default for LakehouseCacheConfig {
    /// Five minutes, ten megabytes.
    fn default() -> (r: LakehouseCacheConfig)
        ensures
            r.ttl_secs == 300,
            r.max_bytes == 10485760,
    {
        LakehouseCacheConfig { ttl_secs: 300, max_bytes: 10485760 }
    }
}

#[derive(Debug, Clone, PartialEq, Eq)]
pub struct LakehouseConfig {
    pub remote_sources: Vec<RemoteSource>,
    pub cache: LakehouseCacheConfig,
}

#[derive(Debug, Clone, PartialEq, Eq)]
pub struct SyncConfig {
    pub role: SyncRole,
    pub remote_url: String,
}

#[derive(Debug, Clone, PartialEq, Eq)]
pub struct MagGraphConfig {
    pub storage: StorageConfig,
    pub lakehouse: Option<LakehouseConfig>,
    pub sync: Option<SyncConfig>,
}

/// Configuration with filesystem paths resolved relative to the config file.
#[derive(Debug, Clone, PartialEq, Eq)]
pub struct ResolvedConfig {
    pub config: MagGraphConfig,
    pub config_path: String,
    pub root_path: String,
}

/// Message for a blank field of remote source `index`.
pub open spec fn remote_field_message(index: nat, field: Seq<char>) -> Seq<char> {
    "[lakehouse].remote_sources["@ + dec_seq(index) + "]."@ + field + " must not be empty"@
}

/// First problem among remote sources `k..`, if any.
pub open spec fn remotes_problem(rs: Seq<RemoteSource>, k: int) -> Option<Seq<char>>
    decreases rs.len() - k,
{
    if k < 0 || k >= rs.len() {
        None
    } else if trim(rs[k].uri@).len() == 0 {
        Some(remote_field_message(k as nat, "uri"@))
    } else if trim(rs[k].format@).len() == 0 {
        Some(remote_field_message(k as nat, "format"@))
    } else {
        remotes_problem(rs, k + 1)
    }
}

/// The validation message for `c`, if it is invalid.
pub open spec fn config_problem(c: MagGraphConfig) -> Option<Seq<char>> {
    if c.storage.root_path@.len() == 0 {
        Some("[storage].root_path must not be empty"@)
    } else if c.storage.mode == StorageMode::Lakehouse && c.lakehouse is None {
        Some("[lakehouse] section is required when [storage].mode = \"lakehouse\""@)
    } else if c.lakehouse is Some && c.lakehouse->0.remote_sources@.len() == 0 {
        Some("[lakehouse].remote_sources must contain at least one entry"@)
    } else if c.lakehouse is Some && remotes_problem(c.lakehouse->0.remote_sources@, 0) is Some {
        remotes_problem(c.lakehouse->0.remote_sources@, 0)
    } else if c.sync is Some && trim(c.sync->0.remote_url@).len() == 0 {
        Some("[sync].remote_url must not be empty when [sync] is present"@)
    } else {
        None
    }
}

/// Parent directory of a slash-separated path (`Path::parent`): `None` for the root or
/// an empty path, `""` for a bare file name.
pub open spec fn parent_of(p: Seq<char>) -> Option<Seq<char>> {
    let s = strip_trailing(p, '/');
    match last_index(s, '/') {
        None => if s.len() > 0 {
            Some(seq![])
        } else {
            None
        },
        Some(i) => {
            let head = strip_trailing(s.subrange(0, i), '/');
            if head.len() == 0 {
                Some(seq!['/'])
            } else {
                Some(head)
            }
        },
    }
}

/// `path` resolved against `base` (`Path::join`): absolute paths stand as they are.
pub open spec fn resolve_path_spec(base: Seq<char>, path: Seq<char>) -> Seq<char> {
    if starts_with(path, seq!['/']) || base.len() == 0 {
        path
    } else if base.last() == '/' {
        base + path
    } else {
        base + seq!['/'] + path
    }
}

/// Graph root of a configuration loaded from `config_path`.
pub open spec fn resolved_root(config_path: Seq<char>, root: Seq<char>) -> Seq<char> {
    let dir = match parent_of(config_path) {
        Some(d) => d,
        None => seq!['.'],
    };
    resolve_path_spec(dir, root)
}

fn parent_dir(p: &str) -> (r: Option<String>)
    ensures
        match parent_of(p@) {
            Some(d) => r matches Some(s) && s@ == d,
            None => r is None,
        },
{
    let cs = chars_of(p);
    let n = strip_trailing_len(cs.as_slice(), '/');
    let s = slice_vec(cs.as_slice(), 0, n);
    match last_index_exec(s.as_slice(), '/') {
        None => if s.len() > 0 {
            Some(String::new())
        } else {
            None
        },
        Some(i) => {
            let head_len = strip_trailing_len(slice_vec(s.as_slice(), 0, i).as_slice(), '/');
            let head = slice_vec(s.as_slice(), 0, head_len);
            assert(head@ =~= strip_trailing(s@.subrange(0, i as int), '/')) by {
                assert(s@.subrange(0, i as int).subrange(0, head_len as int) =~= s@.subrange(0, head_len as int));
            }
            if head.len() == 0 {
                let root = vec!['/'];
                assert(root@ =~= seq!['/']);
                Some(string_of(root.as_slice()))
            } else {
                Some(string_of(head.as_slice()))
            }
        },
    }
}

pub fn join_path(base: &str, path: &str) -> (r: String)
    ensures
        r@ == resolve_path_spec(base@, path@),
{
    let bs = chars_of(base);
    let ps = chars_of(path);
    if (ps.len() > 0 && ps[0] == '/') || bs.len() == 0 {
        proof {
            if ps.len() > 0 && ps[0] == '/' {
                assert(path@.subrange(0, 1) =~= seq!['/']);
            }
        }
        return path.to_owned();
    }
    proof {
        if ps.len() > 0 {
            assert(path@.subrange(0, 1)[0] == path@[0]);
        }
        assert(!starts_with(path@, seq!['/']));
    }
    let mut out: Vec<char> = Vec::new();
    push_str(&mut out, base);
    if bs[bs.len() - 1] != '/' {
        out.push('/');
    }
    push_str(&mut out, path);
    string_of(out.as_slice())
}

fn validate_remote_source(source: &RemoteSource, index: usize) -> (r: Result<()>)
    ensures
        trim(source.uri@).len() == 0 ==> (r matches Err(MagGraphError::ConfigValidation(m)) && m@
            == remote_field_message(index as nat, "uri"@)),
        trim(source.uri@).len() > 0 && trim(source.format@).len() == 0 ==> (r matches Err(
            MagGraphError::ConfigValidation(m),
        ) && m@ == remote_field_message(index as nat, "format"@)),
        trim(source.uri@).len() > 0 && trim(source.format@).len() > 0 ==> r is Ok,
{
    if is_blank(source.uri.as_str()) {
        let mut out: Vec<char> = Vec::new();
        push_str(&mut out, "[lakehouse].remote_sources[");
        push_u64(&mut out, index as u64);
        push_str(&mut out, "].");
        push_str(&mut out, "uri");
        push_str(&mut out, " must not be empty");
        return Err(MagGraphError::ConfigValidation(string_of(out.as_slice())));
    }
    if is_blank(source.format.as_str()) {
        let mut out: Vec<char> = Vec::new();
        push_str(&mut out, "[lakehouse].remote_sources[");
        push_u64(&mut out, index as u64);
        push_str(&mut out, "].");
        push_str(&mut out, "format");
        push_str(&mut out, " must not be empty");
        return Err(MagGraphError::ConfigValidation(string_of(out.as_slice())));
    }
    Ok(())
}

impl MagGraphConfig {
    /// Check the configuration: a root path, a `[lakehouse]` section in lakehouse mode
    /// with at least one complete remote source, and a sync remote when `[sync]` is set.
    #[verifier::loop_isolation(false)]
    pub fn validate(&self) -> (r: Result<()>)
        ensures
            match config_problem(*self) {
                None => r is Ok,
                Some(m) => r matches Err(MagGraphError::ConfigValidation(e)) && e@ == m,
            },
    {
        if self.storage.root_path.as_str().is_empty() {
            return Err(
                MagGraphError::ConfigValidation("[storage].root_path must not be empty".to_owned()),
            );
        }
        if self.storage.mode == StorageMode::Lakehouse && self.lakehouse.is_none() {
            return Err(
                MagGraphError::ConfigValidation(
                    "[lakehouse] section is required when [storage].mode = \"lakehouse\"".to_owned(),
                ),
            );
        }
        if let Some(lakehouse) = &self.lakehouse {
            if lakehouse.remote_sources.len() == 0 {
                return Err(
                    MagGraphError::ConfigValidation(
                        "[lakehouse].remote_sources must contain at least one entry".to_owned(),
                    ),
                );
            }
            let ghost rs = lakehouse.remote_sources@;
            let mut i: usize = 0;
            while i < lakehouse.remote_sources.len()
                invariant
                    i <= lakehouse.remote_sources.len(),
                    rs == lakehouse.remote_sources@,
                    remotes_problem(rs, 0) == remotes_problem(rs, i as int),
                decreases lakehouse.remote_sources.len() - i,
            {
                match validate_remote_source(&lakehouse.remote_sources[i], i) {
                    Err(e) => {
                        return Err(e);
                    },
                    Ok(()) => {},
                }
                i = i + 1;
            }
        }
        if let Some(sync) = &self.sync {
            if is_blank(sync.remote_url.as_str()) {
                return Err(
                    MagGraphError::ConfigValidation(
                        "[sync].remote_url must not be empty when [sync] is present".to_owned(),
                    ),
                );
            }
        }
        Ok(())
    }

    /// Validate fields and resolve `root_path` against the directory of `config_path`.
    pub fn into_resolved(self, config_path: &str) -> (r: Result<ResolvedConfig>)
        ensures
            match config_problem(self) {
                Some(m) => r matches Err(MagGraphError::ConfigValidation(e)) && e@ == m,
                None => r matches Ok(rc) && rc.config == self && rc.config_path@ == config_path@
                    && rc.root_path@ == resolved_root(config_path@, self.storage.root_path@),
            },
    {
        match self.validate() {
            Err(e) => {
                return Err(e);
            },
            Ok(()) => {},
        }
        let config_dir = match parent_dir(config_path) {
            Some(d) => d,
            None => {
                let dot = vec!['.'];
                assert(dot@ =~= seq!['.']);
                string_of(dot.as_slice())
            },
        };
        let root_path = join_path(config_dir.as_str(), self.storage.root_path.as_str());
        Ok(ResolvedConfig { config: self, config_path: config_path.to_owned(), root_path })
    }
}

/// Directories that initializing the graph root ensures, in order: the root, then the
/// metadata directory under it when asked for.
pub open spec fn graph_root_dirs_spec(root: Seq<char>, create_metadata_dir: bool) -> Seq<Seq<char>> {
    if create_metadata_dir {
        seq![root, resolve_path_spec(root, ".maggraph"@)]
    } else {
        seq![root]
    }
}

impl ResolvedConfig {
    /// Directories to ensure when initializing the graph root.
    pub fn graph_root_dirs(&self, create_metadata_dir: bool) -> (r: Vec<String>)
        ensures
            r@.map_values(|s: String| s@) == graph_root_dirs_spec(self.root_path@, create_metadata_dir),
    {
        let mut out: Vec<String> = Vec::new();
        out.push(self.root_path.clone());
        if create_metadata_dir {
            out.push(join_path(self.root_path.as_str(), METADATA_DIR_NAME));
        }
        proof {
            reveal_strlit(".maggraph");
        }
        assert(out@.map_values(|s: String| s@) =~= graph_root_dirs_spec(self.root_path@, create_metadata_dir));
        out
    }
}

/// What ensuring a directory at `path` requires, given what is on disk: `Ok(true)` to
/// create it, `Ok(false)` when it is already a directory, or the error when something
/// else is in the way.
pub fn ensure_directory_plan(path: &str, exists: bool, is_dir: bool) -> (r: Result<bool>)
    ensures
        exists && !is_dir ==> (r matches Err(MagGraphError::GraphRootInit { path: p, source: s })
            && p@ == path@ && s@ == "path exists but is not a directory"@),
        exists && is_dir ==> r == Ok::<bool, MagGraphError>(false),
        !exists ==> r == Ok::<bool, MagGraphError>(true),
{
    if exists {
        if !is_dir {
            return Err(
                MagGraphError::GraphRootInit {
                    path: path.to_owned(),
                    source: "path exists but is not a directory".to_owned(),
                },
            );
        }
        return Ok(false);
    }
    Ok(true)
}

} // verus!

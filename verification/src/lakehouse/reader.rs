//! Reads node content according to the storage mode, resolving lakehouse sources.
use vstd::prelude::*;

use crate::config::{RemoteSource, ResolvedConfig, StorageMode};
use crate::error::{MagGraphError, Result};
use crate::index::{find_id, node_of, GraphIndex};
use crate::lakehouse::cache::{
    answer_at, expired_spec, find_uri, insert_spec, total_bytes, without_uri, CacheView, ContentCache,
};
use crate::lakehouse::content::{approx_size, ContentView, ResolvedContent};
use crate::lakehouse::resolver::{
    outcome_is, registry_fetch_spec, ContentResolver, FileFacts, NoCustom, ResolverRegistry, ResolverView,
};
use crate::lakehouse::uri::{infer_format, infer_format_spec, resolve_source_uri, resolved_source};
use crate::node::{Node, NodeView};
use crate::text::{is_blank, trim};

verus! {

/// A node with its resolved content.
#[derive(Debug, PartialEq, Eq)]
pub struct NodeWithContent {
    pub node: Node,
    pub content: ResolvedContent,
}

/// Reads node content according to `[storage].mode` and lakehouse resolution rules.
#[derive(Debug)]
pub struct LakehouseReader<C = NoCustom> {
    mode: StorageMode,
    remote_sources: Vec<RemoteSource>,
    cache: ContentCache,
    resolvers: ResolverRegistry<C>,
}

/// Abstract form of a [`LakehouseReader`].
pub struct ReaderView<C = NoCustom> {
    pub mode: StorageMode,
    pub remote_sources: Seq<RemoteSource>,
    pub cache: CacheView,
    pub resolvers: Seq<ResolverView<C>>,
}

impl<C> View for LakehouseReader<C> {
    type V = ReaderView<C>;

    closed spec fn view(&self) -> ReaderView<C> {
        ReaderView {
            mode: self.mode,
            remote_sources: self.remote_sources@,
            cache: self.cache@,
            resolvers: self.resolvers@,
        }
    }
}

/// The external source of a node, when it names one (blank sources do not).
pub open spec fn node_source(n: NodeView) -> Option<Seq<char>> {
    match n.metadata.source {
        Some(s) => if trim(s).len() > 0 {
            Some(s)
        } else {
            None
        },
        None => None,
    }
}

/// The URI a node's content is fetched from, in lakehouse mode, when resolution succeeds.
pub open spec fn node_uri(n: NodeView, remotes: Seq<RemoteSource>) -> Option<Seq<char>> {
    match node_source(n) {
        Some(s) => resolved_source(s, remotes),
        None => None,
    }
}

/// `r` is the content fetched for `uri` when the cache did not serve it, and `c2` is the
/// cache afterwards: fetched content is cached (unless, without a byte limit, the byte
/// total would not fit in `usize`); a failed fetch leaves the cache unchanged.
pub open spec fn fetched<C: ContentResolver>(
    r: Result<ResolvedContent>,
    uri: Seq<char>,
    v: ReaderView<C>,
    files: FileFacts,
    c2: CacheView,
) -> bool {
    let expected = registry_fetch_spec(v.resolvers, uri, infer_format_spec(uri, v.remote_sources), files);
    &&& outcome_is(r, uri, expected)
    &&& c2.ttl_secs == v.cache.ttl_secs
    &&& c2.max_bytes == v.cache.max_bytes
    &&& match r {
        Ok(c) => if v.cache.max_bytes > 0 || total_bytes(without_uri(v.cache.entries, uri))
            + approx_size(c) <= usize::MAX {
            c2.entries == insert_spec(v.cache.entries, uri, c@, approx_size(c), v.cache.max_bytes)
        } else {
            c2.entries == v.cache.entries
        },
        Err(_) => c2 == v.cache,
    }
}

/// `r` is what a lakehouse-mode read of node `n` gives, and `v2` the reader afterwards:
/// the node's own body when it has no source; the resolution error; the cached content
/// (unless it has expired at the entry's age on the clock, see [`expired_spec`]); or the
/// fetched content, then cached.
pub open spec fn lakehouse_read<C: ContentResolver>(
    r: Result<ResolvedContent>,
    n: NodeView,
    v: ReaderView<C>,
    files: FileFacts,
    v2: ReaderView<C>,
) -> bool {
    match node_source(n) {
        None => r matches Ok(ResolvedContent::LocalMarkdown { body }) && body@ == n.body && v2 == v,
        Some(_) => match node_uri(n, v.remote_sources) {
            None => r is Err && v2 == v,
            Some(u) => match find_uri(v.cache.entries, u) {
                Some(i) => exists|age: int|
                    0 <= age && if #[trigger] expired_spec(v.cache.ttl_secs, age) {
                        fetched(r, u, v, files, v2.cache)
                    } else {
                        r matches Ok(c) && c@ == v.cache.entries[i].content && v2 == v
                    },
                None => fetched(r, u, v, files, v2.cache),
            },
        },
    }
}

/// The content part of a read result.
pub open spec fn content_part(r: Result<NodeWithContent>) -> Result<ResolvedContent> {
    match r {
        Ok(nc) => Ok(nc.content),
        Err(e) => Err(e),
    }
}

impl LakehouseReader {
    /// A reader for a loaded configuration. `file_roots` are the canonical directories of
    /// the configured `file://` remote sources, to which file reads are restricted.
    pub fn from_config(config: &ResolvedConfig, file_roots: Vec<String>) -> (r: LakehouseReader)
        ensures
            r@.mode == config.config.storage.mode,
            r@.remote_sources == match config.config.lakehouse {
                Some(lh) => lh.remote_sources@,
                None => Seq::<RemoteSource>::empty(),
            },
            r@.cache.ttl_secs == match config.config.lakehouse {
                Some(lh) => lh.cache.ttl_secs,
                None => 300,
            },
            r@.cache.max_bytes == match config.config.lakehouse {
                Some(lh) => lh.cache.max_bytes,
                None => 10485760,
            },
            r@.cache.entries.len() == 0,
            r@.resolvers == crate::lakehouse::resolver::default_resolvers::<NoCustom>(
                file_roots@.map_values(|s: String| s@),
            ),
    {
        let (remote_sources, ttl_secs, max_bytes) = match &config.config.lakehouse {
            Some(lh) => {
                let mut rs: Vec<RemoteSource> = Vec::new();
                let mut i: usize = 0;
                while i < lh.remote_sources.len()
                    invariant
                        i <= lh.remote_sources.len(),
                        rs@ == lh.remote_sources@.take(i as int),
                    decreases lh.remote_sources.len() - i,
                {
                    rs.push(lh.remote_sources[i].duplicate());
                    i = i + 1;
                    assert(rs@ =~= lh.remote_sources@.take(i as int));
                }
                assert(lh.remote_sources@.take(i as int) =~= lh.remote_sources@);
                (rs, lh.cache.ttl_secs, lh.cache.max_bytes)
            },
            None => {
                let rs: Vec<RemoteSource> = Vec::new();
                assert(rs@ =~= Seq::<RemoteSource>::empty());
                (rs, 300u64, 10485760usize)
            },
        };
        LakehouseReader {
            mode: config.config.storage.mode,
            remote_sources,
            cache: ContentCache::new(ttl_secs, max_bytes),
            resolvers: ResolverRegistry::with_file_allowlist(file_roots),
        }
    }

}

impl<C: ContentResolver> LakehouseReader<C> {
    pub fn with_resolvers(
        mode: StorageMode,
        remote_sources: Vec<RemoteSource>,
        cache: ContentCache,
        resolvers: ResolverRegistry<C>,
    ) -> (r: LakehouseReader<C>)
        ensures
            r@ == (ReaderView {
                mode,
                remote_sources: remote_sources@,
                cache: cache@,
                resolvers: resolvers@,
            }),
    {
        LakehouseReader { mode, remote_sources, cache, resolvers }
    }

    pub fn cache(&self) -> (r: &ContentCache)
        ensures
            r@ == self@.cache,
    {
        &self.cache
    }

    /// The content cache, for changing it in place; the reader keeps what it becomes.
    pub fn cache_mut(&mut self) -> (r: &mut ContentCache)
        ensures
            (*r)@ == old(self)@.cache,
            final(self)@ == (ReaderView { cache: (*final(r))@, ..old(self)@ }),
    {
        &mut self.cache
    }

    /// URI whose content a read of `node` fetches, if any: none in local mode or for a node
    /// without a source; otherwise the resolved source, or why it does not resolve.
    pub fn content_uri(&self, node: &Node) -> (r: Result<Option<String>>)
        ensures
            (self@.mode == StorageMode::Local || node_source(node@) is None) ==> r matches Ok(None),
            self@.mode == StorageMode::Lakehouse && node_source(node@) is Some ==> (match node_uri(
                node@,
                self@.remote_sources,
            ) {
                Some(u) => r matches Ok(Some(s)) && s@ == u,
                None => r is Err,
            }),
    {
        match self.mode {
            StorageMode::Local => Ok(None),
            StorageMode::Lakehouse => match &node.metadata.source {
                None => Ok(None),
                Some(source) => {
                    if is_blank(source.as_str()) {
                        return Ok(None);
                    }
                    match resolve_source_uri(source.as_str(), self.remote_sources.as_slice()) {
                        Ok(u) => Ok(Some(u)),
                        Err(e) => Err(e),
                    }
                },
            },
        }
    }

    fn resolve_lakehouse(&mut self, node: &Node, files: &FileFacts) -> (r: Result<ResolvedContent>)
        requires
            old(self)@.mode == StorageMode::Lakehouse,
        ensures
            final(self)@.mode == old(self)@.mode,
            final(self)@.remote_sources == old(self)@.remote_sources,
            final(self)@.resolvers == old(self)@.resolvers,
            lakehouse_read(r, node@, old(self)@, *files, final(self)@),
    {
        let uri = match self.content_uri(node) {
            Err(e) => {
                return Err(e);
            },
            Ok(None) => {
                return Ok(ResolvedContent::LocalMarkdown { body: node.body.clone() });
            },
            Ok(Some(u)) => u,
        };
        let ghost age_w: int = 0;
        match self.cache.get(uri.as_str()) {
            Some(cached) => {
                proof {
                    let i = find_uri(self@.cache.entries, uri@)->0;
                    let a = choose|age: int| 0 <= age && answer_at(self@.cache, uri@, age) == Some(cached@);
                    assert(!expired_spec(self@.cache.ttl_secs, a));
                }
                return Ok(cached.duplicate());
            },
            None => {
                proof {
                    if find_uri(self@.cache.entries, uri@) is Some {
                        let a = choose|age: int| 0 <= age && answer_at(self@.cache, uri@, age) is None;
                        age_w = a;
                        assert(expired_spec(self@.cache.ttl_secs, age_w));
                    }
                }
            },
        }
        let format = infer_format(uri.as_str(), self.remote_sources.as_slice());
        let resolved = match self.resolvers.fetch(uri.as_str(), format.as_str(), files) {
            Err(e) => {
                return Err(e);
            },
            Ok(c) => c,
        };
        let size = resolved.approximate_size_bytes();
        let rest = self.cache.bytes_without(uri.as_str());
        if self.cache.max_bytes() > 0 || rest <= usize::MAX - size {
            let copy = resolved.duplicate();
            self.cache.insert(uri, copy);
        }
        Ok(resolved)
    }

    /// Read a node and resolve external content when in lakehouse mode. `files` describes
    /// the local file behind the node's `file` URI, when it has one.
    pub fn read_node(&mut self, index: &GraphIndex, id: &str, files: &FileFacts) -> (r: Result<NodeWithContent>)
        ensures
            final(self)@.mode == old(self)@.mode,
            final(self)@.remote_sources == old(self)@.remote_sources,
            final(self)@.resolvers == old(self)@.resolvers,
            find_id(index@.entries, id@) is None ==> (r matches Err(MagGraphError::NodeNotFound { id: e })
                && e@ == id@ && final(self)@ == old(self)@),
            find_id(index@.entries, id@) is Some && old(self)@.mode == StorageMode::Local ==> (r matches Ok(
                nc,
            ) && nc.node@ == node_of(index@.entries[find_id(index@.entries, id@)->0])
                && nc.content@ == ContentView::LocalMarkdown(nc.node@.body) && final(self)@ == old(self)@),
            find_id(index@.entries, id@) is Some && old(self)@.mode == StorageMode::Lakehouse
                ==> lakehouse_read(
                content_part(r),
                node_of(index@.entries[find_id(index@.entries, id@)->0]),
                old(self)@,
                *files,
                final(self)@,
            ),
            r matches Ok(nc) ==> nc.node@ == node_of(index@.entries[find_id(index@.entries, id@)->0]),
    {
        let node = match index.read_node(id) {
            Err(e) => {
                return Err(e);
            },
            Ok(n) => n,
        };
        let content = match self.mode {
            StorageMode::Local => ResolvedContent::LocalMarkdown { body: node.body.clone() },
            StorageMode::Lakehouse => match self.resolve_lakehouse(&node, files) {
                Err(e) => {
                    return Err(e);
                },
                Ok(c) => c,
            },
        };
        Ok(NodeWithContent { node, content })
    }

    /// Content for `node` without loading it from an index.
    pub fn resolve_source_for_node(&mut self, node: &Node, files: &FileFacts) -> (r: Result<ResolvedContent>)
        ensures
            final(self)@.mode == old(self)@.mode,
            old(self)@.mode == StorageMode::Local ==> (r matches Ok(ResolvedContent::LocalMarkdown { body })
                && body@ == node@.body && final(self)@ == old(self)@),
            old(self)@.mode == StorageMode::Lakehouse ==> lakehouse_read(
                r,
                node@,
                old(self)@,
                *files,
                final(self)@,
            ),
    {
        match self.mode {
            StorageMode::Local => Ok(ResolvedContent::LocalMarkdown { body: node.body.clone() }),
            StorageMode::Lakehouse => self.resolve_lakehouse(node, files),
        }
    }
}

} // verus!

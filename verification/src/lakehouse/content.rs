//! Content returned when reading a node: its local body or a resolved external asset.
use vstd::prelude::*;

use crate::text::{dec_seq, push_str, push_u64, string_of};
use crate::wikilink::{byte_len, utf8_byte_count};
use crate::text::chars_of;

verus! {

/// Content returned when reading a node (local body or resolved external asset).
#[derive(Debug, Clone, PartialEq, Eq)]
pub enum ResolvedContent {
    /// Markdown body stored in-repo (local mode or lakehouse node without a source).
    LocalMarkdown { body: String },
    /// Plain text fetched from an external URI.
    Text { uri: String, body: String },
    /// External asset metadata (and optional snippet).
    ExternalAsset {
        uri: String,
        format: String,
        metadata: AssetMetadata,
        snippet: Option<String>,
    },
}

#[derive(Debug, Clone, PartialEq, Eq, Default)]
pub struct AssetMetadata {
    pub size_bytes: Option<u64>,
    pub content_type: Option<String>,
    pub parquet: Option<ParquetMetadata>,
}

#[derive(Debug, Clone, Copy, PartialEq, Eq)]
pub struct ParquetMetadata {
    /// Whether the file begins with the PAR1 magic header.
    pub magic_valid: bool,
    /// Row group count (not parsed; reserved).
    pub row_groups: Option<u32>,
}

/// Byte length of a string, as `String::len` reports it.
pub open spec fn str_bytes(s: Seq<char>) -> usize {
    byte_len(s) as usize
}

/// Size estimate used by the content cache.
pub open spec fn approx_size(c: ResolvedContent) -> usize {
    match c {
        ResolvedContent::LocalMarkdown { body } => str_bytes(body@),
        ResolvedContent::Text { body, .. } => str_bytes(body@),
        ResolvedContent::ExternalAsset { snippet, metadata, .. } => {
            let s: usize = match snippet {
                Some(t) => str_bytes(t@),
                None => 0,
            };
            let m: usize = match metadata.size_bytes {
                Some(n) => if n > usize::MAX {
                    usize::MAX
                } else {
                    n as usize
                },
                None => 128,
            };
            vstd::wrapping::usize_specs::wrapping_add(s, m)
        },
    }
}

/// Display form of a `bool`.
pub open spec fn bool_seq(b: bool) -> Seq<char> {
    if b {
        "true"@
    } else {
        "false"@
    }
}

/// Agent-facing Markdown for resolved content.
pub open spec fn content_markdown(c: ResolvedContent) -> Seq<char> {
    match c {
        ResolvedContent::LocalMarkdown { body } => body@,
        ResolvedContent::Text { uri, body } => "## Resolved content\n\n**URI:** `"@ + uri@
            + "`\n\n"@ + body@,
        ResolvedContent::ExternalAsset { uri, format, metadata, snippet } => "## External asset\n\n**URI:** `"@
            + uri@ + "`\n\n**Format:** `"@ + format@ + "`"@ + (match metadata.size_bytes {
            Some(n) => "\n\n**Size:** "@ + dec_seq(n as nat) + " bytes"@,
            None => Seq::<char>::empty(),
        }) + (match metadata.parquet {
            Some(p) => "\n\n**Parquet magic valid:** "@ + bool_seq(p.magic_valid),
            None => Seq::<char>::empty(),
        }) + (match snippet {
            Some(t) => "\n\n### Snippet\n\n"@ + t@,
            None => Seq::<char>::empty(),
        }),
    }
}

fn str_len(s: &String) -> (n: usize)
    ensures
        n == str_bytes(s@),
{
    s.as_str().len()
}

impl ResolvedContent {
    pub fn approximate_size_bytes(&self) -> (n: usize)
        ensures
            n == approx_size(*self),
    {
        match self {
            ResolvedContent::LocalMarkdown { body } => str_len(body),
            ResolvedContent::Text { body, .. } => str_len(body),
            ResolvedContent::ExternalAsset { snippet, metadata, .. } => {
                let s: usize = match snippet {
                    Some(t) => str_len(t),
                    None => 0,
                };
                let m: usize = match metadata.size_bytes {
                    Some(n) => if n > usize::MAX as u64 {
                        usize::MAX
                    } else {
                        n as usize
                    },
                    None => 128,
                };
                s.wrapping_add(m)
            },
        }
    }

    /// Markdown-friendly summary for agents.
    pub fn to_markdown(&self) -> (r: String)
        ensures
            r@ == content_markdown(*self),
    {
        match self {
            ResolvedContent::LocalMarkdown { body } => body.clone(),
            ResolvedContent::Text { uri, body } => {
                let mut out: Vec<char> = Vec::new();
                push_str(&mut out, "## Resolved content\n\n**URI:** `");
                push_str(&mut out, uri.as_str());
                push_str(&mut out, "`\n\n");
                push_str(&mut out, body.as_str());
                string_of(out.as_slice())
            },
            ResolvedContent::ExternalAsset { uri, format, metadata, snippet } => {
                let mut out: Vec<char> = Vec::new();
                push_str(&mut out, "## External asset\n\n**URI:** `");
                push_str(&mut out, uri.as_str());
                push_str(&mut out, "`\n\n**Format:** `");
                push_str(&mut out, format.as_str());
                push_str(&mut out, "`");
                let ghost head = out@;
                if let Some(n) = metadata.size_bytes {
                    push_str(&mut out, "\n\n**Size:** ");
                    push_u64(&mut out, n);
                    push_str(&mut out, " bytes");
                }
                let ghost h2 = out@;
                if let Some(p) = metadata.parquet {
                    push_str(&mut out, "\n\n**Parquet magic valid:** ");
                    if p.magic_valid {
                        push_str(&mut out, "true");
                    } else {
                        push_str(&mut out, "false");
                    }
                }
                let ghost h3 = out@;
                if let Some(t) = snippet {
                    push_str(&mut out, "\n\n### Snippet\n\n");
                    push_str(&mut out, t.as_str());
                }
                assert(out@ =~= content_markdown(*self));
                string_of(out.as_slice())
            },
        }
    }
}


/// Mathematical view of [`AssetMetadata`].
pub struct AssetView {
    pub size_bytes: Option<u64>,
    pub content_type: Option<Seq<char>>,
    pub parquet: Option<ParquetMetadata>,
}

/// Mathematical view of [`ResolvedContent`].
pub enum ContentView {
    LocalMarkdown(Seq<char>),
    Text(Seq<char>, Seq<char>),
    ExternalAsset(Seq<char>, Seq<char>, AssetView, Option<Seq<char>>),
}

pub open spec fn opt_view(o: Option<String>) -> Option<Seq<char>> {
    match o {
        Some(s) => Some(s@),
        None => None,
    }
}

impl View for AssetMetadata {
    type V = AssetView;

    open spec fn view(&self) -> AssetView {
        AssetView {
            size_bytes: self.size_bytes,
            content_type: opt_view(self.content_type),
            parquet: self.parquet,
        }
    }
}

impl View for ResolvedContent {
    type V = ContentView;

    open spec fn view(&self) -> ContentView {
        match self {
            ResolvedContent::LocalMarkdown { body } => ContentView::LocalMarkdown(body@),
            ResolvedContent::Text { uri, body } => ContentView::Text(uri@, body@),
            ResolvedContent::ExternalAsset { uri, format, metadata, snippet } => ContentView::ExternalAsset(
                uri@,
                format@,
                metadata@,
                opt_view(*snippet),
            ),
        }
    }
}

impl ResolvedContent {
    /// A copy equal to `self`.
    pub fn duplicate(&self) -> (r: ResolvedContent)
        ensures
            r == *self,
    {
        match self {
            ResolvedContent::LocalMarkdown { body } => ResolvedContent::LocalMarkdown {
                body: body.clone(),
            },
            ResolvedContent::Text { uri, body } => ResolvedContent::Text {
                uri: uri.clone(),
                body: body.clone(),
            },
            ResolvedContent::ExternalAsset { uri, format, metadata, snippet } => {
                let ct = match &metadata.content_type {
                    Some(t) => Some(t.clone()),
                    None => None,
                };
                let sn = match snippet {
                    Some(t) => Some(t.clone()),
                    None => None,
                };
                ResolvedContent::ExternalAsset {
                    uri: uri.clone(),
                    format: format.clone(),
                    metadata: AssetMetadata {
                        size_bytes: metadata.size_bytes,
                        content_type: ct,
                        parquet: metadata.parquet,
                    },
                    snippet: sn,
                }
            },
        }
    }
}

} // verus!

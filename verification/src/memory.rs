//! Typed agent memory nodes.
use vstd::prelude::*;

use crate::node::{extra_set, extra_set_spec, extra_view, ExtraView, NewNode, NodeMetadata, strings_view};
use crate::text::{concat2, is_blank, trim};
use crate::yaml::{YamlValue, YamlView};

verus! {

/// Node types of agent memories.
pub fn memory_types() -> (r: Vec<&'static str>)
    ensures
        r@.map_values(|s: &str| s@) == memory_type_names(),
{
    let r = vec![
        "preference",
        "project_fact",
        "decision",
        "task",
        "session_summary",
        "bookmark",
        "tool_failure",
    ];
    assert(r@.map_values(|s: &str| s@) =~= memory_type_names());
    r
}

pub open spec fn memory_type_names() -> Seq<Seq<char>> {
    seq![
        "preference"@,
        "project_fact"@,
        "decision"@,
        "task"@,
        "session_summary"@,
        "bookmark"@,
        "tool_failure"@,
    ]
}

#[derive(Debug, Clone, Copy, PartialEq, Eq, Structural)]
pub enum MemoryNodeKind {
    Preference,
    ProjectFact,
    Decision,
    Task,
    SessionSummary,
    Bookmark,
    ToolFailure,
}

/// Node type of a memory kind.
pub open spec fn kind_name(k: MemoryNodeKind) -> Seq<char> {
    match k {
        MemoryNodeKind::Preference => "preference"@,
        MemoryNodeKind::ProjectFact => "project_fact"@,
        MemoryNodeKind::Decision => "decision"@,
        MemoryNodeKind::Task => "task"@,
        MemoryNodeKind::SessionSummary => "session_summary"@,
        MemoryNodeKind::Bookmark => "bookmark"@,
        MemoryNodeKind::ToolFailure => "tool_failure"@,
    }
}

impl MemoryNodeKind {
    pub fn as_str(self) -> (r: &'static str)
        ensures
            r@ == kind_name(self),
    {
        match self {
            MemoryNodeKind::Preference => "preference",
            MemoryNodeKind::ProjectFact => "project_fact",
            MemoryNodeKind::Decision => "decision",
            MemoryNodeKind::Task => "task",
            MemoryNodeKind::SessionSummary => "session_summary",
            MemoryNodeKind::Bookmark => "bookmark",
            MemoryNodeKind::ToolFailure => "tool_failure",
        }
    }
}

/// Whether `node_type` is one of the memory node types.
pub fn validate_memory_type(node_type: &str) -> (b: bool)
    ensures
        b == memory_type_names().contains(node_type@),
{
    let types = memory_types();
    let ghost tv = types@.map_values(|s: &str| s@);
    let mut i: usize = 0;
    while i < types.len()
        invariant
            i <= types.len(),
            tv == types@.map_values(|s: &str| s@),
            tv == memory_type_names(),
            forall|m: int| 0 <= m < i ==> tv[m] != node_type@,
        decreases types.len() - i,
    {
        assert(tv[i as int] == types@[i as int]@);
        if crate::text::str_eq(types[i], node_type) {
            assert(tv.contains(node_type@));
            return true;
        }
        i = i + 1;
    }
    false
}

/// A memory node: the kind's node type, no source, stored at `<id>.md`.
pub fn new_memory_node(
    id: String,
    kind: MemoryNodeKind,
    body: String,
    links: Vec<String>,
    extra: Vec<(String, YamlValue)>,
) -> (r: NewNode)
    ensures
        r.metadata@.id == id@,
        r.metadata@.node_type == kind_name(kind),
        r.metadata@.source is None,
        r.metadata@.links == strings_view(links@),
        r.metadata@.extra == extra_view(extra@),
        r.body@ == body@,
        r.relative_path@ == id@ + ".md"@,
{
    let relative_path = concat2(id.as_str(), ".md");
    NewNode {
        metadata: NodeMetadata {
            id,
            node_type: kind.as_str().to_owned(),
            source: None,
            links,
            extra,
        },
        body,
        relative_path,
    }
}

/// Optional provenance, scope and temporal metadata for an agent memory. `confidence` is
/// the frontmatter value to record, already clamped to `[0, 1]` by the caller.
#[derive(Debug, PartialEq, Eq, Default)]
pub struct MemoryContext {
    pub project: Option<String>,
    pub source_task: Option<String>,
    pub source_session: Option<String>,
    pub source_tool: Option<String>,
    pub extraction_method: Option<String>,
    pub confidence: Option<YamlValue>,
    pub valid_from: Option<String>,
    pub valid_until: Option<String>,
    pub supersedes: Option<String>,
    pub canonical_id: Option<String>,
}

/// `es` with `key` set to the string `value`, when it is given and not blank.
pub open spec fn with_string(es: ExtraView, key: Seq<char>, value: Option<String>) -> ExtraView {
    match value {
        Some(v) => if trim(v@).len() > 0 {
            extra_set_spec(es, key, YamlView::Str(v@))
        } else {
            es
        },
        None => es,
    }
}

/// Frontmatter extras recording a memory's provenance, in insertion order of the fields.
pub open spec fn provenance_extra(p: MemoryContext) -> ExtraView {
    let e1 = with_string(seq![], "project"@, p.project);
    let e2 = with_string(e1, "source_task"@, p.source_task);
    let e3 = with_string(e2, "source_session"@, p.source_session);
    let e4 = with_string(e3, "source_tool"@, p.source_tool);
    let e5 = with_string(e4, "extraction_method"@, p.extraction_method);
    let e6 = match p.confidence {
        Some(c) => extra_set_spec(e5, "confidence"@, c@),
        None => e5,
    };
    let e7 = with_string(e6, "valid_from"@, p.valid_from);
    let e8 = with_string(e7, "valid_until"@, p.valid_until);
    let e9 = with_string(e8, "supersedes"@, p.supersedes);
    with_string(e9, "canonical_id"@, p.canonical_id)
}

fn insert_string(extra: &mut Vec<(String, YamlValue)>, key: &str, value: Option<String>)
    ensures
        extra_view(final(extra)@) == with_string(extra_view(old(extra)@), key@, value),
{
    match value {
        Some(v) => {
            if !is_blank(v.as_str()) {
                extra_set(extra, key.to_owned(), YamlValue::String(v));
            }
        },
        None => {},
    }
}

/// A memory node whose frontmatter records its provenance. `confidence` is the YAML
/// value of the confidence, already clamped to `[0, 1]`.
pub fn new_memory_node_with_context(
    id: String,
    kind: MemoryNodeKind,
    body: String,
    links: Vec<String>,
    context: MemoryContext,
) -> (r: NewNode)
    ensures
        r.metadata@.id == id@,
        r.metadata@.node_type == kind_name(kind),
        r.metadata@.source is None,
        r.metadata@.links == strings_view(links@),
        r.metadata@.extra == provenance_extra(context),
        r.body@ == body@,
        r.relative_path@ == id@ + ".md"@,
{
    let ghost p = context;
    let mut extra: Vec<(String, YamlValue)> = Vec::new();
    assert(extra_view(extra@) =~= Seq::<(Seq<char>, YamlView)>::empty());
    let MemoryContext {
        project,
        source_task,
        source_session,
        source_tool,
        extraction_method,
        confidence,
        valid_from,
        valid_until,
        supersedes,
        canonical_id,
    } = context;
    insert_string(&mut extra, "project", project);
    insert_string(&mut extra, "source_task", source_task);
    insert_string(&mut extra, "source_session", source_session);
    insert_string(&mut extra, "source_tool", source_tool);
    insert_string(&mut extra, "extraction_method", extraction_method);
    match confidence {
        Some(c) => extra_set(&mut extra, "confidence".to_owned(), c),
        None => {},
    }
    insert_string(&mut extra, "valid_from", valid_from);
    insert_string(&mut extra, "valid_until", valid_until);
    insert_string(&mut extra, "supersedes", supersedes);
    insert_string(&mut extra, "canonical_id", canonical_id);
    new_memory_node(id, kind, body, links, extra)
}

} // verus!

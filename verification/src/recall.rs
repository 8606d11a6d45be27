//! Agent-grade recall bundles: a node's summary, excerpt, links and backlinks.
use vstd::prelude::*;

use crate::error::{MagGraphError, Result};
use crate::graph::{index_adjacency, linkers, entry_ids};
use crate::index::{find_id, node_of, EntryView, GraphIndex};
use crate::node::{copy_extra, copy_strings, extra_view, strings_view, ExtraView};
use crate::query::{join_seqs, summarize_text, summary_spec};
use crate::text::{chars_of, extend_chars, push_str, slice_vec, string_of};
use crate::yaml::YamlValue;

verus! {

#[derive(Debug, PartialEq, Eq)]
pub struct RecallBundle {
    pub id: String,
    pub node_type: String,
    pub summary: String,
    pub body_excerpt: String,
    pub links: Vec<String>,
    pub backlinks: Vec<String>,
    pub metadata: Vec<(String, YamlValue)>,
    pub relevance_reason: String,
}

/// A labelled list line, present only for a non-empty list.
pub open spec fn list_line(label: Seq<char>, items: Seq<Seq<char>>) -> Seq<char> {
    if items.len() > 0 {
        label + join_seqs(items, ", "@) + "\n"@
    } else {
        seq![]
    }
}

/// The reason line, present only for a non-empty reason.
pub open spec fn reason_line(reason: Seq<char>) -> Seq<char> {
    if reason.len() > 0 {
        "- **Reason:** "@ + reason + "\n"@
    } else {
        seq![]
    }
}

/// The summary paragraph, present only for a non-empty summary.
pub open spec fn summary_par(summary: Seq<char>) -> Seq<char> {
    if summary.len() > 0 {
        "**Summary:** "@ + summary + "\n\n"@
    } else {
        seq![]
    }
}

/// The excerpt as a fenced block, present only for a non-empty excerpt.
pub open spec fn excerpt_block(excerpt: Seq<char>) -> Seq<char> {
    if excerpt.len() > 0 {
        "```markdown\n"@ + excerpt + (if excerpt.last() == '\n' {
            seq![]
        } else {
            seq!['\n']
        }) + "```\n"@
    } else {
        seq![]
    }
}

/// Markdown rendering of a recall bundle.
pub open spec fn bundle_md(b: RecallBundle) -> Seq<char> {
    "## `"@ + b.id@ + "` ("@ + b.node_type@ + ")\n\n"@ + reason_line(b.relevance_reason@)
        + list_line("- **Links:** "@, strings_view(b.links@)) + list_line(
        "- **Backlinks:** "@,
        strings_view(b.backlinks@),
    ) + "\n"@ + summary_par(b.summary@) + excerpt_block(b.body_excerpt@)
}

fn push_list_line(out: &mut Vec<char>, label: &str, items: &Vec<String>)
    ensures
        final(out)@ == old(out)@ + list_line(label@, strings_view(items@)),
{
    if items.len() > 0 {
        push_str(out, label);
        push_joined(out, items, ", ");
        push_str(out, "\n");
        assert(out@ =~= old(out)@ + list_line(label@, strings_view(items@)));
    } else {
        assert(out@ =~= old(out)@ + list_line(label@, strings_view(items@)));
    }
}

fn push_reason_line(out: &mut Vec<char>, reason: &str)
    ensures
        final(out)@ == old(out)@ + reason_line(reason@),
{
    let cs = chars_of(reason);
    if cs.len() > 0 {
        push_str(out, "- **Reason:** ");
        push_str(out, reason);
        push_str(out, "\n");
        assert(out@ =~= old(out)@ + reason_line(reason@));
    } else {
        assert(out@ =~= old(out)@ + reason_line(reason@));
    }
}

fn push_summary_par(out: &mut Vec<char>, summary: &str)
    ensures
        final(out)@ == old(out)@ + summary_par(summary@),
{
    let cs = chars_of(summary);
    if cs.len() > 0 {
        push_str(out, "**Summary:** ");
        push_str(out, summary);
        push_str(out, "\n\n");
        assert(out@ =~= old(out)@ + summary_par(summary@));
    } else {
        assert(out@ =~= old(out)@ + summary_par(summary@));
    }
}

fn push_excerpt_block(out: &mut Vec<char>, excerpt: &str)
    ensures
        final(out)@ == old(out)@ + excerpt_block(excerpt@),
{
    let cs = chars_of(excerpt);
    if cs.len() > 0 {
        push_str(out, "```markdown\n");
        push_str(out, excerpt);
        let ghost mid = out@;
        if cs[cs.len() - 1] != '\n' {
            out.push('\n');
        }
        push_str(out, "```\n");
        assert(out@ =~= old(out)@ + excerpt_block(excerpt@));
    } else {
        assert(out@ =~= old(out)@ + excerpt_block(excerpt@));
    }
}

/// Append `parts` joined by `sep`.
pub fn push_joined(out: &mut Vec<char>, parts: &Vec<String>, sep: &str)
    ensures
        final(out)@ == old(out)@ + join_seqs(strings_view(parts@), sep@),
{
    let ghost pv = strings_view(parts@);
    let ghost start = out@;
    let mut i: usize = 0;
    assert(pv.take(0) =~= Seq::<Seq<char>>::empty());
    assert(out@ =~= start + join_seqs(pv.take(0), sep@));
    while i < parts.len()
        invariant
            i <= parts.len(),
            pv == strings_view(parts@),
            out@ == start + join_seqs(pv.take(i as int), sep@),
        decreases parts.len() - i,
    {
        if i > 0 {
            push_str(out, sep);
        }
        push_str(out, parts[i].as_str());
        i = i + 1;
        let ghost t = pv.take(i as int);
        assert(t.drop_last() =~= pv.take(i - 1));
        assert(t.last() == parts@[i - 1]@);
        assert(out@ =~= start + join_seqs(t, sep@));
    }
    assert(pv.take(parts.len() as int) =~= pv);
}

impl RecallBundle {
    pub fn to_markdown(&self) -> (r: String)
        ensures
            r@ == bundle_md(*self),
    {
        let mut out: Vec<char> = Vec::new();
        push_str(&mut out, "## `");
        push_str(&mut out, self.id.as_str());
        push_str(&mut out, "` (");
        push_str(&mut out, self.node_type.as_str());
        push_str(&mut out, ")\n\n");
        push_reason_line(&mut out, self.relevance_reason.as_str());
        push_list_line(&mut out, "- **Links:** ", &self.links);
        push_list_line(&mut out, "- **Backlinks:** ", &self.backlinks);
        push_str(&mut out, "\n");
        push_summary_par(&mut out, self.summary.as_str());
        push_excerpt_block(&mut out, self.body_excerpt.as_str());
        assert(out@ =~= bundle_md(*self));
        string_of(out.as_slice())
    }
}

/// `b` recalls the node `id` of the entries `es` for `reason`: its type, summary, a body
/// excerpt of at most `body_chars` characters (at least one), its links, the nodes that
/// link to it, its extra metadata and the reason.
pub open spec fn bundle_of(
    b: RecallBundle,
    es: Seq<EntryView>,
    id: Seq<char>,
    reason: Seq<char>,
    body_chars: usize,
) -> bool {
    let n = node_of(es[find_id(es, id)->0]);
    let k = if body_chars == 0 { 1 } else { body_chars as int };
    &&& b.id@ == n.metadata.id
    &&& b.node_type@ == n.metadata.node_type
    &&& b.summary@ == summary_spec(n.body)
    &&& b.body_excerpt@ == (if n.body.len() > k { n.body.subrange(0, k) } else { n.body })
    &&& strings_view(b.links@) == n.metadata.links
    &&& strings_view(b.backlinks@) == linkers(index_adjacency(es).outgoing, entry_ids(es), id)
    &&& extra_view(b.metadata@) == n.metadata.extra
    &&& b.relevance_reason@ == reason
}

/// The excerpt of a recall bundle is a prefix of the node's body, at most
/// `max(body_chars, 1)` characters long, and as long as that whenever the body is.
pub proof fn law_recall_excerpt(
    b: RecallBundle,
    es: Seq<EntryView>,
    id: Seq<char>,
    reason: Seq<char>,
    body_chars: usize,
)
    requires
        find_id(es, id) is Some,
        bundle_of(b, es, id, reason, body_chars),
    ensures
        ({
            let body = node_of(es[find_id(es, id)->0]).body;
            let x = b.body_excerpt@;
            let cap = if body_chars >= 1 { body_chars as int } else { 1int };
            &&& x.len() <= cap
            &&& x.len() <= body.len()
            &&& forall|i: int| 0 <= i < x.len() ==> x[i] == body[i]
            &&& (body.len() >= cap ==> x.len() == cap)
            &&& (body.len() < cap ==> x == body)
        }),
{
}

/// Recall bundle for node `id`: its summary, up to `body_chars` (at least one) leading
/// characters of its body, its links and backlinks, its frontmatter extras and the
/// reason it was recalled.
pub fn recall_bundle(index: &GraphIndex, id: &str, reason: String, body_chars: usize) -> (r: Result<RecallBundle>)
    ensures
        find_id(index@.entries, id@) is None ==> (r matches Err(MagGraphError::NodeNotFound { id: e })
            && e@ == id@),
        find_id(index@.entries, id@) is Some ==> (r matches Ok(b) && bundle_of(
            b,
            index@.entries,
            id@,
            reason@,
            body_chars,
        )),
{
    let node = match index.read_node(id) {
        Err(e) => {
            return Err(e);
        },
        Ok(n) => n,
    };
    let backlinks = match index.backlinks(id) {
        Err(e) => {
            return Err(e);
        },
        Ok(b) => b,
    };
    let body = chars_of(node.body.as_str());
    let k = if body_chars == 0 {
        1
    } else {
        body_chars
    };
    let n = if body.len() > k {
        k
    } else {
        body.len()
    };
    let excerpt = string_of(slice_vec(body.as_slice(), 0, n).as_slice());
    proof {
        if body.len() <= k {
            assert(body@.subrange(0, n as int) =~= body@);
        }
    }
    Ok(
        RecallBundle {
            id: node.metadata.id.clone(),
            node_type: node.metadata.node_type.clone(),
            summary: summarize_text(node.body.as_str()),
            body_excerpt: excerpt,
            links: copy_strings(&node.metadata.links),
            backlinks,
            metadata: copy_extra(&node.metadata.extra),
            relevance_reason: reason,
        },
    )
}

} // verus!

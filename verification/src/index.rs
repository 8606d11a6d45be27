//! In-memory index of the graph's nodes, keyed by node id and by relative path.
use vstd::prelude::*;

use crate::error::{MagGraphError, Result};
use crate::node::{
    ExtraView, extra_remove, extra_remove_spec, extra_set, extra_set_spec, written_body, MetaView, NewNode, Node,
    NodeMetadata, NodeView,
};
use crate::yaml::{YamlValue, YamlView};
use crate::query::{summarize_text, summary_spec};
use crate::text::{chars_eq, chars_of, push_str, str_eq, string_of};
use crate::path::{components, components_eq, extension_of, path_components, path_extension};
use crate::security::{relative_path_problem, validate_relative_node_path};

verus! {

/// Index entry for a graph node: metadata, path, body and the body's summary.
#[derive(Debug, PartialEq, Eq)]
pub struct NodeIndexEntry {
    pub metadata: NodeMetadata,
    pub relative_path: String,
    pub body: String,
    pub summary: String,
}

/// Abstract form of an index entry.
pub struct EntryView {
    pub metadata: MetaView,
    pub relative_path: Seq<char>,
    pub body: Seq<char>,
    pub summary: Seq<char>,
}

impl View for NodeIndexEntry {
    type V = EntryView;

    open spec fn view(&self) -> EntryView {
        EntryView {
            metadata: self.metadata@,
            relative_path: self.relative_path@,
            body: self.body@,
            summary: self.summary@,
        }
    }
}

impl NodeIndexEntry {
    pub fn id(&self) -> (r: &str)
        ensures
            r@ == self.metadata.id@,
    {
        self.metadata.id.as_str()
    }

    pub fn body(&self) -> (r: &str)
        ensures
            r@ == self.body@,
    {
        self.body.as_str()
    }
}

/// The entry the index keeps for `node`.
pub open spec fn entry_of(node: NodeView) -> EntryView {
    EntryView {
        metadata: node.metadata,
        relative_path: node.relative_path,
        body: node.body,
        summary: summary_spec(node.body),
    }
}

/// A node as it reads back after being written: a non-empty body ends with a newline.
pub open spec fn as_written(n: NodeView) -> NodeView {
    NodeView { metadata: n.metadata, body: written_body(n.body), relative_path: n.relative_path }
}

/// The node an entry describes.
pub open spec fn node_of(e: EntryView) -> NodeView {
    NodeView { metadata: e.metadata, body: e.body, relative_path: e.relative_path }
}

/// Position of the first entry at or after `k` whose id is `id`.
pub open spec fn find_id_from(es: Seq<EntryView>, id: Seq<char>, k: int) -> Option<int>
    decreases es.len() - k,
{
    if k < 0 || k >= es.len() {
        None
    } else if es[k].metadata.id == id {
        Some(k)
    } else {
        find_id_from(es, id, k + 1)
    }
}

/// Position of the entry whose id is `id`.
pub open spec fn find_id(es: Seq<EntryView>, id: Seq<char>) -> Option<int> {
    find_id_from(es, id, 0)
}

/// Position of the first entry at or after `k` stored at `path`; paths are compared by
/// their components, so `a//b.md` and `a/./b.md` name `a/b.md`.
pub open spec fn find_path_from(es: Seq<EntryView>, path: Seq<char>, k: int) -> Option<int>
    decreases es.len() - k,
{
    if k < 0 || k >= es.len() {
        None
    } else if components(es[k].relative_path) == components(path) {
        Some(k)
    } else {
        find_path_from(es, path, k + 1)
    }
}

/// Position of the entry stored at `path`.
pub open spec fn find_path(es: Seq<EntryView>, path: Seq<char>) -> Option<int> {
    find_path_from(es, path, 0)
}

/// A file at `relative_path` under the graph root holds a node: a `.md` file outside the
/// metadata directory.
pub open spec fn indexed_path(relative_path: Seq<char>) -> bool {
    extension_of(relative_path) == Some("md"@) && !components(relative_path).contains(".maggraph"@)
}

/// Whether a file at `relative_path` is indexed (see [`indexed_path`]).
pub fn is_indexed_path(relative_path: &str) -> (b: bool)
    ensures
        b == indexed_path(relative_path@),
{
    let cs = chars_of(relative_path);
    let is_md = match path_extension(cs.as_slice()) {
        Some(e) => {
            let md = chars_of("md");
            chars_eq(e.as_slice(), md.as_slice())
        },
        None => false,
    };
    if !is_md {
        return false;
    }
    let comps = path_components(cs.as_slice());
    let meta = chars_of(".maggraph");
    let ghost cv = comps@.map_values(|v: Vec<char>| v@);
    let mut i: usize = 0;
    while i < comps.len()
        invariant
            i <= comps.len(),
            cv == comps@.map_values(|v: Vec<char>| v@),
            cv == components(relative_path@),
            meta@ == ".maggraph"@,
            forall|m: int| 0 <= m < i ==> cv[m] != ".maggraph"@,
        decreases comps.len() - i,
    {
        assert(cv[i as int] == comps@[i as int]@);
        if chars_eq(comps[i].as_slice(), meta.as_slice()) {
            return false;
        }
        i = i + 1;
    }
    true
}

/// No two entries share an id or a path, and each summary is that of its body.
pub open spec fn entries_wf(es: Seq<EntryView>) -> bool {
    &&& forall|i: int, j: int|
        0 <= i < j < es.len() ==> (#[trigger] es[i]).metadata.id != (#[trigger] es[j]).metadata.id
    &&& forall|i: int, j: int|
        0 <= i < j < es.len() ==> (#[trigger] es[i]).relative_path != (#[trigger] es[j]).relative_path
    &&& forall|i: int| 0 <= i < es.len() ==> (#[trigger] es[i]).summary == summary_spec(es[i].body)
}

pub proof fn lemma_find_id_from(es: Seq<EntryView>, id: Seq<char>, k: int)
    requires
        0 <= k,
    ensures
        match find_id_from(es, id, k) {
            Some(i) => k <= i < es.len() && es[i].metadata.id == id && forall|m: int|
                k <= m < i ==> es[m].metadata.id != id,
            None => forall|m: int| k <= m < es.len() ==> es[m].metadata.id != id,
        },
    decreases es.len() - k,
{
    if k < es.len() && es[k].metadata.id != id {
        lemma_find_id_from(es, id, k + 1);
    }
}

pub proof fn lemma_find_path_from(es: Seq<EntryView>, path: Seq<char>, k: int)
    requires
        0 <= k,
    ensures
        match find_path_from(es, path, k) {
            Some(i) => k <= i < es.len() && components(es[i].relative_path) == components(path)
                && forall|m: int| k <= m < i ==> components(es[m].relative_path) != components(path),
            None => forall|m: int| k <= m < es.len() ==> components(es[m].relative_path) != components(path),
        },
    decreases es.len() - k,
{
    if k < es.len() && components(es[k].relative_path) != components(path) {
        lemma_find_path_from(es, path, k + 1);
    }
}

/// In a well-formed entry list, the entry found for an id is the only one with it.
pub proof fn lemma_find_id_unique(es: Seq<EntryView>, id: Seq<char>, i: int)
    requires
        entries_wf(es),
        0 <= i < es.len(),
        es[i].metadata.id == id,
    ensures
        find_id(es, id) == Some(i),
{
    lemma_find_id_from(es, id, 0);
    if let Some(j) = find_id(es, id) {
        if j < i {
            assert(es[j].metadata.id != es[i].metadata.id);
        }
    }
}

/// The body as written to disk (see [`written_body`]).
pub fn written_body_exec(body: &str) -> (r: String)
    ensures
        r@ == written_body(body@),
{
    let cs = crate::text::chars_of(body);
    if cs.len() > 0 && cs[cs.len() - 1] != '\n' {
        let mut out: Vec<char> = Vec::new();
        crate::text::extend_chars(&mut out, cs.as_slice());
        out.push('\n');
        string_of(out.as_slice())
    } else {
        body.to_owned()
    }
}

/// Abstract form of a [`GraphIndex`]: its root and its entries in insertion order.
pub struct IndexView {
    pub root: Seq<char>,
    pub entries: Seq<EntryView>,
}

/// In-memory index of markdown nodes under a graph root.
#[derive(Debug, PartialEq, Eq)]
pub struct GraphIndex {
    root_path: String,
    entries: Vec<NodeIndexEntry>,
}

impl View for GraphIndex {
    type V = IndexView;

    closed spec fn view(&self) -> IndexView {
        IndexView { root: self.root_path@, entries: self.entries@.map_values(|e: NodeIndexEntry| e@) }
    }
}

/// Views of a sequence of nodes.
pub open spec fn node_views(s: Seq<Node>) -> Seq<NodeView> {
    s.map_values(|n: Node| n@)
}

/// Outcome of inserting scanned `nodes` one after another into entries `es`: the new
/// entries, or the first duplicate id or path met.
pub open spec fn scan_outcome(es: Seq<EntryView>, nodes: Seq<NodeView>) -> core::result::Result<
    Seq<EntryView>,
    (NodeView, EntryView),
>
    decreases nodes.len(),
{
    if nodes.len() == 0 {
        Ok(es)
    } else {
        match scan_outcome(es, nodes.drop_last()) {
            Err(e) => Err(e),
            Ok(prev) => {
                let n = nodes.last();
                match find_id(prev, n.metadata.id) {
                    Some(i) => Err((n, prev[i])),
                    None => match find_path(prev, n.relative_path) {
                        Some(i) => Err((n, prev[i])),
                        None => Ok(prev.push(entry_of(n))),
                    },
                }
            },
        }
    }
}

/// Once inserting a prefix of the scanned nodes fails, the whole scan fails the same way.
pub proof fn lemma_scan_err_persists(es: Seq<EntryView>, nodes: Seq<NodeView>, j: int)
    requires
        0 <= j <= nodes.len(),
        scan_outcome(es, nodes.take(j)) is Err,
    ensures
        scan_outcome(es, nodes) == scan_outcome(es, nodes.take(j)),
    decreases nodes.len() - j,
{
    if j < nodes.len() {
        assert(nodes.take(j + 1).drop_last() =~= nodes.take(j));
        lemma_scan_err_persists(es, nodes, j + 1);
    } else {
        assert(nodes.take(j) =~= nodes);
    }
}

/// The error reported for a scanned node `n` that clashes with entry `e`.
pub open spec fn clash_error(err: MagGraphError, n: NodeView, e: EntryView) -> bool {
    if e.metadata.id == n.metadata.id {
        err matches MagGraphError::DuplicateNodeId { id, first, second } && id@ == n.metadata.id
            && first@ == e.relative_path && second@ == n.relative_path
    } else {
        err matches MagGraphError::Index(m) && m@ == "path "@ + n.relative_path
            + " is already indexed as node `"@ + e.metadata.id + "`"@
    }
}

impl GraphIndex {
    #[verifier::type_invariant]
    closed spec fn inv(self) -> bool {
        entries_wf(self.entries@.map_values(|e: NodeIndexEntry| e@))
    }

    /// An empty index rooted at `root_path`.
    pub fn new(root_path: String) -> (r: GraphIndex)
        ensures
            r@.root == root_path@,
            r@.entries == Seq::<EntryView>::empty(),
    {
        let r = GraphIndex { root_path, entries: Vec::new() };
        assert(r.entries@.map_values(|e: NodeIndexEntry| e@) =~= Seq::<EntryView>::empty());
        r
    }

    pub fn root_path(&self) -> (r: &str)
        ensures
            r@ == self@.root,
    {
        self.root_path.as_str()
    }

    pub fn len(&self) -> (n: usize)
        ensures
            n == self@.entries.len(),
    {
        self.entries.len()
    }

    pub fn is_empty(&self) -> (b: bool)
        ensures
            b == (self@.entries.len() == 0),
    {
        self.entries.len() == 0
    }

    /// The entries, in insertion order.
    pub fn iter(&self) -> (r: &[NodeIndexEntry])
        ensures
            r@.map_values(|e: NodeIndexEntry| e@) == self@.entries,
            entries_wf(self@.entries),
    {
        proof {
            use_type_invariant(self);
        }
        self.entries.as_slice()
    }

    fn position(&self, id: &str) -> (r: Option<usize>)
        ensures
            match r {
                Some(i) => find_id(self@.entries, id@) == Some(i as int) && i < self.entries.len(),
                None => find_id(self@.entries, id@) is None,
            },
    {
        let ghost es = self@.entries;
        let mut i: usize = 0;
        while i < self.entries.len()
            invariant
                i <= self.entries.len(),
                es == self@.entries,
                es.len() == self.entries.len(),
                find_id(es, id@) == find_id_from(es, id@, i as int),
            decreases self.entries.len() - i,
        {
            assert(es[i as int] == self.entries@[i as int]@);
            if str_eq(self.entries[i].metadata.id.as_str(), id) {
                return Some(i);
            }
            i = i + 1;
        }
        None
    }

    fn path_position(&self, path: &str) -> (r: Option<usize>)
        ensures
            match r {
                Some(i) => find_path(self@.entries, path@) == Some(i as int) && i < self.entries.len(),
                None => find_path(self@.entries, path@) is None,
            },
    {
        let ghost es = self@.entries;
        let pc = path_components(chars_of(path).as_slice());
        let mut i: usize = 0;
        while i < self.entries.len()
            invariant
                i <= self.entries.len(),
                es == self@.entries,
                es.len() == self.entries.len(),
                pc@.map_values(|v: Vec<char>| v@) == components(path@),
                find_path(es, path@) == find_path_from(es, path@, i as int),
            decreases self.entries.len() - i,
        {
            assert(es[i as int] == self.entries@[i as int]@);
            let ec = path_components(chars_of(self.entries[i].relative_path.as_str()).as_slice());
            if components_eq(&ec, &pc) {
                return Some(i);
            }
            i = i + 1;
        }
        None
    }

    pub fn contains(&self, id: &str) -> (b: bool)
        ensures
            b == (find_id(self@.entries, id@) is Some),
    {
        self.position(id).is_some()
    }

    pub fn get(&self, id: &str) -> (r: Option<&NodeIndexEntry>)
        ensures
            match find_id(self@.entries, id@) {
                Some(i) => r matches Some(e) && e@ == self@.entries[i],
                None => r is None,
            },
    {
        match self.position(id) {
            Some(i) => Some(&self.entries[i]),
            None => None,
        }
    }

    /// Read the full node (metadata, body and path) by id.
    pub fn read_node(&self, id: &str) -> (r: Result<Node>)
        ensures
            match find_id(self@.entries, id@) {
                Some(i) => r matches Ok(n) && n@ == node_of(self@.entries[i]),
                None => r matches Err(MagGraphError::NodeNotFound { id: e }) && e@ == id@,
            },
    {
        match self.position(id) {
            Some(i) => {
                let e = &self.entries[i];
                Ok(
                    Node {
                        metadata: e.metadata.duplicate(),
                        body: e.body.clone(),
                        relative_path: e.relative_path.clone(),
                    },
                )
            },
            None => Err(MagGraphError::NodeNotFound { id: id.to_owned() }),
        }
    }

    /// Add an entry for `node`, refusing a duplicate id or path.
    pub fn insert_entry(&mut self, node: Node) -> (r: Result<()>)
        ensures
            final(self)@.root == old(self)@.root,
            match find_id(old(self)@.entries, node@.metadata.id) {
                Some(i) => r matches Err(e) && clash_error(e, node@, old(self)@.entries[i])
                    && final(self)@ == old(self)@,
                None => match find_path(old(self)@.entries, node@.relative_path) {
                    Some(i) => r matches Err(e) && clash_error(e, node@, old(self)@.entries[i])
                        && final(self)@ == old(self)@,
                    None => r is Ok && final(self)@.entries == old(self)@.entries.push(
                        entry_of(node@),
                    ),
                },
            },
    {
        proof {
            use_type_invariant(&*self);
        }
        let ghost es = self@.entries;
        proof {
            lemma_find_id_from(es, node@.metadata.id, 0);
            lemma_find_path_from(es, node@.relative_path, 0);
        }
        if let Some(i) = self.position(node.metadata.id.as_str()) {
            let first = self.entries[i].relative_path.clone();
            return Err(
                MagGraphError::DuplicateNodeId {
                    id: node.metadata.id.clone(),
                    first,
                    second: node.relative_path.clone(),
                },
            );
        }
        if let Some(i) = self.path_position(node.relative_path.as_str()) {
            proof {
                lemma_find_id_from(es, node@.metadata.id, 0);
                lemma_find_path_from(es, node@.relative_path, 0);
            }
            let mut out: Vec<char> = Vec::new();
            push_str(&mut out, "path ");
            push_str(&mut out, node.relative_path.as_str());
            push_str(&mut out, " is already indexed as node `");
            push_str(&mut out, self.entries[i].metadata.id.as_str());
            push_str(&mut out, "`");
            return Err(MagGraphError::Index(string_of(out.as_slice())));
        }
        proof {
            lemma_find_id_from(es, node@.metadata.id, 0);
            lemma_find_path_from(es, node@.relative_path, 0);
        }
        let summary = summarize_text(node.body.as_str());
        let entry = NodeIndexEntry {
            metadata: node.metadata,
            relative_path: node.relative_path,
            body: node.body,
            summary,
        };
        assert(entry@ == entry_of(node@));
        let mut entries: Vec<NodeIndexEntry> = Vec::new();
        std::mem::swap(&mut entries, &mut self.entries);
        entries.push(entry);
        assert(entries@.map_values(|e: NodeIndexEntry| e@) =~= es.push(entry_of(node@)));
        self.entries = entries;
        Ok(())
    }

    /// An index rooted at `root_path` holding the scanned `nodes`, inserted in order.
    pub fn from_scanned(root_path: String, nodes: Vec<Node>) -> (r: Result<GraphIndex>)
        ensures
            match scan_outcome(Seq::empty(), node_views(nodes@)) {
                Ok(es) => r matches Ok(ix) && ix@.root == root_path@ && ix@.entries == es,
                Err((n, e)) => r matches Err(err) && clash_error(err, n, e),
            },
    {
        let mut index = GraphIndex::new(root_path);
        let ghost nv = node_views(nodes@);
        let ghost root = index@.root;
        let mut rest = nodes;
        let total = rest.len();
        let mut k: usize = 0;
        while rest.len() > 0
            invariant
                k + rest.len() == nv.len(),
                nv.len() == total,
                nv == node_views(nodes@),
                root == root_path@,
                forall|m: int| 0 <= m < rest.len() ==> (#[trigger] rest@[m])@ == nv[k + m],
                index@.root == root,
                scan_outcome(Seq::empty(), nv.take(k as int)) == Ok::<Seq<EntryView>, (NodeView, EntryView)>(index@.entries),
            decreases rest.len(),
        {
            let node = rest.remove(0);
            let ghost nview = node@;
            assert(nview == nv[k as int]);
            assert(nv.take(k + 1).drop_last() =~= nv.take(k as int));
            assert(nv.take(k + 1).last() == nview);
            let ghost before = index@.entries;
            match index.insert_entry(node) {
                Err(e) => {
                    proof {
                        let out = scan_outcome(Seq::empty(), nv.take(k + 1));
                        lemma_find_id_from(before, nview.metadata.id, 0);
                        lemma_find_path_from(before, nview.relative_path, 0);
                        lemma_scan_err_persists(Seq::empty(), nv, k + 1);
                        match find_id(before, nview.metadata.id) {
                            Some(i) => {
                                assert(out == Err::<Seq<EntryView>, (NodeView, EntryView)>((nview, before[i])));
                                assert(clash_error(e, nview, before[i]));
                            },
                            None => match find_path(before, nview.relative_path) {
                                Some(i) => {
                                    assert(out == Err::<Seq<EntryView>, (NodeView, EntryView)>((nview, before[i])));
                                    assert(clash_error(e, nview, before[i]));
                                },
                                None => {},
                            },
                        }

                    }
                    return Err(e);
                },
                Ok(()) => {},
            }
            k = k + 1;
        }
        assert(nv.take(k as int) =~= nv);
        Ok(index)
    }

    /// Create a new node in the index. `target_exists` tells whether a file already
    /// exists at the node's path under the graph root; the caller writes the file.
    pub fn create_node(&mut self, new_node: NewNode, target_exists: bool) -> (r: Result<Node>)
        ensures
            final(self)@.root == old(self)@.root,
            relative_path_problem(new_node.relative_path@) matches Some(m) ==> (r matches Err(
                MagGraphError::Index(e),
            ) && e@ == m && final(self)@ == old(self)@),
            relative_path_problem(new_node.relative_path@) is None && find_id(old(self)@.entries, new_node.metadata@.id) is Some ==> (r matches Err(
                MagGraphError::NodeAlreadyExists { id, path },
            ) && id@ == new_node.metadata@.id && path@ == new_node.relative_path@
                && final(self)@ == old(self)@),
            relative_path_problem(new_node.relative_path@) is None && find_id(old(self)@.entries, new_node.metadata@.id) is None && find_path(
                old(self)@.entries,
                new_node.relative_path@,
            ) is Some ==> (r matches Err(MagGraphError::Index(m)) && m@ == "a node already exists at path "@
                + new_node.relative_path@ && final(self)@ == old(self)@),
            relative_path_problem(new_node.relative_path@) is None && find_id(old(self)@.entries, new_node.metadata@.id) is None && find_path(
                old(self)@.entries,
                new_node.relative_path@,
            ) is None && target_exists ==> (r matches Err(
                MagGraphError::NodeAlreadyExists { id, path },
            ) && id@ == new_node.metadata@.id && path@ == new_node.relative_path@
                && final(self)@ == old(self)@),
            relative_path_problem(new_node.relative_path@) is None && find_id(old(self)@.entries, new_node.metadata@.id) is None && find_path(
                old(self)@.entries,
                new_node.relative_path@,
            ) is None && !target_exists ==> (r matches Ok(n) && n@ == (NodeView {
                metadata: new_node.metadata@,
                body: new_node.body@,
                relative_path: new_node.relative_path@,
            }) && final(self)@.entries == old(self)@.entries.push(entry_of(as_written(n@)))),
    {
        if let Err(e) = validate_relative_node_path(new_node.relative_path.as_str()) {
            return Err(e);
        }
        let node = new_node.into_node();
        if self.contains(node.metadata.id.as_str()) {
            return Err(
                MagGraphError::NodeAlreadyExists {
                    id: node.metadata.id.clone(),
                    path: node.relative_path.clone(),
                },
            );
        }
        if self.path_position(node.relative_path.as_str()).is_some() {
            let mut out: Vec<char> = Vec::new();
            push_str(&mut out, "a node already exists at path ");
            push_str(&mut out, node.relative_path.as_str());
            return Err(MagGraphError::Index(string_of(out.as_slice())));
        }
        if target_exists {
            return Err(
                MagGraphError::NodeAlreadyExists {
                    id: node.metadata.id.clone(),
                    path: node.relative_path.clone(),
                },
            );
        }
        let copy = Node {
            metadata: node.metadata.duplicate(),
            body: written_body_exec(node.body.as_str()),
            relative_path: node.relative_path.clone(),
        };
        let _ = self.insert_entry(copy);
        Ok(node)
    }

    /// Replace the indexed node that has `node`'s id; its path may not change.
    pub fn update_node(&mut self, node: Node) -> (r: Result<()>)
        ensures
            final(self)@.root == old(self)@.root,
            match find_id(old(self)@.entries, node@.metadata.id) {
                None => r matches Err(MagGraphError::NodeNotFound { id }) && id@ == node@.metadata.id
                    && final(self)@ == old(self)@,
                Some(i) => if old(self)@.entries[i].relative_path != node@.relative_path {
                    r matches Err(MagGraphError::Index(m)) && m@ == "cannot change node path for id "@
                        + node@.metadata.id + " from "@ + old(self)@.entries[i].relative_path
                        + " to "@ + node@.relative_path && final(self)@ == old(self)@
                } else {
                    r is Ok && final(self)@.entries == old(self)@.entries.update(
                        i,
                        entry_of(as_written(node@)),
                    )
                },
            },
    {
        proof {
            use_type_invariant(&*self);
        }
        let ghost es = self@.entries;
        let i = match self.position(node.metadata.id.as_str()) {
            None => {
                return Err(MagGraphError::NodeNotFound { id: node.metadata.id.clone() });
            },
            Some(i) => i,
        };
        proof {
            lemma_find_id_from(es, node@.metadata.id, 0);
        }
        if self.entries[i].relative_path != node.relative_path {
            let mut out: Vec<char> = Vec::new();
            push_str(&mut out, "cannot change node path for id ");
            push_str(&mut out, node.metadata.id.as_str());
            push_str(&mut out, " from ");
            push_str(&mut out, self.entries[i].relative_path.as_str());
            push_str(&mut out, " to ");
            push_str(&mut out, node.relative_path.as_str());
            return Err(MagGraphError::Index(string_of(out.as_slice())));
        }
        let body = written_body_exec(node.body.as_str());
        let summary = summarize_text(body.as_str());
        let entry = NodeIndexEntry {
            metadata: node.metadata,
            relative_path: node.relative_path,
            body,
            summary,
        };
        let mut entries: Vec<NodeIndexEntry> = Vec::new();
        std::mem::swap(&mut entries, &mut self.entries);
        entries.set(i, entry);
        let ghost nes = entries@.map_values(|e: NodeIndexEntry| e@);
        assert(nes =~= es.update(i as int, entry_of(as_written(node@))));
        assert(entries_wf(nes)) by {
            assert forall|a: int, b: int| 0 <= a < b < nes.len() implies nes[a].metadata.id
                != nes[b].metadata.id && nes[a].relative_path != nes[b].relative_path by {
                if a == i {
                    assert(es[a].metadata.id != es[b].metadata.id);
                    assert(es[a].relative_path != es[b].relative_path);
                } else if b == i {
                    assert(es[a].metadata.id != es[b].metadata.id);
                    assert(es[a].relative_path != es[b].relative_path);
                }
            }
        }
        self.entries = entries;
        Ok(())
    }

    /// Remove the node with `id` from the index; the caller removes its file.
    pub fn delete_node(&mut self, id: &str) -> (r: Result<()>)
        ensures
            final(self)@.root == old(self)@.root,
            match find_id(old(self)@.entries, id@) {
                None => r matches Err(MagGraphError::NodeNotFound { id: e }) && e@ == id@
                    && final(self)@ == old(self)@,
                Some(i) => r is Ok && final(self)@.entries == old(self)@.entries.remove(i),
            },
    {
        proof {
            use_type_invariant(&*self);
        }
        let ghost es = self@.entries;
        let i = match self.position(id) {
            None => {
                return Err(MagGraphError::NodeNotFound { id: id.to_owned() });
            },
            Some(i) => i,
        };
        let mut entries: Vec<NodeIndexEntry> = Vec::new();
        std::mem::swap(&mut entries, &mut self.entries);
        let _ = entries.remove(i);
        let ghost nes = entries@.map_values(|e: NodeIndexEntry| e@);
        assert(nes =~= es.remove(i as int));
        assert(entries_wf(nes)) by {
            assert forall|a: int, b: int| 0 <= a < b < nes.len() implies nes[a].metadata.id
                != nes[b].metadata.id && nes[a].relative_path != nes[b].relative_path by {
                let a0 = if a < i { a } else { a + 1 };
                let b0 = if b < i { b } else { b + 1 };
                assert(nes[a] == es[a0]);
                assert(nes[b] == es[b0]);
            }
        }
        self.entries = entries;
        Ok(())
    }
}

/// Some entry has id `x`.
pub open spec fn has_id(es: Seq<EntryView>, x: Seq<char>) -> bool {
    exists|j: int| 0 <= j < es.len() && (#[trigger] es[j]).metadata.id == x
}

pub proof fn lemma_has_id(es: Seq<EntryView>, x: Seq<char>)
    ensures
        has_id(es, x) <==> find_id(es, x) is Some,
{
    lemma_find_id_from(es, x, 0);
    if let Some(i) = find_id(es, x) {
        assert(es[i].metadata.id == x);
    }
}

/// Replacing an entry by one with the same id keeps the set of ids.
pub proof fn lemma_has_id_update(es: Seq<EntryView>, i: int, e: EntryView, x: Seq<char>)
    requires
        0 <= i < es.len(),
        e.metadata.id == es[i].metadata.id,
    ensures
        has_id(es.update(i, e), x) == has_id(es, x),
{
    let es2 = es.update(i, e);
    if has_id(es, x) {
        let j = choose|j: int| 0 <= j < es.len() && (#[trigger] es[j]).metadata.id == x;
        assert(es2[j].metadata.id == x);
    }
    if has_id(es2, x) {
        let j = choose|j: int| 0 <= j < es2.len() && (#[trigger] es2[j]).metadata.id == x;
        assert(es[j].metadata.id == x);
    }
}

/// Removing entry `i` of a well-formed list removes exactly its id.
pub proof fn lemma_has_id_remove(es: Seq<EntryView>, i: int, x: Seq<char>)
    requires
        entries_wf(es),
        0 <= i < es.len(),
    ensures
        has_id(es.remove(i), x) == (has_id(es, x) && x != es[i].metadata.id),
{
    let es2 = es.remove(i);
    if has_id(es, x) && x != es[i].metadata.id {
        let j = choose|j: int| 0 <= j < es.len() && (#[trigger] es[j]).metadata.id == x;
        if j < i {
            assert(es2[j] == es[j]);
        } else {
            assert(es2[j - 1] == es[j]);
        }
    }
    if has_id(es2, x) {
        let j = choose|j: int| 0 <= j < es2.len() && (#[trigger] es2[j]).metadata.id == x;
        let j0 = if j < i { j } else { j + 1 };
        assert(es2[j] == es[j0]);
        if j0 < i {
            assert(es[j0].metadata.id != es[i].metadata.id);
        } else {
            assert(es[i].metadata.id != es[j0].metadata.id);
        }
    }
}

/// `n` with its frontmatter extras replaced by `extra`.
pub open spec fn with_extra(n: NodeView, extra: ExtraView) -> NodeView {
    NodeView {
        metadata: MetaView { extra, ..n.metadata },
        body: n.body,
        relative_path: n.relative_path,
    }
}

/// Extras of a suppressed node: `suppressed: true`, and the reason when given.
pub open spec fn suppressed_extra(es: ExtraView, reason: Option<Seq<char>>) -> ExtraView {
    let e1 = extra_set_spec(es, "suppressed"@, YamlView::Bool(true));
    match reason {
        Some(r) => extra_set_spec(e1, "suppressed_reason"@, YamlView::Str(r)),
        None => e1,
    }
}

/// Extras of an unsuppressed node: no `suppressed` flag and no reason.
pub open spec fn unsuppressed_extra(es: ExtraView) -> ExtraView {
    extra_remove_spec(extra_remove_spec(es, "suppressed"@), "suppressed_reason"@)
}

/// Links of a merge target: its own, then the source's that it lacks (other than itself).
pub open spec fn merged_links(target: Seq<Seq<char>>, target_id: Seq<char>, source: Seq<Seq<char>>) -> Seq<Seq<char>>
    decreases source.len(),
{
    if source.len() == 0 {
        target
    } else {
        let prev = merged_links(target, target_id, source.drop_last());
        let l = source.last();
        if l == target_id || prev.contains(l) {
            prev
        } else {
            prev.push(l)
        }
    }
}

/// The merge target `t` after absorbing the links of `source_links` (see [`merged_links`]).
pub open spec fn merged_node(t: NodeView, target_id: Seq<char>, source_links: Seq<Seq<char>>) -> NodeView {
    NodeView {
        metadata: MetaView { links: merged_links(t.metadata.links, target_id, source_links), ..t.metadata },
        body: t.body,
        relative_path: t.relative_path,
    }
}

impl GraphIndex {
    /// Mark a node suppressed (hidden from search unless asked for), with an optional
    /// reason.
    pub fn suppress_node(&mut self, id: &str, reason: Option<&str>) -> (r: Result<()>)
        ensures
            final(self)@.root == old(self)@.root,
            match find_id(old(self)@.entries, id@) {
                None => r matches Err(MagGraphError::NodeNotFound { id: e }) && e@ == id@
                    && final(self)@ == old(self)@,
                Some(i) => r is Ok && final(self)@.entries == old(self)@.entries.update(
                    i,
                    entry_of(as_written(with_extra(
                        node_of(old(self)@.entries[i]),
                        suppressed_extra(old(self)@.entries[i].metadata.extra, match reason {
                            Some(t) => Some(t@),
                            None => None,
                        }),
                    ))),
                ),
            },
    {
        let mut node = match self.read_node(id) {
            Err(e) => {
                return Err(e);
            },
            Ok(n) => n,
        };
        let ghost before = node@;
        proof {
            reveal_strlit("suppressed");
        }
        extra_set(&mut node.metadata.extra, "suppressed".to_owned(), YamlValue::Bool(true));
        match reason {
            Some(t) => extra_set(
                &mut node.metadata.extra,
                "suppressed_reason".to_owned(),
                YamlValue::String(t.to_owned()),
            ),
            None => {},
        }
        let ghost i = find_id(self@.entries, id@)->0;
        proof {
            lemma_find_id_from(self@.entries, id@, 0);
        }
        assert(node@ == with_extra(before, node@.metadata.extra));
        let r = self.update_node(node);
        r
    }

    /// Clear a node's suppression flag and reason.
    pub fn unsuppress_node(&mut self, id: &str) -> (r: Result<()>)
        ensures
            final(self)@.root == old(self)@.root,
            match find_id(old(self)@.entries, id@) {
                None => r matches Err(MagGraphError::NodeNotFound { id: e }) && e@ == id@
                    && final(self)@ == old(self)@,
                Some(i) => r is Ok && final(self)@.entries == old(self)@.entries.update(
                    i,
                    entry_of(as_written(with_extra(
                        node_of(old(self)@.entries[i]),
                        unsuppressed_extra(old(self)@.entries[i].metadata.extra),
                    ))),
                ),
            },
    {
        let mut node = match self.read_node(id) {
            Err(e) => {
                return Err(e);
            },
            Ok(n) => n,
        };
        let ghost before = node@;
        extra_remove(&mut node.metadata.extra, "suppressed");
        extra_remove(&mut node.metadata.extra, "suppressed_reason");
        proof {
            lemma_find_id_from(self@.entries, id@, 0);
        }
        assert(node@ == with_extra(before, node@.metadata.extra));
        self.update_node(node)
    }

    /// Merge `source_id` into `target_id`: the target gains the source's links it lacks,
    /// and the source node is removed.
    #[verifier::loop_isolation(false)]
    pub fn merge_nodes(&mut self, target_id: &str, source_id: &str) -> (r: Result<()>)
        ensures
            final(self)@.root == old(self)@.root,
            target_id@ == source_id@ ==> (r matches Err(MagGraphError::Index(m)) && m@
                == "cannot merge a node into itself"@ && final(self)@ == old(self)@),
            target_id@ != source_id@ && find_id(old(self)@.entries, target_id@) is None ==> (r matches Err(
                MagGraphError::NodeNotFound { id },
            ) && id@ == target_id@ && final(self)@ == old(self)@),
            target_id@ != source_id@ && find_id(old(self)@.entries, target_id@) is Some && find_id(
                old(self)@.entries,
                source_id@,
            ) is None ==> (r matches Err(MagGraphError::NodeNotFound { id }) && id@ == source_id@
                && final(self)@ == old(self)@),
            target_id@ != source_id@ && find_id(old(self)@.entries, target_id@) is Some && find_id(
                old(self)@.entries,
                source_id@,
            ) is Some ==> r is Ok && find_id(final(self)@.entries, source_id@) is None
                && final(self)@.entries.len() == old(self)@.entries.len() - 1 && (forall|x: Seq<char>|
                #[trigger] has_id(final(self)@.entries, x) == (has_id(old(self)@.entries, x) && x
                    != source_id@)) && final(self)@.entries == old(self)@.entries.update(
                find_id(old(self)@.entries, target_id@)->0,
                entry_of(
                    as_written(
                        merged_node(
                            node_of(old(self)@.entries[find_id(old(self)@.entries, target_id@)->0]),
                            target_id@,
                            old(self)@.entries[find_id(old(self)@.entries, source_id@)->0].metadata.links,
                        ),
                    ),
                ),
            ).remove(find_id(old(self)@.entries, source_id@)->0),
    {
        if crate::text::str_eq(target_id, source_id) {
            return Err(MagGraphError::Index("cannot merge a node into itself".to_owned()));
        }
        let mut target = match self.read_node(target_id) {
            Err(e) => {
                return Err(e);
            },
            Ok(n) => n,
        };
        let source = match self.read_node(source_id) {
            Err(e) => {
                return Err(e);
            },
            Ok(n) => n,
        };
        let ghost t0 = target@;
        let ghost sl = source@.metadata.links;
        let mut k: usize = 0;
        assert(sl.take(0) =~= Seq::<Seq<char>>::empty());
        while k < source.metadata.links.len()
            invariant
                k <= source.metadata.links.len(),
                sl == source@.metadata.links,
                target@ == merged_node(t0, target_id@, sl.take(k as int)),
            decreases source.metadata.links.len() - k,
        {
            let l = &source.metadata.links[k];
            let ghost before = target@;
            assert(sl.take(k + 1).drop_last() =~= sl.take(k as int));
            assert(sl.take(k + 1).last() == l@);
            if !crate::text::str_eq(l.as_str(), target_id) && !crate::wikilink::contains_string(&target.metadata.links, l) {
                target.metadata.links.push(l.clone());
                assert(crate::node::strings_view(target.metadata.links@) =~= before.metadata.links.push(l@));
            }
            k = k + 1;
            assert(target@.metadata =~= merged_node(t0, target_id@, sl.take(k as int)).metadata);
        }
        assert(sl.take(source.metadata.links.len() as int) =~= sl);
        proof {
            use_type_invariant(&*self);
            lemma_find_id_from(self@.entries, target_id@, 0);
            lemma_find_id_from(self@.entries, source_id@, 0);
        }
        let ghost js = find_id(self@.entries, source_id@)->0;
        let ghost it = find_id(self@.entries, target_id@)->0;
        let _ = self.update_node(target);
        let ghost mid = self@.entries;
        proof {
            use_type_invariant(&*self);
            assert(mid[js] == old(self)@.entries[js]);
            lemma_find_id_from(mid, source_id@, 0);
            law_delete_removes(mid, source_id@);
        }
        let r = self.delete_node(source_id);
        proof {
            let k = find_id(mid, source_id@)->0;
            lemma_find_id_from(mid, source_id@, 0);
            lemma_find_id_unique(mid, source_id@, js);
            assert forall|x: Seq<char>| #[trigger] has_id(self@.entries, x) == (has_id(old(self)@.entries, x) && x
                != source_id@) by {
                lemma_has_id_update(old(self)@.entries, it, mid[it], x);
                assert(mid == old(self)@.entries.update(it, mid[it]));
                lemma_has_id_remove(mid, k, x);
            }
        }
        r
    }
}

/// A created node can be read back: after adding the entry for a node whose id is new,
/// looking up its id finds that node as written (its body ending with a line break).
pub proof fn law_read_after_create(es: Seq<EntryView>, n: NodeView)
    requires
        find_id(es, n.metadata.id) is None,
    ensures
        find_id(es.push(entry_of(as_written(n))), n.metadata.id) == Some(es.len() as int),
        node_of(es.push(entry_of(as_written(n)))[es.len() as int]) == as_written(n),
{
    lemma_find_id_from(es, n.metadata.id, 0);
    let es2 = es.push(entry_of(as_written(n)));
    lemma_find_id_from(es2, n.metadata.id, 0);
    if let Some(j) = find_id(es2, n.metadata.id) {
        if j < es.len() {
            assert(es2[j] == es[j]);
        }
    }
}

/// An updated node can be read back: replacing the entry that holds a node's id
/// makes lookups of that id give the new node as written.
pub proof fn law_read_after_update(es: Seq<EntryView>, i: int, n: NodeView)
    requires
        entries_wf(es),
        0 <= i < es.len(),
        es[i].metadata.id == n.metadata.id,
    ensures
        find_id(es.update(i, entry_of(as_written(n))), n.metadata.id) == Some(i),
        node_of(es.update(i, entry_of(as_written(n)))[i]) == as_written(n),
{
    let es2 = es.update(i, entry_of(as_written(n)));
    lemma_find_id_from(es2, n.metadata.id, 0);
    if let Some(j) = find_id(es2, n.metadata.id) {
        if j < i {
            assert(es2[j] == es[j]);
            assert(es[j].metadata.id != es[i].metadata.id);
        }
    }
}

/// A deleted node is gone: removing the entry that holds an id leaves no entry with
/// that id, and one entry fewer.
pub proof fn law_delete_removes(es: Seq<EntryView>, id: Seq<char>)
    requires
        entries_wf(es),
        find_id(es, id) is Some,
    ensures
        find_id(es.remove(find_id(es, id)->0), id) is None,
        es.remove(find_id(es, id)->0).len() == es.len() - 1,
{
    lemma_find_id_from(es, id, 0);
    let i = find_id(es, id)->0;
    let es2 = es.remove(i);
    lemma_find_id_from(es2, id, 0);
    if let Some(j) = find_id(es2, id) {
        let j0 = if j < i { j } else { j + 1 };
        assert(es2[j] == es[j0]);
        if j0 < i {
            assert(es[j0].metadata.id != es[i].metadata.id);
        } else {
            assert(es[i].metadata.id != es[j0].metadata.id);
        }
    }
}

} // verus!

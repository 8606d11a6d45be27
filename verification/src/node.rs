//! Graph nodes: Markdown files whose YAML frontmatter carries the node's metadata.
use vstd::prelude::*;

use crate::text::{
    chars_of, find_at_or_after, find_from, lemma_find_from_props, push_str, slice_vec,
    starts_with, starts_with_exec, strip_leading, strip_leading_start, string_of, trim,
    trim_bounds, trim_end, trim_end_len, extend_chars, is_blank,
};
use crate::order::{seq_lt, str_lt};
use crate::yaml::{YamlValue, YamlView};

verus! {

/// Metadata stored in a node's YAML frontmatter.
///
/// `extra` holds every other top-level key, in key order, each key once.
#[derive(Debug, PartialEq, Eq)]
pub struct NodeMetadata {
    pub id: String,
    pub node_type: String,
    /// External asset URI (`source` or `source_uri` in frontmatter).
    pub source: Option<String>,
    pub links: Vec<String>,
    pub extra: Vec<(String, YamlValue)>,
}

/// Abstract form of [`NodeMetadata`].
pub struct MetaView {
    pub id: Seq<char>,
    pub node_type: Seq<char>,
    pub source: Option<Seq<char>>,
    pub links: Seq<Seq<char>>,
    pub extra: Seq<(Seq<char>, YamlView)>,
}

pub open spec fn opt_str_view(o: Option<String>) -> Option<Seq<char>> {
    match o {
        Some(s) => Some(s@),
        None => None,
    }
}

pub open spec fn strings_view(v: Seq<String>) -> Seq<Seq<char>> {
    v.map_values(|s: String| s@)
}

pub open spec fn extra_view(v: Seq<(String, YamlValue)>) -> Seq<(Seq<char>, YamlView)> {
    v.map_values(|p: (String, YamlValue)| (p.0@, p.1@))
}

impl View for NodeMetadata {
    type V = MetaView;

    open spec fn view(&self) -> MetaView {
        MetaView {
            id: self.id@,
            node_type: self.node_type@,
            source: opt_str_view(self.source),
            links: strings_view(self.links@),
            extra: extra_view(self.extra@),
        }
    }
}

/// A copy of a string list with the same contents.
pub fn copy_strings(v: &Vec<String>) -> (r: Vec<String>)
    ensures
        strings_view(r@) == strings_view(v@),
{
    let mut out: Vec<String> = Vec::new();
    let mut i: usize = 0;
    while i < v.len()
        invariant
            i <= v.len(),
            out@.len() == i,
            forall|j: int| 0 <= j < i ==> (#[trigger] out@[j])@ == v@[j]@,
        decreases v.len() - i,
    {
        out.push(v[i].clone());
        i = i + 1;
    }
    assert(strings_view(out@) =~= strings_view(v@));
    out
}

/// A copy of frontmatter extras with the same contents.
pub fn copy_extra(v: &Vec<(String, YamlValue)>) -> (r: Vec<(String, YamlValue)>)
    ensures
        extra_view(r@) == extra_view(v@),
{
    let mut out: Vec<(String, YamlValue)> = Vec::new();
    let mut i: usize = 0;
    while i < v.len()
        invariant
            i <= v.len(),
            out@.len() == i,
            forall|j: int|
                0 <= j < i ==> (#[trigger] out@[j]).0@ == v@[j].0@ && out@[j].1@ == v@[j].1@,
        decreases v.len() - i,
    {
        let k = v[i].0.clone();
        let d = v[i].1.duplicate();
        out.push((k, d));
        i = i + 1;
    }
    assert(extra_view(out@) =~= extra_view(v@));
    out
}

impl NodeMetadata {
    /// A copy with the same abstract value.
    pub fn duplicate(&self) -> (r: NodeMetadata)
        ensures
            r@ == self@,
    {
        let source = match &self.source {
            Some(s) => Some(s.clone()),
            None => None,
        };
        NodeMetadata {
            id: self.id.clone(),
            node_type: self.node_type.clone(),
            source,
            links: copy_strings(&self.links),
            extra: copy_extra(&self.extra),
        }
    }
}

/// A markdown graph node: frontmatter metadata plus body content.
#[derive(Debug, PartialEq, Eq)]
pub struct Node {
    pub metadata: NodeMetadata,
    pub body: String,
    /// Path relative to the graph root (e.g. `welcome.md`).
    pub relative_path: String,
}

/// Abstract form of a [`Node`]: metadata, body and relative path.
pub struct NodeView {
    pub metadata: MetaView,
    pub body: Seq<char>,
    pub relative_path: Seq<char>,
}

impl View for Node {
    type V = NodeView;

    open spec fn view(&self) -> NodeView {
        NodeView { metadata: self.metadata@, body: self.body@, relative_path: self.relative_path@ }
    }
}

impl Node {
    pub fn id(&self) -> (r: &str)
        ensures
            r@ == self.metadata.id@,
    {
        self.metadata.id.as_str()
    }

    /// A copy with the same abstract value.
    pub fn duplicate(&self) -> (r: Node)
        ensures
            r@ == self@,
    {
        Node {
            metadata: self.metadata.duplicate(),
            body: self.body.clone(),
            relative_path: self.relative_path.clone(),
        }
    }
}

/// Input for creating a new node on disk.
#[derive(Debug, PartialEq, Eq)]
pub struct NewNode {
    pub metadata: NodeMetadata,
    pub body: String,
    /// Target filename relative to graph root (e.g. `customer_churn_q2.md`).
    pub relative_path: String,
}

impl NewNode {
    pub fn into_node(self) -> (r: Node)
        ensures
            r.metadata == self.metadata,
            r.body == self.body,
            r.relative_path == self.relative_path,
    {
        Node { metadata: self.metadata, body: self.body, relative_path: self.relative_path }
    }
}

/// Frontmatter delimiter that closes the YAML block.
pub open spec fn closing_delim() -> Seq<char> {
    seq!['\n', '-', '-', '-']
}

/// Opening frontmatter delimiter.
pub open spec fn opening_delim() -> Seq<char> {
    seq!['-', '-', '-']
}

/// Result of splitting a Markdown source into optional YAML frontmatter and body.
pub open spec fn split_spec(raw: Seq<char>) -> core::result::Result<(Option<Seq<char>>, Seq<char>), Seq<char>> {
    let t = strip_leading(raw, '\u{feff}');
    if !starts_with(t, opening_delim()) {
        Ok((None, raw))
    } else {
        let after = t.subrange(3, t.len() as int);
        match find_from(after, closing_delim(), 0) {
            None => Err("markdown file is missing closing frontmatter delimiter (---)"@),
            Some(end) => {
                let rest = after.subrange(end + 4, after.len() as int);
                let body = if rest.len() > 0 && rest[0] == '\n' {
                    rest.drop_first()
                } else {
                    rest
                };
                Ok((Some(trim(after.subrange(0, end))), body))
            },
        }
    }
}

/// Split a markdown file into optional YAML frontmatter (trimmed) and body.
///
/// Leading byte-order marks are ignored. A file that does not open with `---` has no
/// frontmatter; one that opens with `---` must close it with a line starting `---`.
pub fn split_frontmatter(raw: &str) -> (r: core::result::Result<(Option<String>, String), String>)
    ensures
        match split_spec(raw@) {
            Ok((y, b)) => r matches Ok((y2, b2)) && opt_str_view(y2) == y && b2@ == b,
            Err(m) => r matches Err(m2) && m2@ == m,
        },
{
    let cs = chars_of(raw);
    let start = strip_leading_start(cs.as_slice(), '\u{feff}');
    let t = slice_vec(cs.as_slice(), start, cs.len());
    let open = vec!['-', '-', '-'];
    assert(open@ =~= opening_delim());
    if !starts_with_exec(t.as_slice(), open.as_slice()) {
        return Ok((None, raw.to_owned()));
    }
    let after = slice_vec(t.as_slice(), 3, t.len());
    let close = vec!['\n', '-', '-', '-'];
    assert(close@ =~= closing_delim());
    match find_at_or_after(after.as_slice(), close.as_slice(), 0) {
        None => Err("markdown file is missing closing frontmatter delimiter (---)".to_owned()),
        Some(end) => {
            proof {
                lemma_find_from_props(after@, closing_delim(), 0);
            }
            let yaml = slice_vec(after.as_slice(), 0, end);
            let (a, z) = trim_bounds(yaml.as_slice());
            let yaml_trimmed = slice_vec(yaml.as_slice(), a, z);
            let rest = slice_vec(after.as_slice(), end + 4, after.len());
            let body = if rest.len() > 0 && rest[0] == '\n' {
                slice_vec(rest.as_slice(), 1, rest.len())
            } else {
                rest
            };
            proof {
                if rest@.len() > 0 && rest@[0] == '\n' {
                    assert(body@ =~= rest@.drop_first());
                }
            }
            Ok((Some(string_of(yaml_trimmed.as_slice())), string_of(body.as_slice())))
        },
    }
}

/// Body as it is written after the closing delimiter: a non-empty body always ends
/// with a newline.
pub open spec fn written_body(body: Seq<char>) -> Seq<char> {
    if body.len() > 0 && body.last() != '\n' {
        body.push('\n')
    } else {
        body
    }
}

/// Markdown source for a node whose frontmatter serializes to `yaml`.
pub open spec fn framed_markdown(yaml: Seq<char>, body: Seq<char>) -> Seq<char> {
    opening_delim() + seq!['\n'] + trim_end(yaml) + closing_delim() + seq!['\n'] + written_body(
        body,
    )
}

/// Frame serialized frontmatter and a body as a Markdown node source.
pub fn frame_markdown_node(yaml: &str, body: &str) -> (r: String)
    ensures
        r@ == framed_markdown(yaml@, body@),
{
    let ys = chars_of(yaml);
    let n = trim_end_len(ys.as_slice());
    let mut out: Vec<char> = vec!['-', '-', '-', '\n'];
    extend_chars(&mut out, slice_vec(ys.as_slice(), 0, n).as_slice());
    let tail = vec!['\n', '-', '-', '-', '\n'];
    extend_chars(&mut out, tail.as_slice());
    let bs = chars_of(body);
    extend_chars(&mut out, bs.as_slice());
    if bs.len() > 0 && bs[bs.len() - 1] != '\n' {
        out.push('\n');
    }
    proof {
        let y = trim_end(yaml@);
        assert(out@ =~= framed_markdown(yaml@, body@));
    }
    string_of(out.as_slice())
}

/// `find_from` from `k` lands on `end` when `pat` occurs there and nowhere in between.
proof fn lemma_find_at(s: Seq<char>, pat: Seq<char>, k: int, end: int)
    requires
        0 <= k <= end,
        crate::text::occurs_at(s, pat, end),
        forall|m: int| k <= m < end ==> !crate::text::occurs_at(s, pat, m),
    ensures
        find_from(s, pat, k) == Some(end),
    decreases end - k,
{
    if k < end {
        lemma_find_at(s, pat, k + 1, end);
    }
}

/// No closing delimiter starts inside `head` when `head` contains none and the
/// delimiter itself follows.
proof fn lemma_no_close_before(head: Seq<char>, tail: Seq<char>, k: int)
    requires
        find_from(head, closing_delim(), 0) is None,
        0 <= k < head.len(),
    ensures
        !crate::text::occurs_at(head + closing_delim() + tail, closing_delim(), k),
{
    let s = head + closing_delim() + tail;
    let end = head.len() as int;
    lemma_find_from_props(head, closing_delim(), 0);
    if crate::text::occurs_at(s, closing_delim(), k) {
        if k + 4 <= end {
            assert(s.subrange(k, k + 4) =~= head.subrange(k, k + 4));
            assert(crate::text::occurs_at(head, closing_delim(), k));
        } else {
            let d = end - k;
            assert(1 <= d <= 3);
            assert(s[end] == '\n');
            assert(s.subrange(k, k + 4)[d] == s[end]);
            assert(closing_delim()[d] == '-');
        }
    }
}

/// The closing delimiter is first found right after `head` when `head` holds none.
proof fn lemma_first_close(head: Seq<char>, tail: Seq<char>)
    requires
        find_from(head, closing_delim(), 0) is None,
    ensures
        find_from(head + closing_delim() + tail, closing_delim(), 0) == Some(head.len() as int),
{
    let s = head + closing_delim() + tail;
    let end = head.len() as int;
    assert(s.subrange(end, end + 4) =~= closing_delim());
    assert forall|m: int| 0 <= m < end implies !crate::text::occurs_at(s, closing_delim(), m) by {
        lemma_no_close_before(head, tail, m);
    }
    lemma_find_at(s, closing_delim(), 0, end);
}

/// Splitting a framed node gives back the trimmed frontmatter and the written body,
/// provided the frontmatter never starts a line with `---`.
pub proof fn lemma_split_framed(yaml: Seq<char>, body: Seq<char>)
    requires
        find_from(seq!['\n'] + trim_end(yaml), closing_delim(), 0) is None,
    ensures
        split_spec(framed_markdown(yaml, body)) == Ok::<(Option<Seq<char>>, Seq<char>), Seq<char>>(
            (Some(trim(trim_end(yaml))), written_body(body)),
        ),
{
    let y = trim_end(yaml);
    let raw = framed_markdown(yaml, body);
    let head = seq!['\n'] + y;
    let tail = seq!['\n'] + written_body(body);
    assert(raw =~= opening_delim() + (head + closing_delim() + tail));
    assert(strip_leading(raw, '\u{feff}') == raw);
    assert(raw.subrange(0, 3) =~= opening_delim());
    let after = raw.subrange(3, raw.len() as int);
    assert(after =~= head + closing_delim() + tail);
    lemma_first_close(head, tail);
    let end = head.len() as int;
    assert(after.subrange(0, end) =~= head);
    let rest = after.subrange(end + 4, after.len() as int);
    assert(rest =~= tail);
    assert(rest.drop_first() =~= written_body(body));
    lemma_trim_newline_head(y);
}

/// Trimming a line break placed before a string with no trailing whitespace gives the
/// string trimmed.
pub proof fn lemma_trim_newline_head(y: Seq<char>)
    ensures
        trim(seq!['\n'] + y) == trim(y),
{
    let s = seq!['\n'] + y;
    assert(s.drop_first() =~= y);
}

/// Message when a node source has no frontmatter.
pub open spec fn missing_frontmatter_message(path: Seq<char>) -> Seq<char> {
    "node at "@ + path + " must start with YAML frontmatter delimited by ---"@
}

/// Frontmatter text and body of a node source, or the reason it has none.
pub open spec fn node_source_spec(raw: Seq<char>, path: Seq<char>) -> core::result::Result<(Seq<char>, Seq<char>), Seq<char>> {
    match split_spec(raw) {
        Err(m) => Err(m),
        Ok((None, _)) => Err(missing_frontmatter_message(path)),
        Ok((Some(y), b)) => Ok((y, b)),
    }
}

/// Split a node source into its (trimmed) YAML frontmatter and its body; a node must
/// have frontmatter.
pub fn split_node_source(raw: &str, path: &str) -> (r: core::result::Result<(String, String), String>)
    ensures
        match node_source_spec(raw@, path@) {
            Ok((y, b)) => r matches Ok((y2, b2)) && y2@ == y && b2@ == b,
            Err(m) => r matches Err(m2) && m2@ == m,
        },
{
    match split_frontmatter(raw) {
        Err(m) => Err(m),
        Ok((None, _)) => {
            let mut out: Vec<char> = Vec::new();
            push_str(&mut out, "node at ");
            push_str(&mut out, path);
            push_str(&mut out, " must start with YAML frontmatter delimited by ---");
            Err(string_of(out.as_slice()))
        },
        Ok((Some(y), b)) => Ok((y, b)),
    }
}

/// Reason decoded frontmatter is not a valid node, if any: `id` and `type` must not be
/// blank.
pub open spec fn metadata_problem(meta: MetaView, path: Seq<char>) -> Option<Seq<char>> {
    if trim(meta.id).len() == 0 {
        Some("node at "@ + path + " is missing required frontmatter field `id`"@)
    } else if trim(meta.node_type).len() == 0 {
        Some("node at "@ + path + " is missing required frontmatter field `type`"@)
    } else {
        None
    }
}

/// Check decoded frontmatter: `id` and `type` must not be blank.
pub fn check_node_metadata(metadata: &NodeMetadata, path: &str) -> (r: core::result::Result<(), String>)
    ensures
        match metadata_problem(metadata@, path@) {
            None => r is Ok,
            Some(m) => r matches Err(m2) && m2@ == m,
        },
{
    if is_blank(metadata.id.as_str()) {
        let mut out: Vec<char> = Vec::new();
        push_str(&mut out, "node at ");
        push_str(&mut out, path);
        push_str(&mut out, " is missing required frontmatter field `id`");
        return Err(string_of(out.as_slice()));
    }
    if is_blank(metadata.node_type.as_str()) {
        let mut out: Vec<char> = Vec::new();
        push_str(&mut out, "node at ");
        push_str(&mut out, path);
        push_str(&mut out, " is missing required frontmatter field `type`");
        return Err(string_of(out.as_slice()));
    }
    Ok(())
}


/// Frontmatter extras in abstract form.
pub type ExtraView = Seq<(Seq<char>, YamlView)>;

/// Position of the first extra at or after `k` whose key is `key`.
pub open spec fn extra_find_from(es: ExtraView, key: Seq<char>, k: int) -> Option<int>
    decreases es.len() - k,
{
    if k < 0 || k >= es.len() {
        None
    } else if es[k].0 == key {
        Some(k)
    } else {
        extra_find_from(es, key, k + 1)
    }
}

/// Value of extra `key`, if present.
pub open spec fn extra_lookup(es: ExtraView, key: Seq<char>) -> Option<YamlView> {
    match extra_find_from(es, key, 0) {
        Some(i) => Some(es[i].1),
        None => None,
    }
}

/// Where a new key goes: before the first key at or after `k` that sorts after it.
pub open spec fn insert_pos(es: ExtraView, key: Seq<char>, k: int) -> int
    decreases es.len() - k,
{
    if k < 0 || k >= es.len() {
        if k < 0 { 0 } else { k }
    } else if seq_lt(key, es[k].0) {
        k
    } else {
        insert_pos(es, key, k + 1)
    }
}

/// Extras after setting `key` to `value` (a `BTreeMap` insert): an existing entry is
/// replaced in place, a new one goes into key order.
pub open spec fn extra_set_spec(es: ExtraView, key: Seq<char>, value: YamlView) -> ExtraView {
    match extra_find_from(es, key, 0) {
        Some(i) => es.update(i, (key, value)),
        None => es.insert(insert_pos(es, key, 0), (key, value)),
    }
}

/// Extras after removing `key`.
pub open spec fn extra_remove_spec(es: ExtraView, key: Seq<char>) -> ExtraView {
    match extra_find_from(es, key, 0) {
        Some(i) => es.remove(i),
        None => es,
    }
}

fn extra_position(extra: &Vec<(String, YamlValue)>, key: &str) -> (r: Option<usize>)
    ensures
        match r {
            Some(i) => extra_find_from(extra_view(extra@), key@, 0) == Some(i as int) && i < extra@.len(),
            None => extra_find_from(extra_view(extra@), key@, 0) is None,
        },
{
    let ghost ev = extra_view(extra@);
    let mut i: usize = 0;
    while i < extra.len()
        invariant
            i <= extra.len(),
            ev == extra_view(extra@),
            extra_find_from(ev, key@, 0) == extra_find_from(ev, key@, i as int),
        decreases extra.len() - i,
    {
        assert(ev[i as int].0 == extra@[i as int].0@);
        if crate::text::str_eq(extra[i].0.as_str(), key) {
            return Some(i);
        }
        i = i + 1;
    }
    None
}

/// Value of extra `key`, if present.
pub fn extra_get<'a>(extra: &'a Vec<(String, YamlValue)>, key: &str) -> (r: Option<&'a YamlValue>)
    ensures
        match extra_lookup(extra_view(extra@), key@) {
            Some(v) => r matches Some(x) && x@ == v,
            None => r is None,
        },
{
    match extra_position(extra, key) {
        Some(i) => Some(&extra[i].1),
        None => None,
    }
}

/// Set extra `key` to `value`, replacing an existing value or inserting in key order.
pub fn extra_set(extra: &mut Vec<(String, YamlValue)>, key: String, value: YamlValue)
    ensures
        extra_view(final(extra)@) == extra_set_spec(extra_view(old(extra)@), key@, value@),
{
    let ghost ev = extra_view(extra@);
    let ghost kv = key@;
    let ghost vv = value@;
    match extra_position(extra, key.as_str()) {
        Some(i) => {
            extra.set(i, (key, value));
            assert(extra_view(extra@) =~= ev.update(i as int, (kv, vv)));
        },
        None => {
            let mut p: usize = 0;
            while p < extra.len() && !str_lt(key.as_str(), extra[p].0.as_str())
                invariant
                    p <= extra.len(),
                    ev == extra_view(extra@),
                    kv == key@,
                    insert_pos(ev, kv, 0) == insert_pos(ev, kv, p as int),
                decreases extra.len() - p,
            {
                assert(ev[p as int].0 == extra@[p as int].0@);
                p = p + 1;
            }
            proof {
                if p < extra.len() {
                    assert(ev[p as int].0 == extra@[p as int].0@);
                }
            }
            extra.insert(p, (key, value));
            assert(extra_view(extra@) =~= ev.insert(p as int, (kv, vv)));
        },
    }
}

/// Remove extra `key`, if present.
pub fn extra_remove(extra: &mut Vec<(String, YamlValue)>, key: &str)
    ensures
        extra_view(final(extra)@) == extra_remove_spec(extra_view(old(extra)@), key@),
{
    let ghost ev = extra_view(extra@);
    match extra_position(extra, key) {
        Some(i) => {
            let _ = extra.remove(i);
            assert(extra_view(extra@) =~= ev.remove(i as int));
        },
        None => {},
    }
}

} // verus!

//! Directed graph adjacency, traversal, and Markdown traversal reports.
//!
//! All edges are outgoing from a source node to a target node id: frontmatter `links`
//! and body `[[wikilinks]]` both contribute them.
use vstd::prelude::*;

use crate::error::{MagGraphError, Result};
use crate::index::{entries_wf, EntryView, GraphIndex, NodeIndexEntry, find_id};
use crate::node::{strings_view, copy_strings};
use crate::path::{components, last_index, last_index_exec, path_components};
use crate::text::{
    chars_eq, chars_of, dec_seq, extend_chars, push_str, push_u64, slice_vec, str_eq, string_of, trim,
    trim_bounds,
};
use crate::wikilink::{extract_wikilink_targets, wikilink_targets};

verus! {

/// Lists keyed by node id, in insertion order.
pub type AdjMap = Seq<(Seq<char>, Seq<Seq<char>>)>;

/// Position of the first key at or after `k` equal to `id`.
pub open spec fn find_key(m: AdjMap, id: Seq<char>, k: int) -> Option<int>
    decreases m.len() - k,
{
    if k < 0 || k >= m.len() {
        None
    } else if m[k].0 == id {
        Some(k)
    } else {
        find_key(m, id, k + 1)
    }
}

/// The list stored under `id` (empty when there is none).
pub open spec fn lookup(m: AdjMap, id: Seq<char>) -> Seq<Seq<char>> {
    match find_key(m, id, 0) {
        Some(i) => m[i].1,
        None => seq![],
    }
}

/// Every list entry of `m`, in order.
pub open spec fn all_targets(m: AdjMap) -> Seq<Seq<char>>
    decreases m.len(),
{
    if m.len() == 0 {
        seq![]
    } else {
        all_targets(m.drop_last()) + m.last().1
    }
}

pub proof fn lemma_find_key(m: AdjMap, id: Seq<char>, k: int)
    requires
        0 <= k,
    ensures
        match find_key(m, id, k) {
            Some(i) => k <= i < m.len() && m[i].0 == id && forall|j: int| k <= j < i ==> m[j].0 != id,
            None => forall|j: int| k <= j < m.len() ==> m[j].0 != id,
        },
    decreases m.len() - k,
{
    if k < m.len() && m[k].0 != id {
        lemma_find_key(m, id, k + 1);
    }
}

/// Every entry of every stored list is among `all_targets`.
pub proof fn lemma_all_targets(m: AdjMap, i: int, x: Seq<char>)
    requires
        0 <= i < m.len(),
        m[i].1.contains(x),
    ensures
        all_targets(m).contains(x),
    decreases m.len(),
{
    let j = choose|j: int| 0 <= j < m[i].1.len() && m[i].1[j] == x;
    if i == m.len() - 1 {
        let a = all_targets(m.drop_last());
        assert((a + m.last().1)[a.len() + j] == x);
    } else {
        assert(m.drop_last()[i] == m[i]);
        lemma_all_targets(m.drop_last(), i, x);
        let a = all_targets(m.drop_last());
        let k = choose|k: int| 0 <= k < a.len() && a[k] == x;
        assert((a + m.last().1)[k] == x);
    }
}

/// Anything found under some id is among `all_targets`.
pub proof fn lemma_lookup_in_targets(m: AdjMap, id: Seq<char>, x: Seq<char>)
    requires
        lookup(m, id).contains(x),
    ensures
        all_targets(m).contains(x),
{
    lemma_find_key(m, id, 0);
    if let Some(i) = find_key(m, id, 0) {
        lemma_all_targets(m, i, x);
    }
}

/// Abstract form of a [`GraphAdjacency`].
pub struct AdjView {
    pub outgoing: AdjMap,
    pub unresolved: AdjMap,
}

/// Directed graph adjacency: resolved outgoing edges and unresolved link targets,
/// per source node id.
#[derive(Debug, PartialEq, Eq)]
pub struct GraphAdjacency {
    outgoing: Vec<(String, Vec<String>)>,
    /// Link targets that could not be resolved to a node id (per source node).
    unresolved: Vec<(String, Vec<String>)>,
}

pub open spec fn adj_map_view(v: Seq<(String, Vec<String>)>) -> AdjMap {
    v.map_values(|p: (String, Vec<String>)| (p.0@, strings_view(p.1@)))
}

impl GraphAdjacency {
    /// Each map is well formed (see [`adj_map_wf`]).
    #[verifier::type_invariant]
    closed spec fn inv(self) -> bool {
        adj_map_wf(adj_map_view(self.outgoing@)) && adj_map_wf(adj_map_view(self.unresolved@))
    }
}

/// A copy of an adjacency map.
fn copy_adj(m: &Vec<(String, Vec<String>)>) -> (r: Vec<(String, Vec<String>)>)
    ensures
        adj_map_view(r@) == adj_map_view(m@),
{
    let mut out: Vec<(String, Vec<String>)> = Vec::new();
    let mut i: usize = 0;
    while i < m.len()
        invariant
            i <= m.len(),
            adj_map_view(out@) =~= adj_map_view(m@).take(i as int),
        decreases m.len() - i,
    {
        let ghost before = adj_map_view(out@);
        let list = copy_strings(&m[i].1);
        out.push((m[i].0.clone(), list));
        assert(adj_map_view(out@) =~= before.push(adj_map_view(m@)[i as int]));
        i = i + 1;
    }
    out
}

impl Clone for GraphAdjacency {
    /// An equal copy.
    fn clone(&self) -> (r: GraphAdjacency)
        ensures
            r@ == self@,
    {
        proof {
            use_type_invariant(self);
        }
        GraphAdjacency { outgoing: copy_adj(&self.outgoing), unresolved: copy_adj(&self.unresolved) }
    }
}

impl Default for GraphAdjacency {
    /// The empty adjacency.
    fn default() -> (r: GraphAdjacency)
        ensures
            r@.outgoing.len() == 0 && r@.unresolved.len() == 0,
    {
        let r = GraphAdjacency { outgoing: Vec::new(), unresolved: Vec::new() };
        assert(adj_map_view(r.outgoing@) =~= Seq::<(Seq<char>, Seq<Seq<char>>)>::empty());
        assert(adj_map_view(r.unresolved@) =~= Seq::<(Seq<char>, Seq<Seq<char>>)>::empty());
        r
    }
}

impl View for GraphAdjacency {
    type V = AdjView;

    closed spec fn view(&self) -> AdjView {
        AdjView { outgoing: adj_map_view(self.outgoing@), unresolved: adj_map_view(self.unresolved@) }
    }
}

/// The list stored under `id` in `m` (a copy).
fn lookup_exec(m: &Vec<(String, Vec<String>)>, id: &str) -> (r: Vec<String>)
    ensures
        strings_view(r@) == lookup(adj_map_view(m@), id@),
{
    let ghost mv = adj_map_view(m@);
    let mut i: usize = 0;
    while i < m.len()
        invariant
            i <= m.len(),
            mv == adj_map_view(m@),
            find_key(mv, id@, 0) == find_key(mv, id@, i as int),
        decreases m.len() - i,
    {
        assert(mv[i as int] == (m@[i as int].0@, strings_view(m@[i as int].1@)));
        if str_eq(m[i].0.as_str(), id) {
            return copy_strings(&m[i].1);
        }
        i = i + 1;
    }
    Vec::new()
}

fn has_key(m: &Vec<(String, Vec<String>)>, id: &str) -> (b: bool)
    ensures
        b == (find_key(adj_map_view(m@), id@, 0) is Some),
{
    let ghost mv = adj_map_view(m@);
    let mut i: usize = 0;
    while i < m.len()
        invariant
            i <= m.len(),
            mv == adj_map_view(m@),
            find_key(mv, id@, 0) == find_key(mv, id@, i as int),
        decreases m.len() - i,
    {
        assert(mv[i as int].0 == m@[i as int].0@);
        if str_eq(m[i].0.as_str(), id) {
            return true;
        }
        i = i + 1;
    }
    false
}

/// Every `(key, entry)` pair of `m`, key by key and entry by entry.
pub open spec fn flat_pairs(m: AdjMap) -> Seq<(Seq<char>, Seq<char>)>
    decreases m.len(),
{
    if m.len() == 0 {
        seq![]
    } else {
        flat_pairs(m.drop_last()) + m.last().1.map_values(|t: Seq<char>| (m.last().0, t))
    }
}

pub open spec fn pair_views(v: Seq<(String, String)>) -> Seq<(Seq<char>, Seq<char>)> {
    v.map_values(|p: (String, String)| (p.0@, p.1@))
}

fn flatten_pairs(m: &Vec<(String, Vec<String>)>) -> (r: Vec<(String, String)>)
    ensures
        pair_views(r@) == flat_pairs(adj_map_view(m@)),
{
    let ghost mv = adj_map_view(m@);
    let mut out: Vec<(String, String)> = Vec::new();
    let mut i: usize = 0;
    while i < m.len()
        invariant
            i <= m.len(),
            mv == adj_map_view(m@),
            pair_views(out@) == flat_pairs(mv.take(i as int)),
        decreases m.len() - i,
    {
        let ghost before = pair_views(out@);
        let ghost key = m@[i as int].0@;
        let ghost list = strings_view(m@[i as int].1@);
        let mut j: usize = 0;
        while j < m[i].1.len()
            invariant
                i < m.len(),
                j <= m@[i as int].1.len(),
                key == m@[i as int].0@,
                list == strings_view(m@[i as int].1@),
                pair_views(out@) == before + list.take(j as int).map_values(|t: Seq<char>| (key, t)),
            decreases m@[i as int].1.len() - j,
        {
            let ghost prev = pair_views(out@);
            let a = m[i].0.clone();
            let b = m[i].1[j].clone();
            assert(b@ == list[j as int]);
            out.push((a, b));
            assert(pair_views(out@) =~= prev.push((key, list[j as int])));
            assert(list.take(j + 1).map_values(|t: Seq<char>| (key, t)) =~= list.take(j as int).map_values(
                |t: Seq<char>| (key, t),
            ).push((key, list[j as int])));
            j = j + 1;
        }
        assert(list.take(j as int) =~= list);
        assert(mv.take(i + 1).drop_last() =~= mv.take(i as int));
        assert(mv.take(i + 1).last() == (key, list));
        i = i + 1;
    }
    assert(mv.take(m.len() as int) =~= mv);
    out
}

impl GraphAdjacency {
    /// Outgoing neighbor node ids for `id` (empty if unknown or no edges).
    pub fn neighbors(&self, id: &str) -> (r: Vec<String>)
        ensures
            strings_view(r@) == lookup(self@.outgoing, id@),
    {
        lookup_exec(&self.outgoing, id)
    }

    /// Unresolved link targets of `id` (empty if none).
    pub fn unresolved_targets(&self, id: &str) -> (r: Vec<String>)
        ensures
            strings_view(r@) == lookup(self@.unresolved, id@),
    {
        lookup_exec(&self.unresolved, id)
    }

    /// Whether `id` has any resolved or unresolved outgoing link.
    pub fn has_node(&self, id: &str) -> (b: bool)
        ensures
            b == (find_key(self@.outgoing, id@, 0) is Some || find_key(self@.unresolved, id@, 0) is Some),
            b == (lookup(self@.outgoing, id@).len() > 0 || lookup(self@.unresolved, id@).len() > 0),
    {
        proof {
            use_type_invariant(self);
            law_key_iff_targets(self@.outgoing, id@);
            law_key_iff_targets(self@.unresolved, id@);
        }
        has_key(&self.outgoing, id) || has_key(&self.unresolved, id)
    }

    /// All resolved outgoing edges as `(from_id, to_id)` pairs.
    pub fn outgoing_edges(&self) -> (r: Vec<(String, String)>)
        ensures
            pair_views(r@) == flat_pairs(self@.outgoing),
            pair_views(r@).no_duplicates(),
    {
        proof {
            use_type_invariant(self);
            law_edges_distinct(self@.outgoing);
        }
        flatten_pairs(&self.outgoing)
    }

    /// All unresolved link targets as `(from_id, target)` pairs.
    pub fn unresolved_edges(&self) -> (r: Vec<(String, String)>)
        ensures
            pair_views(r@) == flat_pairs(self@.unresolved),
            pair_views(r@).no_duplicates(),
    {
        proof {
            use_type_invariant(self);
            law_edges_distinct(self@.unresolved);
        }
        flatten_pairs(&self.unresolved)
    }
}


/// `a` has an outgoing edge to `b` in `m`.
pub open spec fn links_to(m: AdjMap, a: Seq<char>, b: Seq<char>) -> bool {
    exists|i: int| 0 <= i < m.len() && m[i].0 == a && #[trigger] m[i].1.contains(b)
}

/// An edge joins `a` and `b`, in either direction.
pub open spec fn adjacent(m: AdjMap, a: Seq<char>, b: Seq<char>) -> bool {
    links_to(m, a, b) || links_to(m, b, a)
}

/// The nodes joined to `id` by an edge, entry by entry: `id`'s targets, then the source of
/// an entry that links to `id`.
pub open spec fn adjacent_list(m: AdjMap, id: Seq<char>) -> Seq<Seq<char>>
    decreases m.len(),
{
    if m.len() == 0 {
        seq![]
    } else {
        let last = m.last();
        adjacent_list(m.drop_last(), id) + (if last.0 == id {
            last.1
        } else {
            seq![]
        }) + (if last.1.contains(id) {
            seq![last.0]
        } else {
            seq![]
        })
    }
}

pub proof fn lemma_adjacent_list(m: AdjMap, id: Seq<char>, x: Seq<char>)
    ensures
        adjacent_list(m, id).contains(x) <==> adjacent(m, id, x),
    decreases m.len(),
{
    if m.len() > 0 {
        let d = m.drop_last();
        lemma_adjacent_list(d, id, x);
        let last = m.last();
        let a = if last.0 == id { last.1 } else { seq![] };
        let b = if last.1.contains(id) { seq![last.0] } else { seq![] };
        let l = adjacent_list(d, id);
        assert(adjacent_list(m, id) == l + a + b);
        if adjacent_list(m, id).contains(x) {
            let k = choose|k: int| 0 <= k < (l + a + b).len() && (l + a + b)[k] == x;
            if k < l.len() {
                assert(l[k] == x);
                assert(l.contains(x));
                if links_to(d, id, x) {
                    let i = choose|i: int| 0 <= i < d.len() && d[i].0 == id && #[trigger] d[i].1.contains(x);
                    assert(m[i] == d[i]);
                } else {
                    let i = choose|i: int| 0 <= i < d.len() && d[i].0 == x && #[trigger] d[i].1.contains(id);
                    assert(m[i] == d[i]);
                }
            } else if k < l.len() + a.len() {
                assert(a[k - l.len()] == x);
                assert(m[m.len() - 1].1.contains(x));
            } else {
                assert(b[k - l.len() - a.len()] == x);
                assert(m[m.len() - 1].1.contains(id));
            }
        }
        if adjacent(m, id, x) {
            if links_to(m, id, x) {
                let i = choose|i: int| 0 <= i < m.len() && m[i].0 == id && #[trigger] m[i].1.contains(x);
                if i < d.len() {
                    assert(d[i] == m[i]);
                    assert(links_to(d, id, x));
                    let k = choose|k: int| 0 <= k < l.len() && l[k] == x;
                    assert((l + a + b)[k] == x);
                } else {
                    let k = choose|k: int| 0 <= k < a.len() && a[k] == x;
                    assert((l + a + b)[l.len() + k] == x);
                }
            } else {
                let i = choose|i: int| 0 <= i < m.len() && m[i].0 == x && #[trigger] m[i].1.contains(id);
                if i < d.len() {
                    assert(d[i] == m[i]);
                    assert(links_to(d, x, id));
                    let k = choose|k: int| 0 <= k < l.len() && l[k] == x;
                    assert((l + a + b)[k] == x);
                } else {
                    assert(b[0] == x);
                    assert((l + a + b)[(l.len() + a.len()) as int] == x);
                }
            }
        }
    }
}

fn contains_str(v: &Vec<String>, x: &str) -> (b: bool)
    ensures
        b == strings_view(v@).contains(x@),
{
    let ghost vv = strings_view(v@);
    let mut i: usize = 0;
    while i < v.len()
        invariant
            i <= v.len(),
            vv == strings_view(v@),
            forall|k: int| 0 <= k < i ==> vv[k] != x@,
        decreases v.len() - i,
    {
        if str_eq(v[i].as_str(), x) {
            assert(vv[i as int] == x@);
            return true;
        }
        i = i + 1;
    }
    false
}

impl GraphAdjacency {
    /// Ids joined to `id` by an edge in either direction (see [`adjacent_list`]).
    pub fn adjacent_ids(&self, id: &str) -> (r: Vec<String>)
        ensures
            strings_view(r@) == adjacent_list(self@.outgoing, id@),
    {
        let ghost mv = adj_map_view(self.outgoing@);
        let mut out: Vec<String> = Vec::new();
        let mut i: usize = 0;
        assert(mv.take(0) =~= Seq::<(Seq<char>, Seq<Seq<char>>)>::empty());
        assert(strings_view(out@) =~= Seq::<Seq<char>>::empty());
        while i < self.outgoing.len()
            invariant
                i <= self.outgoing.len(),
                mv == adj_map_view(self.outgoing@),
                strings_view(out@) == adjacent_list(mv.take(i as int), id@),
            decreases self.outgoing.len() - i,
        {
            let key = &self.outgoing[i].0;
            let targets = &self.outgoing[i].1;
            let ghost e = mv[i as int];
            assert(e == (key@, strings_view(targets@)));
            let ghost before = strings_view(out@);
            if str_eq(key.as_str(), id) {
                let mut j: usize = 0;
                while j < targets.len()
                    invariant
                        j <= targets.len(),
                        strings_view(out@) == before + strings_view(targets@).take(j as int),
                    decreases targets.len() - j,
                {
                    push_string(&mut out, targets[j].clone());
                    j = j + 1;
                    assert(strings_view(targets@).take(j as int) =~= strings_view(targets@).take(j - 1).push(
                        targets@[j - 1]@,
                    ));
                    assert(strings_view(out@) =~= before + strings_view(targets@).take(j as int));
                }
                assert(strings_view(targets@).take(targets.len() as int) =~= strings_view(targets@));
            } else {
                assert(before + Seq::<Seq<char>>::empty() =~= before);
            }
            let ghost mid = strings_view(out@);
            if contains_str(targets, id) {
                push_string(&mut out, key.clone());
                assert(strings_view(out@) =~= mid + seq![key@]);
            } else {
                assert(mid + Seq::<Seq<char>>::empty() =~= mid);
            }
            assert(mv.take(i + 1).drop_last() =~= mv.take(i as int));
            assert(mv.take(i + 1).last() == e);
            i = i + 1;
        }
        assert(mv.take(self.outgoing.len() as int) =~= mv);
        out
    }
}

/// File stem of the file named by `p` (`Path::file_stem`): its final component without
/// the extension.
pub open spec fn file_stem_of(p: Seq<char>) -> Option<Seq<char>> {
    let cs = components(p);
    if cs.len() == 0 || cs.last() == seq!['/'] || cs.last() == seq!['.', '.'] {
        None
    } else {
        let name = cs.last();
        match last_index(name, '.') {
            Some(i) => if i > 0 {
                Some(name.subrange(0, i))
            } else {
                Some(name)
            },
            None => Some(name),
        }
    }
}

fn file_stem(p: &str) -> (r: Option<String>)
    ensures
        match file_stem_of(p@) {
            Some(s) => r matches Some(t) && t@ == s,
            None => r is None,
        },
{
    let cs = chars_of(p);
    let comps = path_components(cs.as_slice());
    let ghost cv = comps@.map_values(|v: Vec<char>| v@);
    if comps.len() == 0 {
        return None;
    }
    let last = &comps[comps.len() - 1];
    assert(last@ == cv.last());
    let root = vec!['/'];
    let dd = vec!['.', '.'];
    assert(root@ =~= seq!['/']);
    assert(dd@ =~= seq!['.', '.']);
    if chars_eq(last.as_slice(), root.as_slice()) || chars_eq(last.as_slice(), dd.as_slice()) {
        return None;
    }
    match last_index_exec(last.as_slice(), '.') {
        Some(i) => if i > 0 {
            Some(string_of(slice_vec(last.as_slice(), 0, i).as_slice()))
        } else {
            Some(string_of(last.as_slice()))
        },
        None => Some(string_of(last.as_slice())),
    }
}

/// Ids of the entries, in order.
pub open spec fn entry_ids(es: Seq<EntryView>) -> Seq<Seq<char>> {
    es.map_values(|e: EntryView| e.metadata.id)
}

/// Path stem → id pairs: for each stem, the first entry whose file has it.
pub open spec fn stem_pairs(es: Seq<EntryView>) -> Seq<(Seq<char>, Seq<char>)>
    decreases es.len(),
{
    if es.len() == 0 {
        seq![]
    } else {
        let prev = stem_pairs(es.drop_last());
        match file_stem_of(es.last().relative_path) {
            Some(st) => if prev.map_values(|p: (Seq<char>, Seq<char>)| p.0).contains(st) {
                prev
            } else {
                prev.push((st, es.last().metadata.id))
            },
            None => prev,
        }
    }
}

/// Value of the first pair at or after `k` whose key is `key`.
pub open spec fn pair_lookup(pairs: Seq<(Seq<char>, Seq<char>)>, key: Seq<char>, k: int) -> Option<Seq<char>>
    decreases pairs.len() - k,
{
    if k < 0 || k >= pairs.len() {
        None
    } else if pairs[k].0 == key {
        Some(pairs[k].1)
    } else {
        pair_lookup(pairs, key, k + 1)
    }
}

/// Node id a link target resolves to: an exact id match, else a path stem match.
pub open spec fn resolve_spec(
    raw: Seq<char>,
    ids: Seq<Seq<char>>,
    stems: Seq<(Seq<char>, Seq<char>)>,
) -> Option<Seq<char>> {
    let t = trim(raw);
    if t.len() == 0 {
        None
    } else if ids.contains(t) {
        Some(t)
    } else {
        pair_lookup(stems, t, 0)
    }
}

/// Resolve a link target to a node id.
///
/// 1. Exact id match
/// 2. Path stem match (e.g. `welcome` → node at `welcome.md`)
pub fn resolve_target(raw: &str, id_set: &[String], path_stem_to_id: &[(String, String)]) -> (r: Option<String>)
    ensures
        match resolve_spec(raw@, strings_view(id_set@), pair_views(path_stem_to_id@)) {
            Some(id) => r matches Some(s) && s@ == id,
            None => r is None,
        },
{
    let cs = chars_of(raw);
    let (a, z) = trim_bounds(cs.as_slice());
    if a == z {
        return None;
    }
    let t = string_of(slice_vec(cs.as_slice(), a, z).as_slice());
    let ghost iv = strings_view(id_set@);
    let mut i: usize = 0;
    while i < id_set.len()
        invariant
            i <= id_set.len(),
            iv == strings_view(id_set@),
            t@ == trim(raw@),
            t@.len() > 0,
            forall|m: int| 0 <= m < i ==> iv[m] != t@,
        decreases id_set.len() - i,
    {
        assert(iv[i as int] == id_set@[i as int]@);
        if id_set[i] == t {
            assert(iv.contains(t@));
            return Some(t);
        }
        i = i + 1;
    }
    assert(!iv.contains(t@));
    let ghost pv = pair_views(path_stem_to_id@);
    let mut k: usize = 0;
    while k < path_stem_to_id.len()
        invariant
            k <= path_stem_to_id.len(),
            pv == pair_views(path_stem_to_id@),
            t@ == trim(raw@),
            t@.len() > 0,
            !strings_view(id_set@).contains(t@),
            pair_lookup(pv, t@, 0) == pair_lookup(pv, t@, k as int),
        decreases path_stem_to_id.len() - k,
    {
        assert(pv[k as int] == (path_stem_to_id@[k as int].0@, path_stem_to_id@[k as int].1@));
        if path_stem_to_id[k].0 == t {
            return Some(path_stem_to_id[k].1.clone());
        }
        k = k + 1;
    }
    None
}

/// Marker prefix under which an unresolved target is remembered as seen.
pub open spec fn unresolved_key(raw: Seq<char>) -> Seq<char> {
    "__unresolved__"@ + raw
}

/// Links of a node resolved in order: the keys seen so far, the resolved ids and the
/// unresolved targets, each kept once.
pub open spec fn collect_spec(
    raws: Seq<Seq<char>>,
    ids: Seq<Seq<char>>,
    stems: Seq<(Seq<char>, Seq<char>)>,
) -> (Seq<Seq<char>>, Seq<Seq<char>>, Seq<Seq<char>>)
    decreases raws.len(),
{
    if raws.len() == 0 {
        (seq![], seq![], seq![])
    } else {
        let (seen, res, dang) = collect_spec(raws.drop_last(), ids, stems);
        let raw = raws.last();
        if raw.len() == 0 {
            (seen, res, dang)
        } else {
            match resolve_spec(raw, ids, stems) {
                Some(id) => if seen.contains(id) {
                    (seen, res, dang)
                } else {
                    (seen.push(id), res.push(id), dang)
                },
                None => if seen.contains(unresolved_key(raw)) {
                    (seen, res, dang)
                } else {
                    (seen.push(unresolved_key(raw)), res, dang.push(raw))
                },
            }
        }
    }
}

/// Link targets of an entry: frontmatter links, then body wikilinks.
pub open spec fn entry_raw_links(e: EntryView) -> Seq<Seq<char>> {
    e.metadata.links + wikilink_targets(e.body)
}

/// Adjacency built from `es`, resolving against all ids and stems of the index.
pub open spec fn adjacency_spec(
    es: Seq<EntryView>,
    ids: Seq<Seq<char>>,
    stems: Seq<(Seq<char>, Seq<char>)>,
) -> AdjView
    decreases es.len(),
{
    if es.len() == 0 {
        AdjView { outgoing: seq![], unresolved: seq![] }
    } else {
        let prev = adjacency_spec(es.drop_last(), ids, stems);
        let e = es.last();
        let c = collect_spec(entry_raw_links(e), ids, stems);
        AdjView {
            outgoing: if c.1.len() > 0 {
                prev.outgoing.push((e.metadata.id, c.1))
            } else {
                prev.outgoing
            },
            unresolved: if c.2.len() > 0 {
                prev.unresolved.push((e.metadata.id, c.2))
            } else {
                prev.unresolved
            },
        }
    }
}

/// An adjacency map as the index builds it: each key once, and under each key a
/// non-empty list in which no entry repeats.
pub open spec fn adj_map_wf(m: AdjMap) -> bool {
    &&& forall|i: int, j: int| 0 <= i < j < m.len() ==> (#[trigger] m[i]).0 != (#[trigger] m[j]).0
    &&& forall|i: int| 0 <= i < m.len() ==> (#[trigger] m[i]).1.len() > 0 && m[i].1.no_duplicates()
}

/// What link collection keeps: resolved ids and unresolved targets each once, all of them
/// remembered as seen.
pub proof fn lemma_collect_props(
    raws: Seq<Seq<char>>,
    ids: Seq<Seq<char>>,
    stems: Seq<(Seq<char>, Seq<char>)>,
)
    ensures
        collect_spec(raws, ids, stems).1.no_duplicates(),
        collect_spec(raws, ids, stems).2.no_duplicates(),
        forall|x: Seq<char>| #[trigger] collect_spec(raws, ids, stems).1.contains(x)
            ==> collect_spec(raws, ids, stems).0.contains(x),
        forall|d: Seq<char>| #[trigger] collect_spec(raws, ids, stems).2.contains(d)
            ==> collect_spec(raws, ids, stems).0.contains(unresolved_key(d)),
    decreases raws.len(),
{
    if raws.len() > 0 {
        lemma_collect_props(raws.drop_last(), ids, stems);
        let (seen, res, dang) = collect_spec(raws.drop_last(), ids, stems);
        let raw = raws.last();
        if raw.len() > 0 {
            match resolve_spec(raw, ids, stems) {
                Some(id) => if !seen.contains(id) {
                    assert(!res.contains(id)) by {
                        if res.contains(id) {
                            assert(seen.contains(id));
                        }
                    }
                    let rp = res.push(id);
                    assert forall|i: int, j: int| 0 <= i < rp.len() && 0 <= j < rp.len() && i != j
                        implies rp[i] != rp[j] by {
                        if i < res.len() && j < res.len() {
                            assert(rp[i] == res[i] && rp[j] == res[j]);
                        } else if i < res.len() {
                            assert(rp[i] == res[i]);
                        } else {
                            assert(rp[j] == res[j]);
                        }
                    }
                    assert forall|x: Seq<char>| #[trigger] res.push(id).contains(x) implies seen.push(
                        id,
                    ).contains(x) by {
                        if x != id {
                            assert(res.contains(x));
                            let k = choose|k: int| 0 <= k < seen.len() && seen[k] == x;
                            assert(seen.push(id)[k] == x);
                        } else {
                            assert(seen.push(id)[seen.len() as int] == x);
                        }
                    }
                    assert forall|d: Seq<char>| #[trigger] dang.contains(d) implies seen.push(id).contains(
                        unresolved_key(d),
                    ) by {
                        let k = choose|k: int| 0 <= k < seen.len() && seen[k] == unresolved_key(d);
                        assert(seen.push(id)[k] == unresolved_key(d));
                    }
                },
                None => if !seen.contains(unresolved_key(raw)) {
                    assert(!dang.contains(raw));
                    assert forall|d: Seq<char>| #[trigger] dang.push(raw).contains(d) implies seen.push(
                        unresolved_key(raw),
                    ).contains(unresolved_key(d)) by {
                        if d != raw {
                            assert(dang.contains(d));
                            let k = choose|k: int| 0 <= k < seen.len() && seen[k] == unresolved_key(d);
                            assert(seen.push(unresolved_key(raw))[k] == unresolved_key(d));
                        } else {
                            assert(seen.push(unresolved_key(raw))[seen.len() as int] == unresolved_key(d));
                        }
                    }
                    assert forall|x: Seq<char>| #[trigger] res.contains(x) implies seen.push(
                        unresolved_key(raw),
                    ).contains(x) by {
                        let k = choose|k: int| 0 <= k < seen.len() && seen[k] == x;
                        assert(seen.push(unresolved_key(raw))[k] == x);
                    }
                },
            }
        }
    }
}

/// Keys of the adjacency built from `es` are ids of entries of `es`, and both maps are
/// well formed when the ids of `es` are distinct.
pub proof fn lemma_adjacency_spec_wf(
    es: Seq<EntryView>,
    ids: Seq<Seq<char>>,
    stems: Seq<(Seq<char>, Seq<char>)>,
)
    requires
        forall|i: int, j: int|
            0 <= i < j < es.len() ==> (#[trigger] es[i]).metadata.id != (#[trigger] es[j]).metadata.id,
    ensures
        adj_map_wf(adjacency_spec(es, ids, stems).outgoing),
        adj_map_wf(adjacency_spec(es, ids, stems).unresolved),
        forall|k: int| 0 <= k < adjacency_spec(es, ids, stems).outgoing.len() ==> exists|j: int|
            0 <= j < es.len() && (#[trigger] adjacency_spec(es, ids, stems).outgoing[k]).0
                == es[j].metadata.id,
        forall|k: int| 0 <= k < adjacency_spec(es, ids, stems).unresolved.len() ==> exists|j: int|
            0 <= j < es.len() && (#[trigger] adjacency_spec(es, ids, stems).unresolved[k]).0
                == es[j].metadata.id,
    decreases es.len(),
{
    if es.len() > 0 {
        let d = es.drop_last();
        assert forall|i: int, j: int| 0 <= i < j < d.len() implies (#[trigger] d[i]).metadata.id
            != (#[trigger] d[j]).metadata.id by {
            assert(d[i] == es[i] && d[j] == es[j]);
        }
        lemma_adjacency_spec_wf(d, ids, stems);
        let prev = adjacency_spec(d, ids, stems);
        let e = es.last();
        let c = collect_spec(entry_raw_links(e), ids, stems);
        lemma_collect_props(entry_raw_links(e), ids, stems);
        let cur = adjacency_spec(es, ids, stems);
        assert forall|k: int| 0 <= k < prev.outgoing.len() implies (#[trigger] prev.outgoing[k]).0
            != e.metadata.id by {
            let j = choose|j: int| 0 <= j < d.len() && prev.outgoing[k].0 == d[j].metadata.id;
            assert(d[j] == es[j]);
            assert(es[j].metadata.id != es[es.len() - 1].metadata.id);
        }
        assert forall|k: int| 0 <= k < prev.unresolved.len() implies (#[trigger] prev.unresolved[k]).0
            != e.metadata.id by {
            let j = choose|j: int| 0 <= j < d.len() && prev.unresolved[k].0 == d[j].metadata.id;
            assert(d[j] == es[j]);
            assert(es[j].metadata.id != es[es.len() - 1].metadata.id);
        }
        assert forall|k: int| 0 <= k < cur.outgoing.len() implies exists|j: int|
            0 <= j < es.len() && (#[trigger] cur.outgoing[k]).0 == es[j].metadata.id by {
            if k < prev.outgoing.len() {
                assert(cur.outgoing[k] == prev.outgoing[k]);
                let j = choose|j: int| 0 <= j < d.len() && prev.outgoing[k].0 == d[j].metadata.id;
                assert(d[j] == es[j]);
            } else {
                assert(cur.outgoing[k].0 == es[es.len() - 1].metadata.id);
            }
        }
        assert forall|k: int| 0 <= k < cur.unresolved.len() implies exists|j: int|
            0 <= j < es.len() && (#[trigger] cur.unresolved[k]).0 == es[j].metadata.id by {
            if k < prev.unresolved.len() {
                assert(cur.unresolved[k] == prev.unresolved[k]);
                let j = choose|j: int| 0 <= j < d.len() && prev.unresolved[k].0 == d[j].metadata.id;
                assert(d[j] == es[j]);
            } else {
                assert(cur.unresolved[k].0 == es[es.len() - 1].metadata.id);
            }
        }
    }
}

/// The adjacency of an index is well formed: each source id once, with a non-empty list
/// of distinct targets, for resolved and for unresolved links alike.
pub proof fn law_index_adjacency_wf(es: Seq<EntryView>)
    requires
        entries_wf(es),
    ensures
        adj_map_wf(index_adjacency(es).outgoing),
        adj_map_wf(index_adjacency(es).unresolved),
{
    lemma_adjacency_spec_wf(es, entry_ids(es), stem_pairs(es));
}

/// In a well-formed adjacency map, an id has an entry exactly when it has at least one
/// listed target.
pub proof fn law_key_iff_targets(m: AdjMap, id: Seq<char>)
    requires
        adj_map_wf(m),
    ensures
        (find_key(m, id, 0) is Some) == (lookup(m, id).len() > 0),
{
    lemma_find_key(m, id, 0);
}

/// Every pair of `flat_pairs(m)` starts with a key of `m`.
pub proof fn lemma_flat_keys(m: AdjMap)
    ensures
        forall|p: int| 0 <= p < flat_pairs(m).len() ==> exists|i: int|
            0 <= i < m.len() && (#[trigger] flat_pairs(m)[p]).0 == m[i].0,
    decreases m.len(),
{
    if m.len() > 0 {
        let d = m.drop_last();
        lemma_flat_keys(d);
        let a = flat_pairs(d);
        let b = m.last().1.map_values(|t: Seq<char>| (m.last().0, t));
        assert forall|p: int| 0 <= p < flat_pairs(m).len() implies exists|i: int|
            0 <= i < m.len() && (#[trigger] flat_pairs(m)[p]).0 == m[i].0 by {
            if p < a.len() {
                assert(flat_pairs(m)[p] == a[p]);
                let i = choose|i: int| 0 <= i < d.len() && a[p].0 == d[i].0;
                assert(d[i] == m[i]);
            } else {
                assert(flat_pairs(m)[p] == b[p - a.len()]);
                assert(flat_pairs(m)[p].0 == m[m.len() - 1].0);
            }
        }
    }
}

/// In a well-formed adjacency map no `(source, target)` edge pair repeats.
pub proof fn law_edges_distinct(m: AdjMap)
    requires
        adj_map_wf(m),
    ensures
        flat_pairs(m).no_duplicates(),
    decreases m.len(),
{
    if m.len() > 0 {
        let d = m.drop_last();
        assert(adj_map_wf(d)) by {
            assert forall|i: int, j: int| 0 <= i < j < d.len() implies (#[trigger] d[i]).0
                != (#[trigger] d[j]).0 by {
                assert(d[i] == m[i] && d[j] == m[j]);
            }
            assert forall|i: int| 0 <= i < d.len() implies (#[trigger] d[i]).1.len() > 0
                && d[i].1.no_duplicates() by {
                assert(d[i] == m[i]);
            }
        }
        law_edges_distinct(d);
        lemma_flat_keys(d);
        let a = flat_pairs(d);
        let last = m[m.len() - 1];
        let b = last.1.map_values(|t: Seq<char>| (last.0, t));
        let f = flat_pairs(m);
        assert(f =~= a + b);
        assert forall|x: int, y: int| 0 <= x < f.len() && 0 <= y < f.len() && x != y implies f[x]
            != f[y] by {
            if x < a.len() && y < a.len() {
                assert(f[x] == a[x] && f[y] == a[y]);
            } else if x >= a.len() && y >= a.len() {
                assert(f[x] == b[x - a.len()] && f[y] == b[y - a.len()]);
                assert(last.1.no_duplicates());
            } else if x < a.len() {
                assert(f[x] == a[x]);
                let i = choose|i: int| 0 <= i < d.len() && a[x].0 == d[i].0;
                assert(d[i] == m[i]);
                assert(f[y].0 == last.0);
            } else {
                assert(f[y] == a[y]);
                let i = choose|i: int| 0 <= i < d.len() && a[y].0 == d[i].0;
                assert(d[i] == m[i]);
                assert(f[x].0 == last.0);
            }
        }
    }
}

/// Adjacency of an index.
pub open spec fn index_adjacency(es: Seq<EntryView>) -> AdjView {
    adjacency_spec(es, entry_ids(es), stem_pairs(es))
}

pub fn push_string(out: &mut Vec<String>, s: String)
    ensures
        strings_view(final(out)@) == strings_view(old(out)@).push(s@),
{
    out.push(s);
    assert(strings_view(out@) =~= strings_view(old(out)@).push(s@));
}

pub fn build_path_stem_index(entries: &[NodeIndexEntry]) -> (r: Vec<(String, String)>)
    ensures
        pair_views(r@) == stem_pairs(entries@.map_values(|e: NodeIndexEntry| e@)),
{
    let ghost es = entries@.map_values(|e: NodeIndexEntry| e@);
    let mut out: Vec<(String, String)> = Vec::new();
    let mut keys: Vec<String> = Vec::new();
    let mut i: usize = 0;
    while i < entries.len()
        invariant
            i <= entries.len(),
            es == entries@.map_values(|e: NodeIndexEntry| e@),
            pair_views(out@) == stem_pairs(es.take(i as int)),
            strings_view(keys@) == pair_views(out@).map_values(|p: (Seq<char>, Seq<char>)| p.0),
        decreases entries.len() - i,
    {
        assert(es.take(i + 1).drop_last() =~= es.take(i as int));
        assert(es.take(i + 1).last() == entries@[i as int]@);
        let ghost prev = pair_views(out@);
        match file_stem(entries[i].relative_path.as_str()) {
            Some(st) => {
                if !crate::wikilink::contains_string(&keys, &st) {
                    let ghost stv = st@;
                    let id = entries[i].metadata.id.clone();
                    out.push((st.clone(), id));
                    push_string(&mut keys, st);
                    assert(pair_views(out@) =~= prev.push((stv, entries@[i as int].metadata.id@)));
                    assert(pair_views(out@).map_values(|p: (Seq<char>, Seq<char>)| p.0) =~= prev.map_values(
                        |p: (Seq<char>, Seq<char>)| p.0,
                    ).push(stv));
                }
            },
            None => {},
        }
        i = i + 1;
    }
    assert(es.take(entries.len() as int) =~= es);
    out
}

/// Resolve the links of one node, in order: resolved ids and unresolved targets, each
/// kept once.
fn collect_outgoing_targets(
    raws: &Vec<String>,
    id_set: &[String],
    path_stem_to_id: &[(String, String)],
) -> (r: (Vec<String>, Vec<String>))
    ensures
        strings_view(r.0@) == collect_spec(strings_view(raws@), strings_view(id_set@), pair_views(path_stem_to_id@)).1,
        strings_view(r.1@) == collect_spec(strings_view(raws@), strings_view(id_set@), pair_views(path_stem_to_id@)).2,
{
    let ghost rv = strings_view(raws@);
    let ghost ids = strings_view(id_set@);
    let ghost stems = pair_views(path_stem_to_id@);
    let mut seen: Vec<String> = Vec::new();
    let mut resolved: Vec<String> = Vec::new();
    let mut dangling: Vec<String> = Vec::new();
    let mut i: usize = 0;
    while i < raws.len()
        invariant
            i <= raws.len(),
            rv == strings_view(raws@),
            ids == strings_view(id_set@),
            stems == pair_views(path_stem_to_id@),
            collect_spec(rv.take(i as int), ids, stems) == (
                strings_view(seen@),
                strings_view(resolved@),
                strings_view(dangling@),
            ),
        decreases raws.len() - i,
    {
        assert(rv.take(i + 1).drop_last() =~= rv.take(i as int));
        assert(rv.take(i + 1).last() == raws@[i as int]@);
        let raw = &raws[i];
        let raw_chars = chars_of(raw.as_str());
        if raw_chars.len() > 0 {
            match resolve_target(raw.as_str(), id_set, path_stem_to_id) {
                Some(id) => {
                    if !crate::wikilink::contains_string(&seen, &id) {
                        push_string(&mut seen, id.clone());
                        push_string(&mut resolved, id);
                    }
                },
                None => {
                    let mut key: Vec<char> = Vec::new();
                    push_str(&mut key, "__unresolved__");
                    push_str(&mut key, raw.as_str());
                    let key = string_of(key.as_slice());
                    if !crate::wikilink::contains_string(&seen, &key) {
                        push_string(&mut seen, key);
                        push_string(&mut dangling, raw.clone());
                    }
                },
            }
        }
        i = i + 1;
    }
    assert(rv.take(raws.len() as int) =~= rv);
    (resolved, dangling)
}

impl GraphAdjacency {
    /// Build adjacency from every node in the index.
    pub fn from_index(index: &GraphIndex) -> (r: Result<GraphAdjacency>)
        ensures
            r matches Ok(a) && a@ == index_adjacency(index@.entries),
    {
        let entries = index.iter();
        proof {
            law_index_adjacency_wf(index@.entries);
        }
        let ghost es = entries@.map_values(|e: NodeIndexEntry| e@);
        let mut id_set: Vec<String> = Vec::new();
        let mut k: usize = 0;
        while k < entries.len()
            invariant
                k <= entries.len(),
                es == entries@.map_values(|e: NodeIndexEntry| e@),
                strings_view(id_set@) == entry_ids(es.take(k as int)),
            decreases entries.len() - k,
        {
            push_string(&mut id_set, entries[k].metadata.id.clone());
            k = k + 1;
            assert(entry_ids(es.take(k as int)) =~= entry_ids(es.take(k - 1)).push(es[k - 1].metadata.id));
        }
        assert(es.take(entries.len() as int) =~= es);
        let stems = build_path_stem_index(entries);
        let ghost ids = entry_ids(es);
        let ghost sp = stem_pairs(es);
        let mut outgoing: Vec<(String, Vec<String>)> = Vec::new();
        let mut unresolved: Vec<(String, Vec<String>)> = Vec::new();
        let mut i: usize = 0;
        assert(es.take(0) =~= Seq::<EntryView>::empty());
        assert(adj_map_view(outgoing@) =~= Seq::<(Seq<char>, Seq<Seq<char>>)>::empty());
        assert(adj_map_view(unresolved@) =~= Seq::<(Seq<char>, Seq<Seq<char>>)>::empty());
        while i < entries.len()
            invariant
                i <= entries.len(),
                es == entries@.map_values(|e: NodeIndexEntry| e@),
                strings_view(id_set@) == ids,
                pair_views(stems@) == sp,
                adjacency_spec(es.take(i as int), ids, sp) == (AdjView {
                    outgoing: adj_map_view(outgoing@),
                    unresolved: adj_map_view(unresolved@),
                }),
            decreases entries.len() - i,
        {
            let e = &entries[i];
            assert(e@ == es[i as int]);
            let mut raws = copy_strings(&e.metadata.links);
            let targets = extract_wikilink_targets(e.body.as_str());
            let mut j: usize = 0;
            let ghost lv = strings_view(raws@);
            while j < targets.len()
                invariant
                    j <= targets.len(),
                    strings_view(raws@) == lv + strings_view(targets@).take(j as int),
                decreases targets.len() - j,
            {
                push_string(&mut raws, targets[j].clone());
                j = j + 1;
                assert(strings_view(targets@).take(j as int) =~= strings_view(targets@).take(j - 1).push(
                    targets@[j - 1]@,
                ));
            }
            assert(strings_view(raws@) =~= entry_raw_links(es[i as int])) by {
                assert(strings_view(targets@).take(targets.len() as int) =~= strings_view(targets@));
                assert(strings_view(targets@) == targets@.map_values(|t: String| t@));
            }
            let (res, dang) = collect_outgoing_targets(&raws, id_set.as_slice(), stems.as_slice());
            assert(es.take(i + 1).drop_last() =~= es.take(i as int));
            assert(es.take(i + 1).last() == es[i as int]);
            let ghost prev_out = adj_map_view(outgoing@);
            let ghost prev_unres = adj_map_view(unresolved@);
            if res.len() > 0 {
                outgoing.push((e.metadata.id.clone(), res));
                assert(adj_map_view(outgoing@) =~= prev_out.push((es[i as int].metadata.id, strings_view(outgoing@.last().1@))));
            }
            if dang.len() > 0 {
                unresolved.push((e.metadata.id.clone(), dang));
                assert(adj_map_view(unresolved@) =~= prev_unres.push((es[i as int].metadata.id, strings_view(unresolved@.last().1@))));
            }
            i = i + 1;
        }
        assert(es.take(entries.len() as int) =~= es);
        Ok(GraphAdjacency { outgoing, unresolved })
    }
}


/// Traversal order.
#[derive(Debug, Clone, Copy, PartialEq, Eq, Structural)]
pub enum TraversalOrder {
    Bfs,
    Dfs,
}

impl Default for TraversalOrder {
    fn default() -> (r: TraversalOrder)
        ensures
            r == TraversalOrder::Bfs,
    {
        TraversalOrder::Bfs
    }
}

/// A node visited during traversal.
#[derive(Debug, PartialEq, Eq)]
pub struct TraversalNode {
    pub id: String,
    pub depth: u32,
    /// Path of node ids from the start node to this node (inclusive).
    pub path: Vec<String>,
}

/// Abstract form of a visited node.
pub struct VisitView {
    pub id: Seq<char>,
    pub depth: nat,
    pub path: Seq<Seq<char>>,
}

impl View for TraversalNode {
    type V = VisitView;

    open spec fn view(&self) -> VisitView {
        VisitView { id: self.id@, depth: self.depth as nat, path: strings_view(self.path@) }
    }
}

pub open spec fn visit_views(v: Seq<TraversalNode>) -> Seq<VisitView> {
    v.map_values(|n: TraversalNode| n@)
}

pub open spec fn visit_ids(v: Seq<VisitView>) -> Seq<Seq<char>> {
    v.map_values(|n: VisitView| n.id)
}

/// `p` follows outgoing edges of `adj` from each entry to the next.
pub open spec fn is_walk(adj: AdjMap, p: Seq<Seq<char>>) -> bool {
    forall|k: int| 0 <= k < p.len() - 1 ==> #[trigger] lookup(adj, p[k]).contains(p[k + 1])
}

/// `n` was reached from `start` by the walk `n.path` of `n.depth` edges, within `max`.
pub open spec fn reached(adj: AdjMap, start: Seq<char>, max: nat, n: VisitView) -> bool {
    &&& n.path.len() == n.depth + 1
    &&& n.path[0] == start
    &&& n.path.last() == n.id
    &&& is_walk(adj, n.path)
    &&& n.depth <= max
}

/// The visit of the start node.
pub open spec fn start_visit(start: Seq<char>) -> VisitView {
    VisitView { id: start, depth: 0, path: seq![start] }
}

/// Every visit is a walk from `start` within `max` edges, the start comes first, and no
/// node is visited twice.
pub open spec fn sound_visits(adj: AdjMap, start: Seq<char>, max: nat, v: Seq<VisitView>) -> bool {
    &&& v.len() >= 1
    &&& v[0] == start_visit(start)
    &&& forall|i: int| 0 <= i < v.len() ==> reached(adj, start, max, #[trigger] v[i])
    &&& visit_ids(v).no_duplicates()
}

/// `x` was visited at depth `d` or less.
pub open spec fn seen_within(v: Seq<VisitView>, x: Seq<char>, d: nat) -> bool {
    exists|j: int| 0 <= j < v.len() && v[j].id == x && v[j].depth <= d
}

/// Every neighbor of a visit below `max` was visited too, at most one level deeper.
pub open spec fn closed_below(adj: AdjMap, max: nat, v: Seq<VisitView>, upto: int) -> bool {
    forall|i: int, x: Seq<char>|
        0 <= i < upto && v[i].depth < max && #[trigger] lookup(adj, v[i].id).contains(x) ==> seen_within(
            v,
            x,
            v[i].depth + 1,
        )
}

/// Depths never decrease along the visit order.
pub open spec fn depth_sorted(v: Seq<VisitView>) -> bool {
    forall|i: int, j: int| 0 <= i <= j < v.len() ==> (#[trigger] v[i]).depth <= (#[trigger] v[j]).depth
}

/// Candidate ids a traversal from `start` can visit.
pub open spec fn id_pool(adj: AdjMap, start: Seq<char>) -> Seq<Seq<char>> {
    seq![start] + all_targets(adj)
}

/// Visits recorded so far stay recorded when another visit is appended.
proof fn lemma_seen_push(v: Seq<VisitView>, n: VisitView, x: Seq<char>, d: nat)
    requires
        seen_within(v, x, d),
    ensures
        seen_within(v.push(n), x, d),
{
    let j = choose|j: int| 0 <= j < v.len() && v[j].id == x && v[j].depth <= d;
    assert(v.push(n)[j] == v[j]);
}

/// A sequence without duplicates drawn from `pool` is no longer than `pool`.
pub proof fn lemma_len_bound(ids: Seq<Seq<char>>, pool: Seq<Seq<char>>)
    requires
        ids.no_duplicates(),
        forall|i: int| 0 <= i < ids.len() ==> pool.contains(#[trigger] ids[i]),
    ensures
        ids.len() <= pool.len(),
{
    ids.unique_seq_to_set();
    pool.lemma_cardinality_of_set();
    assert(ids.to_set().subset_of(pool.to_set())) by {
        assert forall|x: Seq<char>| ids.to_set().contains(x) implies pool.to_set().contains(x) by {
            let i = choose|i: int| 0 <= i < ids.len() && ids[i] == x;
            assert(pool.contains(ids[i]));
        }
    }
    vstd::set_lib::lemma_len_subset(ids.to_set(), pool.to_set());
}

/// Whether a visit of `id` is already recorded.
fn visited(nodes: &Vec<TraversalNode>, id: &String) -> (b: bool)
    ensures
        b == visit_ids(visit_views(nodes@)).contains(id@),
{
    let ghost ids = visit_ids(visit_views(nodes@));
    let mut i: usize = 0;
    while i < nodes.len()
        invariant
            i <= nodes.len(),
            ids == visit_ids(visit_views(nodes@)),
            forall|m: int| 0 <= m < i ==> ids[m] != id@,
        decreases nodes.len() - i,
    {
        assert(ids[i as int] == nodes@[i as int].id@);
        if nodes[i].id == *id {
            assert(ids.contains(id@));
            return true;
        }
        i = i + 1;
    }
    false
}

/// The path to a neighbor: the current path extended by it.
fn extend_path(path: &Vec<String>, next: &String) -> (r: Vec<String>)
    ensures
        strings_view(r@) == strings_view(path@).push(next@),
{
    let mut p = copy_strings(path);
    push_string(&mut p, next.clone());
    p
}

/// Extending a walk that ends at `a` by a neighbor of `a` gives a walk.
proof fn lemma_walk_push(adj: AdjMap, p: Seq<Seq<char>>, x: Seq<char>)
    requires
        p.len() >= 1,
        is_walk(adj, p),
        lookup(adj, p.last()).contains(x),
    ensures
        is_walk(adj, p.push(x)),
{
    let q = p.push(x);
    assert forall|k: int| 0 <= k < q.len() - 1 implies #[trigger] lookup(adj, q[k]).contains(q[k + 1]) by {
        if k < p.len() - 1 {
            assert(q[k] == p[k] && q[k + 1] == p[k + 1]);
        } else {
            assert(q[k] == p.last() && q[k + 1] == x);
        }
    }
}

/// Breadth-first visit: `nodes` starts with the start node and is used as the queue.
/// The neighbors `nb` of `parent`, in order, appended to the visits `v` unless already
/// visited.
pub open spec fn expand_visits(v: Seq<VisitView>, parent: VisitView, nb: Seq<Seq<char>>) -> Seq<VisitView>
    decreases nb.len(),
{
    if nb.len() == 0 {
        v
    } else {
        let w = expand_visits(v, parent, nb.drop_last());
        if visit_ids(w).contains(nb.last()) {
            w
        } else {
            w.push(child_visit(parent, nb.last()))
        }
    }
}

/// Breadth-first search: the visits from position `head` on are expanded in turn (those
/// below depth `max`), at most `fuel` of them.
pub open spec fn bfs_from(adj: AdjMap, max: nat, v: Seq<VisitView>, head: nat, fuel: nat) -> Seq<VisitView>
    decreases fuel,
{
    if fuel == 0 || head >= v.len() {
        v
    } else {
        let h = v[head as int];
        let w = if h.depth < max {
            expand_visits(v, h, lookup(adj, h.id))
        } else {
            v
        };
        bfs_from(adj, max, w, head + 1, (fuel - 1) as nat)
    }
}

/// The visits of a traversal from `start` down to depth `max` in the given order.
pub open spec fn traversal_visits(adj: AdjMap, start: Seq<char>, max: nat, order: TraversalOrder) -> Seq<VisitView> {
    match order {
        TraversalOrder::Bfs => bfs_visits(adj, start, max),
        TraversalOrder::Dfs => dfs_visits(adj, start, max),
    }
}

/// The visits of a breadth-first traversal from `start` down to depth `max` (no more
/// visits than candidate ids, so the search has ended).
pub open spec fn bfs_visits(adj: AdjMap, start: Seq<char>, max: nat) -> Seq<VisitView> {
    bfs_from(adj, max, seq![start_visit(start)], 0, id_pool(adj, start).len())
}

fn bfs(adjacency: &GraphAdjacency, from: &str, max_depth: u32, nodes: &mut Vec<TraversalNode>)
    requires
        visit_views(old(nodes)@) == seq![start_visit(from@)],
    ensures
        sound_visits(adjacency@.outgoing, from@, max_depth as nat, visit_views(final(nodes)@)),
        depth_sorted(visit_views(final(nodes)@)),
        closed_below(
            adjacency@.outgoing,
            max_depth as nat,
            visit_views(final(nodes)@),
            final(nodes)@.len() as int,
        ),
        visit_views(final(nodes)@) == bfs_visits(adjacency@.outgoing, from@, max_depth as nat),
{
    let ghost adj = adjacency@.outgoing;
    let ghost start = from@;
    let ghost max = max_depth as nat;
    let ghost pool = id_pool(adj, start);
    assert(visit_ids(visit_views(nodes@)) =~= seq![start]);
    assert(pool[0] == start);
    let mut head: usize = 0;
    while head < nodes.len()
        invariant
            adj == adjacency@.outgoing,
            pool == id_pool(adj, start),
            start == from@,
            max == max_depth as nat,
            head <= nodes.len(),
            sound_visits(adj, start, max, visit_views(nodes@)),
            depth_sorted(visit_views(nodes@)),
            closed_below(adj, max, visit_views(nodes@), head as int),
            head < nodes.len() ==> nodes@.last().depth <= nodes@[head as int].depth + 1,
            forall|i: int| 0 <= i < nodes.len() ==> pool.contains(#[trigger] visit_ids(visit_views(nodes@))[i]),
            head <= pool.len(),
            bfs_from(adj, max, visit_views(nodes@), head as nat, (pool.len() - head) as nat) == bfs_visits(
                adj,
                start,
                max,
            ),
        decreases pool.len() - head,
    {
        proof {
            lemma_len_bound(visit_ids(visit_views(nodes@)), pool);
        }
        let ghost v0 = visit_views(nodes@);
        let depth = nodes[head].depth;
        let ghost hv = nodes@[head as int]@;
        if depth < max_depth {
            let nbrs = adjacency.neighbors(nodes[head].id.as_str());
            let ghost nb = strings_view(nbrs@);
            let path = copy_strings(&nodes[head].path);
            let mut k: usize = 0;
            while k < nbrs.len()
                invariant
                    adj == adjacency@.outgoing,
                    pool == id_pool(adj, start),
                    start == from@,
                    max == max_depth as nat,
                    head < nodes.len(),
                    depth < max_depth,
                    hv == nodes@[head as int]@,
                    hv.depth == depth,
                    nb == strings_view(nbrs@),
                    nb == lookup(adj, hv.id),
                    strings_view(path@) == hv.path,
                    k <= nbrs.len(),
                    sound_visits(adj, start, max, visit_views(nodes@)),
                    depth_sorted(visit_views(nodes@)),
                    closed_below(adj, max, visit_views(nodes@), head as int),
                    nodes@.last().depth <= depth + 1,
                    forall|i: int| 0 <= i < nodes.len() ==> pool.contains(#[trigger] visit_ids(visit_views(nodes@))[i]),
                    forall|m: int| 0 <= m < k ==> seen_within(visit_views(nodes@), #[trigger] nb[m], (depth + 1) as nat),
                    visit_views(nodes@) == expand_visits(v0, hv, nb.take(k as int)),
                    head < v0.len(),
                    v0[head as int] == hv,
                decreases nbrs.len() - k,
            {
                let ghost before = visit_views(nodes@);
                assert(nb.take(k + 1).drop_last() =~= nb.take(k as int));
                assert(nb.take(k + 1).last() == nb[k as int]);
                assert(nb[k as int] == nbrs@[k as int]@);
                if visited(nodes, &nbrs[k]) {
                    proof {
                        let ids = visit_ids(before);
                        let j = choose|j: int| 0 <= j < ids.len() && ids[j] == nb[k as int];
                        assert(before[j].id == nb[k as int]);
                        assert(before[j].depth <= before.last().depth);
                        assert(seen_within(before, nb[k as int], (depth + 1) as nat));
                    }
                } else {
                    let next_path = extend_path(&path, &nbrs[k]);
                    let node = TraversalNode { id: nbrs[k].clone(), depth: depth + 1, path: next_path };
                    let ghost nv = node@;
                    proof {
                        assert(before[head as int] == hv);
                        assert(reached(adj, start, max, hv));
                        assert(nb.contains(nb[k as int]));
                        lemma_walk_push(adj, hv.path, nb[k as int]);
                        assert(nv.path =~= hv.path.push(nb[k as int]));
                        assert(reached(adj, start, max, nv));
                        lemma_lookup_in_targets(adj, hv.id, nb[k as int]);
                        assert(pool[1 + (choose|t: int| 0 <= t < all_targets(adj).len() && all_targets(adj)[t] == nb[k as int])] == nb[k as int]);
                    }
                    nodes.push(node);
                    proof {
                        let after = visit_views(nodes@);
                        assert(after =~= before.push(nv));
                        assert(nv == child_visit(hv, nb[k as int]));
                        assert(depth_sorted(after)) by {
                            assert forall|i: int, j: int| 0 <= i < j < after.len() implies #[trigger] after[i].depth
                                <= #[trigger] after[j].depth by {
                                if j < before.len() {
                                    assert(after[i] == before[i] && after[j] == before[j]);
                                } else {
                                    assert(after[i] == before[i]);
                                    assert(before[i].depth <= before.last().depth);
                                }
                            }
                        }
                        assert(visit_ids(after) =~= visit_ids(before).push(nv.id));
                        assert(after[before.len() as int].id == nb[k as int]);
                        assert forall|i: int| 0 <= i < after.len() implies reached(adj, start, max, #[trigger] after[i]) by {
                            if i < before.len() {
                                assert(after[i] == before[i]);
                            }
                        }
                        assert(!visit_ids(before).contains(nv.id));
                        assert(seen_within(after, nb[k as int], (depth + 1) as nat)) by {
                            assert(after[before.len() as int] == nv);
                        }
                        assert forall|m: int| 0 <= m < k implies seen_within(after, #[trigger] nb[m], (depth + 1) as nat) by {
                            lemma_seen_push(before, nv, nb[m], (depth + 1) as nat);
                        }
                        assert forall|i: int, x: Seq<char>|
                            0 <= i < head && after[i].depth < max && #[trigger] lookup(adj, after[i].id).contains(x)
                                implies seen_within(after, x, after[i].depth + 1) by {
                            assert(after[i] == before[i]);
                            lemma_seen_push(before, nv, x, before[i].depth + 1);
                        }
                    }
                }
                k = k + 1;
            }
            proof {
                let v = visit_views(nodes@);
                assert forall|i: int, x: Seq<char>|
                    0 <= i < head + 1 && v[i].depth < max && #[trigger] lookup(adj, v[i].id).contains(x)
                        implies seen_within(v, x, v[i].depth + 1) by {
                    if i == head {
                        let m = choose|m: int| 0 <= m < nb.len() && nb[m] == x;
                        assert(seen_within(v, nb[m], (depth + 1) as nat));
                    }
                }
                assert(nb.take(nbrs.len() as int) =~= nb);
            }
        }
        proof {
            let v = visit_views(nodes@);
            if head + 1 < nodes.len() {
                assert(v[head as int].depth <= v[head + 1].depth);
            }
        }
        head = head + 1;
    }
}


/// Depth-first visit of the neighbors of `current`, reached by `path` at `depth`.
/// The visit of `n` reached from `cur` by one more edge.
pub open spec fn child_visit(cur: VisitView, n: Seq<char>) -> VisitView {
    VisitView { id: n, depth: cur.depth + 1, path: cur.path.push(n) }
}

/// Depth-first search below `cur`, appending to the visits `v`: each outgoing neighbor of
/// `cur`, in order, that is not yet visited is visited and searched below in turn, down
/// to depth `max`.
pub open spec fn dfs_below(adj: AdjMap, max: nat, v: Seq<VisitView>, cur: VisitView) -> Seq<VisitView>
    decreases 2 * (max - cur.depth) + 1, 0int,
{
    if cur.depth >= max {
        v
    } else {
        dfs_children(adj, max, v, cur, lookup(adj, cur.id))
    }
}

/// Depth-first search through the neighbors `nb` of `cur`, in order (see [`dfs_below`]).
pub open spec fn dfs_children(
    adj: AdjMap,
    max: nat,
    v: Seq<VisitView>,
    cur: VisitView,
    nb: Seq<Seq<char>>,
) -> Seq<VisitView>
    decreases 2 * (max - cur.depth), nb.len(),
{
    if cur.depth >= max || nb.len() == 0 {
        v
    } else {
        let n = nb[0];
        let v1 = if visit_ids(v).contains(n) {
            v
        } else {
            dfs_below(adj, max, v.push(child_visit(cur, n)), child_visit(cur, n))
        };
        dfs_children(adj, max, v1, cur, nb.drop_first())
    }
}

/// The visits of a depth-first traversal from `start` down to depth `max`.
pub open spec fn dfs_visits(adj: AdjMap, start: Seq<char>, max: nat) -> Seq<VisitView> {
    dfs_below(adj, max, seq![start_visit(start)], start_visit(start))
}

fn dfs_visit(
    adjacency: &GraphAdjacency,
    current: &str,
    depth: u32,
    max_depth: u32,
    path: &Vec<String>,
    nodes: &mut Vec<TraversalNode>,
    Ghost(start): Ghost<Seq<char>>,
)
    requires
        sound_visits(adjacency@.outgoing, start, max_depth as nat, visit_views(old(nodes)@)),
        forall|i: int|
            0 <= i < old(nodes)@.len() ==> id_pool(adjacency@.outgoing, start).contains(
                #[trigger] visit_ids(visit_views(old(nodes)@))[i],
            ),
        strings_view(path@).len() == depth + 1,
        strings_view(path@)[0] == start,
        strings_view(path@).last() == current@,
        is_walk(adjacency@.outgoing, strings_view(path@)),
        depth <= max_depth,
    ensures
        sound_visits(adjacency@.outgoing, start, max_depth as nat, visit_views(final(nodes)@)),
        forall|i: int|
            0 <= i < final(nodes)@.len() ==> id_pool(adjacency@.outgoing, start).contains(
                #[trigger] visit_ids(visit_views(final(nodes)@))[i],
            ),
        final(nodes)@.len() >= old(nodes)@.len(),
        forall|i: int| 0 <= i < old(nodes)@.len() ==> visit_views(final(nodes)@)[i] == visit_views(old(nodes)@)[i],
        visit_views(final(nodes)@) == dfs_below(
            adjacency@.outgoing,
            max_depth as nat,
            visit_views(old(nodes)@),
            VisitView { id: current@, depth: depth as nat, path: strings_view(path@) },
        ),
    decreases max_depth - depth,
{
    if depth >= max_depth {
        return;
    }
    let ghost adj = adjacency@.outgoing;
    let ghost max = max_depth as nat;
    let ghost pool = id_pool(adj, start);
    let ghost orig = visit_views(nodes@);
    let nbrs = adjacency.neighbors(current);
    let ghost nb = strings_view(nbrs@);
    let ghost cur = VisitView { id: current@, depth: depth as nat, path: strings_view(path@) };
    let mut k: usize = 0;
    assert(nb.skip(0) =~= nb);
    while k < nbrs.len()
        invariant
            adj == adjacency@.outgoing,
            max == max_depth as nat,
            cur == (VisitView { id: current@, depth: depth as nat, path: strings_view(path@) }),
            dfs_children(adj, max, visit_views(nodes@), cur, nb.skip(k as int)) == dfs_children(
                adj,
                max,
                orig,
                cur,
                nb,
            ),
            pool == id_pool(adj, start),
            depth < max_depth,
            nb == strings_view(nbrs@),
            nb == lookup(adj, current@),
            strings_view(path@).len() == depth + 1,
            strings_view(path@)[0] == start,
            strings_view(path@).last() == current@,
            is_walk(adj, strings_view(path@)),
            k <= nbrs.len(),
            sound_visits(adj, start, max, visit_views(nodes@)),
            forall|i: int| 0 <= i < nodes.len() ==> pool.contains(#[trigger] visit_ids(visit_views(nodes@))[i]),
            nodes@.len() >= orig.len(),
            forall|i: int| 0 <= i < orig.len() ==> visit_views(nodes@)[i] == orig[i],
        decreases nbrs.len() - k,
    {
        assert(nb[k as int] == nbrs@[k as int]@);
        assert(nb.skip(k as int)[0] == nb[k as int]);
        assert(nb.skip(k as int).drop_first() =~= nb.skip(k + 1));
        if !visited(nodes, &nbrs[k]) {
            let ghost before = visit_views(nodes@);
            let next_path = extend_path(path, &nbrs[k]);
            let node = TraversalNode { id: nbrs[k].clone(), depth: depth + 1, path: copy_strings(&next_path) };
            let ghost nv = node@;
            proof {
                assert(nb.contains(nb[k as int]));
                lemma_walk_push(adj, strings_view(path@), nb[k as int]);
                assert(nv.path =~= strings_view(path@).push(nb[k as int]));
                assert(reached(adj, start, max, nv));
                lemma_lookup_in_targets(adj, current@, nb[k as int]);
                assert(pool[1 + (choose|t: int| 0 <= t < all_targets(adj).len() && all_targets(adj)[t] == nb[k as int])] == nb[k as int]);
            }
            nodes.push(node);
            proof {
                let after = visit_views(nodes@);
                assert(after =~= before.push(nv));
                assert(visit_ids(after) =~= visit_ids(before).push(nv.id));
                assert forall|i: int| 0 <= i < after.len() implies reached(adj, start, max, #[trigger] after[i]) by {
                    if i < before.len() {
                        assert(after[i] == before[i]);
                    }
                }
                assert(!visit_ids(before).contains(nv.id));
            }
            assert(nv == child_visit(cur, nb[k as int]));
            dfs_visit(adjacency, nbrs[k].as_str(), depth + 1, max_depth, &next_path, nodes, Ghost(start));
        }
        k = k + 1;
    }
    assert(nb.skip(nbrs.len() as int) =~= Seq::<Seq<char>>::empty());
}

/// Traverse outgoing edges from `from` up to `max_depth` hops.
fn bfs_or_dfs(
    adjacency: &GraphAdjacency,
    from: &str,
    max_depth: u32,
    order: TraversalOrder,
) -> (r: Vec<TraversalNode>)
    ensures
        sound_visits(adjacency@.outgoing, from@, max_depth as nat, visit_views(r@)),
        order == TraversalOrder::Bfs ==> depth_sorted(visit_views(r@)) && closed_below(
            adjacency@.outgoing,
            max_depth as nat,
            visit_views(r@),
            r@.len() as int,
        ),
        order == TraversalOrder::Bfs ==> visit_views(r@) == bfs_visits(adjacency@.outgoing, from@, max_depth as nat),
        order == TraversalOrder::Dfs ==> visit_views(r@) == dfs_visits(adjacency@.outgoing, from@, max_depth as nat),
{
    let start = from.to_owned();
    let mut nodes: Vec<TraversalNode> = Vec::new();
    let mut path: Vec<String> = Vec::new();
    path.push(start.clone());
    nodes.push(TraversalNode { id: start.clone(), depth: 0, path: copy_strings(&path) });
    assert(strings_view(path@) =~= seq![from@]);
    assert(visit_views(nodes@) =~= seq![start_visit(from@)]);
    match order {
        TraversalOrder::Bfs => bfs(adjacency, from, max_depth, &mut nodes),
        TraversalOrder::Dfs => {
            proof {
                let v = visit_views(nodes@);
                assert(visit_ids(v) =~= seq![from@]);
                assert(reached(adjacency@.outgoing, from@, max_depth as nat, v[0]));
                assert(id_pool(adjacency@.outgoing, from@)[0] == from@);
            }
            assert((VisitView { id: from@, depth: 0, path: strings_view(path@) }) == start_visit(from@));
            dfs_visit(adjacency, from, 0, max_depth, &path, &mut nodes, Ghost(from@));
        },
    }
    nodes
}

/// Result of a graph traversal.
#[derive(Debug, PartialEq, Eq)]
pub struct TraversalResult {
    pub start: String,
    pub max_depth: u32,
    pub order: TraversalOrder,
    pub nodes: Vec<TraversalNode>,
}

/// Traverse outgoing edges from `from` up to `max_depth` hops.
///
/// The start node is included at depth 0. `max_depth` of 0 returns only the start node.
/// Every visit records a walk from the start along outgoing edges, no node is visited
/// twice, and a breadth-first traversal visits every neighbor of each visit below the
/// depth limit, at most one level deeper. The visits are exactly those of the search
/// ([`bfs_visits`] or [`dfs_visits`]).
pub fn traverse(
    adjacency: &GraphAdjacency,
    index: &GraphIndex,
    from: &str,
    max_depth: u32,
    order: TraversalOrder,
) -> (r: Result<TraversalResult>)
    ensures
        find_id(index@.entries, from@) is None ==> (r matches Err(MagGraphError::NodeNotFound { id })
            && id@ == from@),
        find_id(index@.entries, from@) is Some ==> (r matches Ok(t) && t.start@ == from@
            && t.max_depth == max_depth && t.order == order && sound_visits(
            adjacency@.outgoing,
            from@,
            max_depth as nat,
            visit_views(t.nodes@),
        ) && (order == TraversalOrder::Bfs ==> depth_sorted(visit_views(t.nodes@)) && closed_below(
            adjacency@.outgoing,
            max_depth as nat,
            visit_views(t.nodes@),
            t.nodes@.len() as int,
        )) && visit_views(t.nodes@) == traversal_visits(adjacency@.outgoing, from@, max_depth as nat, order)),
{
    if !index.contains(from) {
        return Err(MagGraphError::NodeNotFound { id: from.to_owned() });
    }
    let nodes = bfs_or_dfs(adjacency, from, max_depth, order);
    Ok(TraversalResult { start: from.to_owned(), max_depth, order, nodes })
}

/// A walk from `start` of at most `max` edges ending at `x` is seen within its length.
proof fn lemma_seen_mono(v: Seq<VisitView>, x: Seq<char>, d: nat, e: nat)
    requires
        seen_within(v, x, d),
        d <= e,
    ensures
        seen_within(v, x, e),
{
}

/// Breadth-first traversal is complete: every node that a walk of at most `max` edges
/// from the start reaches is visited, at a depth no greater than the walk's length.
pub proof fn law_bfs_complete(adj: AdjMap, start: Seq<char>, max: nat, v: Seq<VisitView>, w: Seq<Seq<char>>)
    requires
        sound_visits(adj, start, max, v),
        closed_below(adj, max, v, v.len() as int),
        w.len() >= 1,
        w[0] == start,
        is_walk(adj, w),
        w.len() - 1 <= max,
    ensures
        seen_within(v, w.last(), (w.len() - 1) as nat),
    decreases w.len(),
{
    if w.len() == 1 {
        assert(v[0].id == start && v[0].depth == 0);
    } else {
        let p = w.drop_last();
        assert forall|k: int| 0 <= k < p.len() - 1 implies #[trigger] lookup(adj, p[k]).contains(p[k + 1]) by {
            assert(lookup(adj, w[k]).contains(w[k + 1]));
        }
        law_bfs_complete(adj, start, max, v, p);
        let j = choose|j: int| 0 <= j < v.len() && v[j].id == p.last() && v[j].depth <= p.len() - 1;
        let k = w.len() - 2;
        assert(lookup(adj, w[k]).contains(w[k + 1]));
        assert(w[k] == p.last());
        assert(w[k + 1] == w.last());
        assert(lookup(adj, v[j].id).contains(w.last()));
        assert(seen_within(v, w.last(), v[j].depth + 1));
        lemma_seen_mono(v, w.last(), v[j].depth + 1, (w.len() - 1) as nat);
    }
}

/// Breadth-first depths are shortest: no walk of at most `max` edges from the start
/// reaches a visited node in fewer edges than its recorded depth.
pub proof fn law_bfs_shortest(
    adj: AdjMap,
    start: Seq<char>,
    max: nat,
    v: Seq<VisitView>,
    i: int,
    w: Seq<Seq<char>>,
)
    requires
        sound_visits(adj, start, max, v),
        closed_below(adj, max, v, v.len() as int),
        0 <= i < v.len(),
        w.len() >= 1,
        w[0] == start,
        w.last() == v[i].id,
        is_walk(adj, w),
        w.len() - 1 <= max,
    ensures
        v[i].depth <= w.len() - 1,
{
    law_bfs_complete(adj, start, max, v, w);
    let j = choose|j: int| 0 <= j < v.len() && v[j].id == w.last() && v[j].depth <= w.len() - 1;
    if j != i {
        let ids = visit_ids(v);
        assert(ids[i] == ids[j]);
    }
}


/// Node ids of a path, each in backticks, joined by arrows.
pub open spec fn path_md(p: Seq<Seq<char>>) -> Seq<char>
    decreases p.len(),
{
    if p.len() == 0 {
        seq![]
    } else if p.len() == 1 {
        "`"@ + p[0] + "`"@
    } else {
        path_md(p.drop_last()) + " → "@ + "`"@ + p.last() + "`"@
    }
}

/// Report section for one visited node.
pub open spec fn visit_md(v: VisitView, es: Seq<EntryView>) -> Seq<char> {
    let entry = find_id(es, v.id);
    "### "@ + v.id + " (depth "@ + dec_seq(v.depth) + ")\n\n"@ + "- **Type:** "@ + (match entry {
        Some(i) => es[i].metadata.node_type,
        None => "unknown"@,
    }) + "\n"@ + "- **Path:** "@ + path_md(v.path) + "\n"@ + (match entry {
        Some(i) => "- **File:** `"@ + es[i].relative_path + "`\n"@,
        None => seq![],
    }) + "\n"@
}

/// Report sections for the visits, in order.
pub open spec fn visits_md(vs: Seq<VisitView>, es: Seq<EntryView>) -> Seq<char>
    decreases vs.len(),
{
    if vs.len() == 0 {
        seq![]
    } else {
        visits_md(vs.drop_last(), es) + visit_md(vs.last(), es)
    }
}

/// Name of a traversal order in reports.
pub open spec fn order_md(o: TraversalOrder) -> Seq<char> {
    match o {
        TraversalOrder::Bfs => "BFS"@,
        TraversalOrder::Dfs => "DFS"@,
    }
}

/// Markdown traversal report.
pub open spec fn report_md(
    start: Seq<char>,
    max_depth: nat,
    order: TraversalOrder,
    vs: Seq<VisitView>,
    es: Seq<EntryView>,
) -> Seq<char> {
    "# MagGraph Traversal Report\n\n"@ + "- **Start:** `"@ + start + "`\n"@ + "- **Max depth:** "@
        + dec_seq(max_depth) + "\n"@ + "- **Order:** "@ + order_md(order) + "\n"@
        + "- **Nodes reached:** "@ + dec_seq(vs.len()) + "\n\n"@ + if vs.len() == 0 {
        "_No nodes reached at the requested depth._\n"@
    } else {
        "## Nodes\n\n"@ + visits_md(vs, es)
    }
}

fn push_path_md(out: &mut Vec<char>, path: &Vec<String>)
    ensures
        final(out)@ == old(out)@ + path_md(strings_view(path@)),
{
    let ghost pv = strings_view(path@);
    let ghost start = out@;
    let mut i: usize = 0;
    while i < path.len()
        invariant
            i <= path.len(),
            pv == strings_view(path@),
            out@ == start + path_md(pv.take(i as int)),
        decreases path.len() - i,
    {
        let ghost prev = out@;
        if i > 0 {
            push_str(out, " → ");
        }
        push_str(out, "`");
        push_str(out, path[i].as_str());
        push_str(out, "`");
        i = i + 1;
        let ghost t = pv.take(i as int);
        assert(t.drop_last() =~= pv.take(i - 1));
        assert(t.last() == path@[i - 1]@);
        if i == 1 {
            assert(out@ =~= start + path_md(t));
        } else {
            assert(out@ =~= start + path_md(t));
        }
    }
    assert(pv.take(path.len() as int) =~= pv);
}

impl TraversalResult {
    /// Format traversal as a Markdown report for LLM consumption.
    pub fn to_markdown(&self, index: &GraphIndex) -> (r: String)
        ensures
            r@ == report_md(
                self.start@,
                self.max_depth as nat,
                self.order,
                visit_views(self.nodes@),
                index@.entries,
            ),
    {
        let ghost es = index@.entries;
        let ghost vs = visit_views(self.nodes@);
        let mut out: Vec<char> = Vec::new();
        push_str(&mut out, "# MagGraph Traversal Report\n\n");
        push_str(&mut out, "- **Start:** `");
        push_str(&mut out, self.start.as_str());
        push_str(&mut out, "`\n");
        push_str(&mut out, "- **Max depth:** ");
        push_u64(&mut out, self.max_depth as u64);
        push_str(&mut out, "\n");
        push_str(&mut out, "- **Order:** ");
        match self.order {
            TraversalOrder::Bfs => push_str(&mut out, "BFS"),
            TraversalOrder::Dfs => push_str(&mut out, "DFS"),
        }
        push_str(&mut out, "\n");
        push_str(&mut out, "- **Nodes reached:** ");
        push_u64(&mut out, self.nodes.len() as u64);
        push_str(&mut out, "\n\n");
        let ghost head = out@;
        if self.nodes.len() == 0 {
            push_str(&mut out, "_No nodes reached at the requested depth._\n");
            return string_of(out.as_slice());
        }
        push_str(&mut out, "## Nodes\n\n");
        let ghost body_start = out@;
        let mut i: usize = 0;
        while i < self.nodes.len()
            invariant
                i <= self.nodes.len(),
                es == index@.entries,
                vs == visit_views(self.nodes@),
                out@ == body_start + visits_md(vs.take(i as int), es),
            decreases self.nodes.len() - i,
        {
            let visited = &self.nodes[i];
            let ghost v = vs[i as int];
            assert(v == visited@);
            let ghost prev = out@;
            let entry = index.get(visited.id.as_str());
            push_str(&mut out, "### ");
            push_str(&mut out, visited.id.as_str());
            push_str(&mut out, " (depth ");
            push_u64(&mut out, visited.depth as u64);
            push_str(&mut out, ")\n\n");
            push_str(&mut out, "- **Type:** ");
            match entry {
                Some(e) => push_str(&mut out, e.metadata.node_type.as_str()),
                None => push_str(&mut out, "unknown"),
            }
            push_str(&mut out, "\n");
            push_str(&mut out, "- **Path:** ");
            push_path_md(&mut out, &visited.path);
            push_str(&mut out, "\n");
            match entry {
                Some(e) => {
                    push_str(&mut out, "- **File:** `");
                    push_str(&mut out, e.relative_path.as_str());
                    push_str(&mut out, "`\n");
                },
                None => {},
            }
            push_str(&mut out, "\n");
            assert(out@ =~= prev + visit_md(v, es));
            i = i + 1;
            assert(vs.take(i as int).drop_last() =~= vs.take(i - 1));
            assert(vs.take(i as int).last() == v);
        }
        assert(vs.take(self.nodes.len() as int) =~= vs);
        string_of(out.as_slice())
    }
}


/// Ids among `ids`, in order, whose outgoing edges reach `target`.
pub open spec fn linkers(adj: AdjMap, ids: Seq<Seq<char>>, target: Seq<char>) -> Seq<Seq<char>>
    decreases ids.len(),
{
    if ids.len() == 0 {
        seq![]
    } else {
        let prev = linkers(adj, ids.drop_last(), target);
        if lookup(adj, ids.last()).contains(target) {
            prev.push(ids.last())
        } else {
            prev
        }
    }
}

/// Reverse edges: `x` is among the linkers of `target` exactly when `x` is one of `ids`
/// and its outgoing list names `target` (so for a one-way edge `a -> b`, `a` links to `b`
/// and `b` does not link to `a`).
pub proof fn law_linkers_members(adj: AdjMap, ids: Seq<Seq<char>>, target: Seq<char>)
    ensures
        forall|x: Seq<char>| #[trigger] linkers(adj, ids, target).contains(x) <==> (ids.contains(x)
            && lookup(adj, x).contains(target)),
    decreases ids.len(),
{
    if ids.len() > 0 {
        let d = ids.drop_last();
        law_linkers_members(adj, d, target);
        let prev = linkers(adj, d, target);
        let last = ids.last();
        assert forall|x: Seq<char>| #[trigger] linkers(adj, ids, target).contains(x) <==> (ids.contains(
            x,
        ) && lookup(adj, x).contains(target)) by {
            assert(ids =~= d.push(last));
            assert(ids.contains(x) <==> (d.contains(x) || x == last)) by {
                if ids.contains(x) {
                    let k = choose|k: int| 0 <= k < ids.len() && ids[k] == x;
                    if k < d.len() {
                        assert(d[k] == x);
                    }
                }
                if d.contains(x) {
                    let k = choose|k: int| 0 <= k < d.len() && d[k] == x;
                    assert(ids[k] == x);
                }
                if x == last {
                    assert(ids[ids.len() - 1] == x);
                }
            }
            if lookup(adj, last).contains(target) {
                assert(linkers(adj, ids, target) == prev.push(last));
                assert(prev.push(last).contains(x) <==> (prev.contains(x) || x == last)) by {
                    if prev.push(last).contains(x) {
                        let k = choose|k: int| 0 <= k < prev.len() + 1 && prev.push(last)[k] == x;
                        if k < prev.len() {
                            assert(prev[k] == x);
                        }
                    }
                    if prev.contains(x) {
                        let k = choose|k: int| 0 <= k < prev.len() && prev[k] == x;
                        assert(prev.push(last)[k] == x);
                    }
                    if x == last {
                        assert(prev.push(last)[prev.len() as int] == x);
                    }
                }
            } else {
                assert(linkers(adj, ids, target) == prev);
            }
        }
    }
}

impl GraphIndex {
    /// Adjacency of every node in the index.
    pub fn adjacency(&self) -> (r: Result<GraphAdjacency>)
        ensures
            r matches Ok(a) && a@ == index_adjacency(self@.entries),
    {
        GraphAdjacency::from_index(self)
    }

    /// Reverse edges: ids of the nodes that link to `id`, in index order.
    pub fn backlinks(&self, id: &str) -> (r: Result<Vec<String>>)
        ensures
            find_id(self@.entries, id@) is None ==> (r matches Err(MagGraphError::NodeNotFound { id: e })
                && e@ == id@),
            find_id(self@.entries, id@) is Some ==> (r matches Ok(v) && strings_view(v@) == linkers(
                index_adjacency(self@.entries).outgoing,
                entry_ids(self@.entries),
                id@,
            )),
            r matches Ok(v) ==> forall|x: Seq<char>| #[trigger] strings_view(v@).contains(x) <==> (
            entry_ids(self@.entries).contains(x) && lookup(index_adjacency(self@.entries).outgoing, x).contains(id@)),
    {
        proof {
            law_linkers_members(index_adjacency(self@.entries).outgoing, entry_ids(self@.entries), id@);
        }
        if !self.contains(id) {
            return Err(MagGraphError::NodeNotFound { id: id.to_owned() });
        }
        let adj = match GraphAdjacency::from_index(self) {
            Ok(a) => a,
            Err(e) => {
                return Err(e);
            },
        };
        let entries = self.iter();
        let ghost es = entries@.map_values(|e: NodeIndexEntry| e@);
        let ghost ids = entry_ids(es);
        let target = id.to_owned();
        let mut out: Vec<String> = Vec::new();
        let mut i: usize = 0;
        assert(ids.take(0) =~= Seq::<Seq<char>>::empty());
        assert(strings_view(out@) =~= Seq::<Seq<char>>::empty());
        while i < entries.len()
            invariant
                i <= entries.len(),
                es == entries@.map_values(|e: NodeIndexEntry| e@),
                ids == entry_ids(es),
                target@ == id@,
                adj@ == index_adjacency(es),
                strings_view(out@) == linkers(adj@.outgoing, ids.take(i as int), id@),
            decreases entries.len() - i,
        {
            let nbrs = adj.neighbors(entries[i].metadata.id.as_str());
            assert(ids.take(i + 1).drop_last() =~= ids.take(i as int));
            assert(ids.take(i + 1).last() == entries@[i as int].metadata.id@);
            if crate::wikilink::contains_string(&nbrs, &target) {
                push_string(&mut out, entries[i].metadata.id.clone());
            }
            i = i + 1;
        }
        assert(ids.take(entries.len() as int) =~= ids);
        Ok(out)
    }
}

} // verus!

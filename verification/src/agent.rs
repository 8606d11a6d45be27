//! Agent-facing artifacts: graph schema introspection, `SKILL.md`, and MCP scaffolds.
use vstd::prelude::*;

use crate::error::Result;
use crate::graph::{
    build_path_stem_index, entry_ids, index_adjacency, lookup, push_string, resolve_spec,
    resolve_target, stem_pairs, pair_views, GraphAdjacency,
};
use crate::index::{find_id, EntryView, GraphIndex, NodeIndexEntry};
use crate::node::strings_view;
use crate::order::{
    lemma_lt_asymmetric, lemma_lt_irreflexive, lemma_lt_total, lemma_lt_transitive, seq_lt,
    sort_dedup, str_lt, strictly_sorted, string_views,
};
use crate::query::join_seqs;
use crate::recall::push_joined;
use crate::text::{str_eq, chars_of, dec_seq, push_str, push_u64, string_of};
use crate::wikilink::{extract_wikilink_targets, wikilink_targets};

verus! {

/// How an outgoing edge was discovered.
#[derive(Debug, Clone, Copy, PartialEq, Eq, Hash, Structural)]
pub enum EdgeSource {
    Frontmatter,
    Wikilink,
}

/// A resolved directed edge with node types and discovery source.
#[derive(Debug, Clone, PartialEq, Eq)]
pub struct SchemaEdge {
    pub from_id: String,
    pub to_id: String,
    pub from_type: String,
    pub to_type: String,
    pub source: EdgeSource,
}

/// Count of edges between two node types (e.g. `note → note`).
#[derive(Debug, Clone, PartialEq, Eq)]
pub struct EdgePattern {
    pub from_type: String,
    pub to_type: String,
    pub count: usize,
}

/// Introspected graph schema for agent tooling.
#[derive(Debug, Clone, PartialEq, Eq)]
pub struct GraphSchema {
    pub node_count: usize,
    pub node_types: Vec<String>,
    /// Node count per type, in type order.
    pub nodes_by_type: Vec<(String, usize)>,
    pub node_ids: Vec<String>,
    pub edge_count: usize,
    pub edges_from_frontmatter: usize,
    pub edges_from_wikilinks: usize,
    pub unresolved_link_count: usize,
    pub edge_patterns: Vec<EdgePattern>,
    pub sample_edges: Vec<SchemaEdge>,
}

/// Link targets of an entry tagged with where they were found.
pub open spec fn tagged_links(e: EntryView) -> Seq<(Seq<char>, EdgeSource)> {
    e.metadata.links.map_values(|l: Seq<char>| (l, EdgeSource::Frontmatter)) + wikilink_targets(
        e.body,
    ).map_values(|t: Seq<char>| (t, EdgeSource::Wikilink))
}

/// Resolved edges of one node: each (target id, source) pair once, in order.
pub open spec fn labeled_spec(
    raws: Seq<(Seq<char>, EdgeSource)>,
    ids: Seq<Seq<char>>,
    stems: Seq<(Seq<char>, Seq<char>)>,
) -> Seq<(Seq<char>, EdgeSource)>
    decreases raws.len(),
{
    if raws.len() == 0 {
        seq![]
    } else {
        let prev = labeled_spec(raws.drop_last(), ids, stems);
        let (raw, src) = raws.last();
        if raw.len() == 0 {
            prev
        } else {
            match resolve_spec(raw, ids, stems) {
                Some(id) => if prev.contains((id, src)) {
                    prev
                } else {
                    prev.push((id, src))
                },
                None => prev,
            }
        }
    }
}

/// Resolved edges of the entries `es` as (from id, to id, source), node by node, resolving
/// against `ids` and `stems`.
pub open spec fn edges_of(
    es: Seq<EntryView>,
    ids: Seq<Seq<char>>,
    stems: Seq<(Seq<char>, Seq<char>)>,
) -> Seq<(Seq<char>, Seq<char>, EdgeSource)>
    decreases es.len(),
{
    if es.len() == 0 {
        seq![]
    } else {
        let e = es.last();
        edges_of(es.drop_last(), ids, stems) + labeled_spec(tagged_links(e), ids, stems).map_values(
            |p: (Seq<char>, EdgeSource)| (e.metadata.id, p.0, p.1),
        )
    }
}

/// Every resolved edge of the index.
pub open spec fn schema_edges(es: Seq<EntryView>) -> Seq<(Seq<char>, Seq<char>, EdgeSource)> {
    edges_of(es, entry_ids(es), stem_pairs(es))
}

/// Node type of `id`, or `unknown`.
pub open spec fn type_of(es: Seq<EntryView>, id: Seq<char>) -> Seq<char> {
    match find_id(es, id) {
        Some(i) => es[i].metadata.node_type,
        None => "unknown"@,
    }
}

fn push_pair(out: &mut Vec<(String, EdgeSource)>, id: String, src: EdgeSource)
    ensures
        final(out)@.map_values(|p: (String, EdgeSource)| (p.0@, p.1)) == old(out)@.map_values(
            |p: (String, EdgeSource)| (p.0@, p.1),
        ).push((id@, src)),
{
    let ghost before = out@.map_values(|p: (String, EdgeSource)| (p.0@, p.1));
    let ghost iv = id@;
    out.push((id, src));
    assert(out@.map_values(|p: (String, EdgeSource)| (p.0@, p.1)) =~= before.push((iv, src)));
}

fn has_pair(v: &Vec<(String, EdgeSource)>, id: &String, src: EdgeSource) -> (b: bool)
    ensures
        b == v@.map_values(|p: (String, EdgeSource)| (p.0@, p.1)).contains((id@, src)),
{
    let ghost vv = v@.map_values(|p: (String, EdgeSource)| (p.0@, p.1));
    let mut i: usize = 0;
    while i < v.len()
        invariant
            i <= v.len(),
            vv == v@.map_values(|p: (String, EdgeSource)| (p.0@, p.1)),
            forall|m: int| 0 <= m < i ==> vv[m] != (id@, src),
        decreases v.len() - i,
    {
        assert(vv[i as int] == (v@[i as int].0@, v@[i as int].1));
        if v[i].0 == *id && v[i].1 == src {
            assert(vv.contains((id@, src)));
            return true;
        }
        i = i + 1;
    }
    false
}

/// Resolved edges of one node (see [`labeled_spec`]).
fn collect_labeled_edges(
    raws: &Vec<(String, EdgeSource)>,
    id_set: &[String],
    path_stem_to_id: &[(String, String)],
) -> (r: Vec<(String, EdgeSource)>)
    ensures
        r@.map_values(|p: (String, EdgeSource)| (p.0@, p.1)) == labeled_spec(
            raws@.map_values(|p: (String, EdgeSource)| (p.0@, p.1)),
            strings_view(id_set@),
            pair_views(path_stem_to_id@),
        ),
{
    let ghost rv = raws@.map_values(|p: (String, EdgeSource)| (p.0@, p.1));
    let ghost ids = strings_view(id_set@);
    let ghost stems = pair_views(path_stem_to_id@);
    let mut edges: Vec<(String, EdgeSource)> = Vec::new();
    let mut i: usize = 0;
    assert(rv.take(0) =~= Seq::<(Seq<char>, EdgeSource)>::empty());
    assert(edges@.map_values(|p: (String, EdgeSource)| (p.0@, p.1)) =~= Seq::<(Seq<char>, EdgeSource)>::empty());
    while i < raws.len()
        invariant
            i <= raws.len(),
            rv == raws@.map_values(|p: (String, EdgeSource)| (p.0@, p.1)),
            ids == strings_view(id_set@),
            stems == pair_views(path_stem_to_id@),
            edges@.map_values(|p: (String, EdgeSource)| (p.0@, p.1)) == labeled_spec(rv.take(i as int), ids, stems),
        decreases raws.len() - i,
    {
        assert(rv.take(i + 1).drop_last() =~= rv.take(i as int));
        assert(rv.take(i + 1).last() == (raws@[i as int].0@, raws@[i as int].1));
        let raw = &raws[i].0;
        let src = raws[i].1;
        let rc = chars_of(raw.as_str());
        if rc.len() > 0 {
            match resolve_target(raw.as_str(), id_set, path_stem_to_id) {
                Some(id) => {
                    if !has_pair(&edges, &id, src) {
                        push_pair(&mut edges, id, src);
                    }
                },
                None => {},
            }
        }
        i = i + 1;
    }
    assert(rv.take(raws.len() as int) =~= rv);
    edges
}


/// A typed edge: from id, to id, from type, to type, source.
pub type TypedEdge = (Seq<char>, Seq<char>, Seq<char>, Seq<char>, EdgeSource);

/// Every resolved edge with the types of its ends.
pub open spec fn typed_edges(es: Seq<EntryView>) -> Seq<TypedEdge> {
    schema_edges(es).map_values(|e: (Seq<char>, Seq<char>, EdgeSource)| (e.0, e.1, type_of(es, e.0), type_of(es, e.1), e.2))
}

/// Number of edges found via `src`.
pub open spec fn source_count(t: Seq<TypedEdge>, src: EdgeSource) -> nat
    decreases t.len(),
{
    if t.len() == 0 {
        0
    } else {
        source_count(t.drop_last(), src) + if t.last().4 == src { 1nat } else { 0nat }
    }
}

/// Number of edges from a node of type `a` to a node of type `b`.
pub open spec fn pattern_count(t: Seq<TypedEdge>, a: Seq<char>, b: Seq<char>) -> nat
    decreases t.len(),
{
    if t.len() == 0 {
        0
    } else {
        pattern_count(t.drop_last(), a, b) + if t.last().2 == a && t.last().3 == b { 1nat } else { 0nat }
    }
}

/// Number of entries of type `ty`.
pub open spec fn type_count(es: Seq<EntryView>, ty: Seq<char>) -> nat
    decreases es.len(),
{
    if es.len() == 0 {
        0
    } else {
        type_count(es.drop_last(), ty) + if es.last().metadata.node_type == ty { 1nat } else { 0nat }
    }
}

/// Unresolved link targets over the entries, summed (capped at `usize::MAX`).
pub open spec fn unresolved_total(unres: crate::graph::AdjMap, ids: Seq<Seq<char>>) -> int
    decreases ids.len(),
{
    if ids.len() == 0 {
        0
    } else {
        let t = unresolved_total(unres, ids.drop_last()) + lookup(unres, ids.last()).len();
        if t > usize::MAX { usize::MAX as int } else { t }
    }
}

/// Pattern order: more edges first, then by from type, then by to type.
pub open spec fn pattern_before(a: (Seq<char>, Seq<char>, nat), b: (Seq<char>, Seq<char>, nat)) -> bool {
    a.2 > b.2 || (a.2 == b.2 && (seq_lt(a.0, b.0) || (a.0 == b.0 && seq_lt(a.1, b.1))))
}

pub proof fn lemma_pattern_total(a: (Seq<char>, Seq<char>, nat), b: (Seq<char>, Seq<char>, nat))
    requires
        a.0 != b.0 || a.1 != b.1,
    ensures
        pattern_before(a, b) || pattern_before(b, a),
{
    lemma_lt_total(a.0, b.0);
    lemma_lt_total(a.1, b.1);
}

pub proof fn lemma_pattern_transitive(
    a: (Seq<char>, Seq<char>, nat),
    b: (Seq<char>, Seq<char>, nat),
    c: (Seq<char>, Seq<char>, nat),
)
    requires
        pattern_before(a, b),
        pattern_before(b, c),
    ensures
        pattern_before(a, c),
{
    if a.2 == b.2 && b.2 == c.2 {
        if seq_lt(a.0, b.0) && seq_lt(b.0, c.0) {
            lemma_lt_transitive(a.0, b.0, c.0);
        } else if seq_lt(a.0, b.0) {
        } else if seq_lt(b.0, c.0) {
        } else {
            lemma_lt_transitive(a.1, b.1, c.1);
        }
    }
}

pub open spec fn pattern_view(p: EdgePattern) -> (Seq<char>, Seq<char>, nat) {
    (p.from_type@, p.to_type@, p.count as nat)
}

pub open spec fn pattern_views(v: Seq<EdgePattern>) -> Seq<(Seq<char>, Seq<char>, nat)> {
    v.map_values(|p: EdgePattern| pattern_view(p))
}

/// `ps` lists every edge pattern of `t` once, with its count, in pattern order.
pub open spec fn patterns_of(ps: Seq<(Seq<char>, Seq<char>, nat)>, t: Seq<TypedEdge>) -> bool {
    &&& forall|i: int, j: int| 0 <= i < j < ps.len() ==> pattern_before(#[trigger] ps[i], #[trigger] ps[j])
    &&& forall|i: int| 0 <= i < ps.len() ==> (#[trigger] ps[i]).2 == pattern_count(t, ps[i].0, ps[i].1)
        && ps[i].2 > 0
    &&& covers(ps, t)
}

/// Every edge of `t` has its pattern in `ps`.
pub open spec fn covers(ps: Seq<(Seq<char>, Seq<char>, nat)>, t: Seq<TypedEdge>) -> bool {
    forall|k: int| 0 <= k < t.len() ==> exists|i: int| 0 <= i < ps.len() && (#[trigger] ps[i]).0
        == (#[trigger] t[k]).2 && ps[i].1 == t[k].3
}

pub open spec fn edge_view(e: SchemaEdge) -> TypedEdge {
    (e.from_id@, e.to_id@, e.from_type@, e.to_type@, e.source)
}


fn type_of_exec(index: &GraphIndex, id: &str) -> (r: String)
    ensures
        r@ == type_of(index@.entries, id@),
{
    match index.get(id) {
        Some(e) => e.metadata.node_type.clone(),
        None => "unknown".to_owned(),
    }
}

pub open spec fn edge_views(v: Seq<SchemaEdge>) -> Seq<TypedEdge> {
    v.map_values(|e: SchemaEdge| edge_view(e))
}

/// Every resolved edge with the types of its ends (see [`typed_edges`]).
fn all_typed_edges(index: &GraphIndex) -> (r: Vec<SchemaEdge>)
    ensures
        edge_views(r@) == typed_edges(index@.entries),
{
    let entries = index.iter();
    let ghost es = entries@.map_values(|e: NodeIndexEntry| e@);
    let mut id_set: Vec<String> = Vec::new();
    let mut k: usize = 0;
    while k < entries.len()
        invariant
            k <= entries.len(),
            es == entries@.map_values(|e: NodeIndexEntry| e@),
            strings_view(id_set@) == entry_ids(es.take(k as int)),
        decreases entries.len() - k,
    {
        push_string(&mut id_set, entries[k].metadata.id.clone());
        k = k + 1;
        assert(entry_ids(es.take(k as int)) =~= entry_ids(es.take(k - 1)).push(es[k - 1].metadata.id));
    }
    assert(es.take(entries.len() as int) =~= es);
    let stems = build_path_stem_index(entries);
    let ghost ids = entry_ids(es);
    let ghost sp = stem_pairs(es);
    let mut out: Vec<SchemaEdge> = Vec::new();
    let mut i: usize = 0;
    assert(es.take(0) =~= Seq::<EntryView>::empty());
    assert(edge_views(out@) =~= edges_of(es.take(0), ids, sp).map_values(
        |e: (Seq<char>, Seq<char>, EdgeSource)| (e.0, e.1, type_of(es, e.0), type_of(es, e.1), e.2),
    ));
    while i < entries.len()
        invariant
            i <= entries.len(),
            es == entries@.map_values(|e: NodeIndexEntry| e@),
            es == index@.entries,
            strings_view(id_set@) == ids,
            ids == entry_ids(es),
            pair_views(stems@) == sp,
            sp == stem_pairs(es),
            edge_views(out@) == edges_of(es.take(i as int), ids, sp).map_values(
                |e: (Seq<char>, Seq<char>, EdgeSource)| (e.0, e.1, type_of(es, e.0), type_of(es, e.1), e.2),
            ),
        decreases entries.len() - i,
    {
        let e = &entries[i];
        assert(e@ == es[i as int]);
        let mut raws: Vec<(String, EdgeSource)> = Vec::new();
        let mut j: usize = 0;
        let ghost lv = e@.metadata.links;
        assert(raws@.map_values(|p: (String, EdgeSource)| (p.0@, p.1)) =~= lv.take(0).map_values(
            |l: Seq<char>| (l, EdgeSource::Frontmatter),
        ));
        while j < e.metadata.links.len()
            invariant
                j <= e.metadata.links.len(),
                lv == e@.metadata.links,
                raws@.map_values(|p: (String, EdgeSource)| (p.0@, p.1)) == lv.take(j as int).map_values(
                    |l: Seq<char>| (l, EdgeSource::Frontmatter),
                ),
            decreases e.metadata.links.len() - j,
        {
            assert(lv[j as int] == e.metadata.links@[j as int]@);
            push_pair(&mut raws, e.metadata.links[j].clone(), EdgeSource::Frontmatter);
            j = j + 1;
            assert(lv.take(j as int).map_values(|l: Seq<char>| (l, EdgeSource::Frontmatter)) =~= lv.take(
                j - 1,
            ).map_values(|l: Seq<char>| (l, EdgeSource::Frontmatter)).push((lv[j - 1], EdgeSource::Frontmatter)));
        }
        assert(lv.take(e.metadata.links.len() as int) =~= lv);
        let targets = extract_wikilink_targets(e.body.as_str());
        let ghost tv = strings_view(targets@);
        let ghost head = raws@.map_values(|p: (String, EdgeSource)| (p.0@, p.1));
        let mut m: usize = 0;
        assert(head + tv.take(0).map_values(|t: Seq<char>| (t, EdgeSource::Wikilink)) =~= head);
        while m < targets.len()
            invariant
                m <= targets.len(),
                tv == strings_view(targets@),
                raws@.map_values(|p: (String, EdgeSource)| (p.0@, p.1)) == head + tv.take(m as int).map_values(
                    |t: Seq<char>| (t, EdgeSource::Wikilink),
                ),
            decreases targets.len() - m,
        {
            push_pair(&mut raws, targets[m].clone(), EdgeSource::Wikilink);
            m = m + 1;
            assert(tv.take(m as int).map_values(|t: Seq<char>| (t, EdgeSource::Wikilink)) =~= tv.take(
                m - 1,
            ).map_values(|t: Seq<char>| (t, EdgeSource::Wikilink)).push((tv[m - 1], EdgeSource::Wikilink)));
        }
        assert(tv.take(targets.len() as int) =~= tv);
        assert(tv == targets@.map_values(|t: String| t@));
        assert(raws@.map_values(|p: (String, EdgeSource)| (p.0@, p.1)) =~= tagged_links(es[i as int]));
        let labeled = collect_labeled_edges(&raws, id_set.as_slice(), stems.as_slice());
        let ghost lab = labeled@.map_values(|p: (String, EdgeSource)| (p.0@, p.1));
        let from_type = type_of_exec(index, e.metadata.id.as_str());
        let ghost before = edge_views(out@);
        let mut q: usize = 0;
        while q < labeled.len()
            invariant
                q <= labeled.len(),
                lab == labeled@.map_values(|p: (String, EdgeSource)| (p.0@, p.1)),
                es == index@.entries,
                from_type@ == type_of(es, e@.metadata.id),
                edge_views(out@) == before + lab.take(q as int).map_values(
                    |p: (Seq<char>, EdgeSource)| (e@.metadata.id, p.0, type_of(es, e@.metadata.id), type_of(es, p.0), p.1),
                ),
            decreases labeled.len() - q,
        {
            let to_type = type_of_exec(index, labeled[q].0.as_str());
            let edge = SchemaEdge {
                from_id: e.metadata.id.clone(),
                to_id: labeled[q].0.clone(),
                from_type: from_type.clone(),
                to_type,
                source: labeled[q].1,
            };
            let ghost ev = edge_view(edge);
            let ghost prev = edge_views(out@);
            out.push(edge);
            assert(edge_views(out@) =~= prev.push(ev));
            q = q + 1;
            assert(lab.take(q as int).drop_last() =~= lab.take(q - 1));
            assert(lab.take(q as int).last() == lab[q - 1]);
            assert(lab[q - 1] == (labeled@[q - 1].0@, labeled@[q - 1].1));
            assert(edge_views(out@) =~= before + lab.take(q as int).map_values(
                |p: (Seq<char>, EdgeSource)| (e@.metadata.id, p.0, type_of(es, e@.metadata.id), type_of(es, p.0), p.1),
            ));
        }
        assert(lab.take(labeled.len() as int) =~= lab);
        assert(es.take(i + 1).drop_last() =~= es.take(i as int));
        assert(es.take(i + 1).last() == es[i as int]);
        i = i + 1;
        assert(edge_views(out@) =~= edges_of(es.take(i as int), ids, sp).map_values(
            |e: (Seq<char>, Seq<char>, EdgeSource)| (e.0, e.1, type_of(es, e.0), type_of(es, e.1), e.2),
        ));
    }
    assert(es.take(entries.len() as int) =~= es);
    out
}


/// Count per (from type, to type) of `t`'s edges, in first-seen order.
fn count_patterns(edges: &Vec<SchemaEdge>) -> (r: Vec<EdgePattern>)
    ensures
        forall|i: int, j: int| 0 <= i < j < r@.len() ==> (#[trigger] pattern_views(r@)[i]).0 != (
        #[trigger] pattern_views(r@)[j]).0 || pattern_views(r@)[i].1 != pattern_views(r@)[j].1,
        forall|i: int| 0 <= i < r@.len() ==> (#[trigger] pattern_views(r@)[i]).2 == pattern_count(
            edge_views(edges@),
            pattern_views(r@)[i].0,
            pattern_views(r@)[i].1,
        ) && pattern_views(r@)[i].2 > 0,
        covers(pattern_views(r@), edge_views(edges@)),
{
    let ghost t = edge_views(edges@);
    let mut out: Vec<EdgePattern> = Vec::new();
    let mut k: usize = 0;
    assert(covers(pattern_views(out@), t.take(0)));
    while k < edges.len()
        invariant
            k <= edges.len(),
            t == edge_views(edges@),
            forall|i: int, j: int| 0 <= i < j < out@.len() ==> (#[trigger] pattern_views(out@)[i]).0 != (
            #[trigger] pattern_views(out@)[j]).0 || pattern_views(out@)[i].1 != pattern_views(out@)[j].1,
            forall|i: int| 0 <= i < out@.len() ==> (#[trigger] pattern_views(out@)[i]).2 == pattern_count(
                t.take(k as int),
                pattern_views(out@)[i].0,
                pattern_views(out@)[i].1,
            ) && pattern_views(out@)[i].2 > 0,
            covers(pattern_views(out@), t.take(k as int)),
        decreases edges.len() - k,
    {
        let ghost pv = pattern_views(out@);
        let ghost tk = t.take(k as int);
        let ghost tk1 = t.take(k + 1);
        assert(tk1.drop_last() =~= tk);
        assert(tk1.last() == t[k as int]);
        assert(t[k as int] == edge_view(edges@[k as int]));
        let e = &edges[k];
        let mut p: usize = 0;
        while p < out.len() && !(out[p].from_type == e.from_type && out[p].to_type == e.to_type)
            invariant
                p <= out.len(),
                pv == pattern_views(out@),
                forall|q: int| 0 <= q < p ==> !(pv[q].0 == e.from_type@ && pv[q].1 == e.to_type@),
            decreases out.len() - p,
        {
            assert(pv[p as int] == pattern_view(out@[p as int]));
            p = p + 1;
        }
        if p < out.len() {
            assert(pv[p as int] == pattern_view(out@[p as int]));
            let c = out[p].count;
            proof {
                assert(pv[p as int].2 == pattern_count(tk, pv[p as int].0, pv[p as int].1));
                lemma_pattern_count_le(tk, pv[p as int].0, pv[p as int].1);
            }
            let updated = EdgePattern {
                from_type: out[p].from_type.clone(),
                to_type: out[p].to_type.clone(),
                count: c + 1,
            };
            out.set(p, updated);
            proof {
                let nv = pattern_views(out@);
                assert(nv =~= pv.update(p as int, (pv[p as int].0, pv[p as int].1, pv[p as int].2 + 1)));
                assert forall|i: int| 0 <= i < out@.len() implies (#[trigger] nv[i]).2 == pattern_count(
                    tk1,
                    nv[i].0,
                    nv[i].1,
                ) && nv[i].2 > 0 by {
                    if i != p {
                        assert(nv[i] == pv[i]);
                    }
                }
                assert forall|m: int| 0 <= m < tk1.len() implies exists|i: int| 0 <= i < nv.len() && (
                #[trigger] nv[i]).0 == (#[trigger] tk1[m]).2 && nv[i].1 == tk1[m].3 by {
                    if m < k {
                        assert(tk[m] == tk1[m]);
                        let i0 = choose|i: int| 0 <= i < pv.len() && (#[trigger] pv[i]).0 == tk[m].2 && pv[i].1 == tk[m].3;
                        assert(nv[i0].0 == pv[i0].0 && nv[i0].1 == pv[i0].1);
                    } else {
                        assert(nv[p as int].0 == tk1[m].2);
                    }
                }
            }
        } else {
            let np = EdgePattern { from_type: e.from_type.clone(), to_type: e.to_type.clone(), count: 1 };
            out.push(np);
            proof {
                let nv = pattern_views(out@);
                assert(nv =~= pv.push((e.from_type@, e.to_type@, 1nat)));
                assert(pattern_count(tk, e.from_type@, e.to_type@) == 0) by {
                    lemma_pattern_count_absent(tk, e.from_type@, e.to_type@, pv);
                }
                assert forall|i: int| 0 <= i < out@.len() implies (#[trigger] nv[i]).2 == pattern_count(
                    tk1,
                    nv[i].0,
                    nv[i].1,
                ) && nv[i].2 > 0 by {
                    if i < pv.len() {
                        assert(nv[i] == pv[i]);
                    }
                }
                assert forall|m: int| 0 <= m < tk1.len() implies exists|i: int| 0 <= i < nv.len() && (
                #[trigger] nv[i]).0 == (#[trigger] tk1[m]).2 && nv[i].1 == tk1[m].3 by {
                    if m < k {
                        assert(tk[m] == tk1[m]);
                        let i0 = choose|i: int| 0 <= i < pv.len() && (#[trigger] pv[i]).0 == tk[m].2 && pv[i].1 == tk[m].3;
                        assert(nv[i0] == pv[i0]);
                    } else {
                        assert(nv[pv.len() as int].0 == tk1[m].2);
                    }
                }
                assert forall|i: int, j: int| 0 <= i < j < out@.len() implies (#[trigger] nv[i]).0 != (
                #[trigger] nv[j]).0 || nv[i].1 != nv[j].1 by {
                    if j < pv.len() {
                        assert(nv[i] == pv[i] && nv[j] == pv[j]);
                    } else {
                        assert(nv[i] == pv[i]);
                    }
                }
            }
        }
        k = k + 1;
    }
    assert(t.take(edges.len() as int) =~= t);
    out
}

pub proof fn lemma_pattern_count_le(t: Seq<TypedEdge>, a: Seq<char>, b: Seq<char>)
    ensures
        pattern_count(t, a, b) <= t.len(),
    decreases t.len(),
{
    if t.len() > 0 {
        lemma_pattern_count_le(t.drop_last(), a, b);
    }
}

/// A pattern absent from a complete pattern list for `t` has no edges in `t`.
proof fn lemma_pattern_count_absent(
    t: Seq<TypedEdge>,
    a: Seq<char>,
    b: Seq<char>,
    pv: Seq<(Seq<char>, Seq<char>, nat)>,
)
    requires
        covers(pv, t),
        forall|q: int| 0 <= q < pv.len() ==> !(pv[q].0 == a && pv[q].1 == b),
    ensures
        pattern_count(t, a, b) == 0,
    decreases t.len(),
{
    if t.len() > 0 {
        let m = t.len() - 1;
        let i = choose|i: int| 0 <= i < pv.len() && (#[trigger] pv[i]).0 == t[m].2 && pv[i].1 == t[m].3;
        let d = t.drop_last();
        assert forall|mm: int| 0 <= mm < d.len() implies exists|i: int| 0 <= i < pv.len() && (
        #[trigger] pv[i]).0 == (#[trigger] d[mm]).2 && pv[i].1 == d[mm].3 by {
            assert(d[mm] == t[mm]);
        }
        lemma_pattern_count_absent(t.drop_last(), a, b, pv);
    }
}


fn pattern_before_exec(a: &EdgePattern, b: &EdgePattern) -> (r: bool)
    ensures
        r == pattern_before(pattern_view(*a), pattern_view(*b)),
{
    a.count > b.count || (a.count == b.count && (str_lt(a.from_type.as_str(), b.from_type.as_str())
        || (a.from_type == b.from_type && str_lt(a.to_type.as_str(), b.to_type.as_str()))))
}

/// Patterns with distinct type pairs, in pattern order.
fn sort_patterns(ps: Vec<EdgePattern>) -> (r: Vec<EdgePattern>)
    requires
        forall|i: int, j: int| 0 <= i < j < ps@.len() ==> (#[trigger] pattern_views(ps@)[i]).0 != (
        #[trigger] pattern_views(ps@)[j]).0 || pattern_views(ps@)[i].1 != pattern_views(ps@)[j].1,
    ensures
        forall|i: int, j: int| 0 <= i < j < r@.len() ==> pattern_before(#[trigger] pattern_views(r@)[i], #[trigger] pattern_views(r@)[j]),
        forall|i: int| 0 <= i < r@.len() ==> pattern_views(ps@).contains(#[trigger] pattern_views(r@)[i]),
        forall|i: int| 0 <= i < ps@.len() ==> pattern_views(r@).contains(#[trigger] pattern_views(ps@)[i]),
{
    let ghost src = pattern_views(ps@);
    let mut out: Vec<EdgePattern> = Vec::new();
    let mut k: usize = 0;
    while k < ps.len()
        invariant
            k <= ps.len(),
            src == pattern_views(ps@),
            forall|i: int, j: int| 0 <= i < j < ps@.len() ==> (#[trigger] src[i]).0 != (#[trigger] src[j]).0
                || src[i].1 != src[j].1,
            forall|i: int, j: int| 0 <= i < j < out@.len() ==> pattern_before(#[trigger] pattern_views(out@)[i], #[trigger] pattern_views(out@)[j]),
            forall|i: int| 0 <= i < out@.len() ==> exists|m: int| 0 <= m < k && #[trigger] pattern_views(out@)[i] == src[m],
            forall|m: int| 0 <= m < k ==> pattern_views(out@).contains(#[trigger] src[m]),
        decreases ps.len() - k,
    {
        let ghost ov = pattern_views(out@);
        let x = &ps[k];
        let ghost xv = src[k as int];
        assert(xv == pattern_view(*x));
        let mut p: usize = 0;
        while p < out.len() && !pattern_before_exec(x, &out[p])
            invariant
                p <= out.len(),
                ov == pattern_views(out@),
                xv == pattern_view(*x),
                forall|q: int| 0 <= q < p ==> !pattern_before(xv, #[trigger] ov[q]),
            decreases out.len() - p,
        {
            assert(ov[p as int] == pattern_view(out@[p as int]));
            p = p + 1;
        }
        proof {
            if p < out.len() {
                assert(ov[p as int] == pattern_view(out@[p as int]));
            }
            // every placed pattern is distinct from x
            assert forall|q: int| 0 <= q < ov.len() implies ov[q].0 != xv.0 || ov[q].1 != xv.1 by {
                let m = choose|m: int| 0 <= m < k && #[trigger] pattern_views(out@)[q] == src[m];
                assert(ov[q] == src[m]);
            }
        }
        let copy = EdgePattern { from_type: x.from_type.clone(), to_type: x.to_type.clone(), count: x.count };
        out.insert(p, copy);
        proof {
            let nv = pattern_views(out@);
            assert(nv =~= ov.insert(p as int, xv));
            assert forall|i: int, j: int| 0 <= i < j < nv.len() implies pattern_before(#[trigger] nv[i], #[trigger] nv[j]) by {
                if j < p {
                    assert(nv[i] == ov[i] && nv[j] == ov[j]);
                } else if j == p {
                    assert(nv[i] == ov[i] && nv[j] == xv);
                    assert(!pattern_before(xv, ov[i]));
                    lemma_pattern_total(ov[i], xv);
                } else if i == p {
                    assert(nv[i] == xv && nv[j] == ov[j - 1]);
                    if j - 1 == p {
                    } else {
                        assert(pattern_before(ov[p as int], ov[j - 1]));
                        lemma_pattern_transitive(xv, ov[p as int], ov[j - 1]);
                    }
                } else if i < p {
                    assert(nv[i] == ov[i] && nv[j] == ov[j - 1]);
                    if i != j - 1 {
                        assert(pattern_before(ov[i], ov[j - 1]));
                    }
                } else {
                    assert(nv[i] == ov[i - 1] && nv[j] == ov[j - 1]);
                }
            }
            assert forall|i: int| 0 <= i < nv.len() implies exists|m: int| 0 <= m < k + 1 && #[trigger] nv[i] == src[m] by {
                if i < p {
                    assert(nv[i] == ov[i]);
                    let m = choose|m: int| 0 <= m < k && #[trigger] pattern_views(out@)[i] == src[m];
                } else if i == p {
                    assert(nv[i] == src[k as int]);
                } else {
                    assert(nv[i] == ov[i - 1]);
                }
            }
            assert forall|m: int| 0 <= m < k + 1 implies nv.contains(#[trigger] src[m]) by {
                if m < k {
                    let q = choose|q: int| 0 <= q < ov.len() && ov[q] == src[m];
                    if q < p {
                        assert(nv[q] == src[m]);
                    } else {
                        assert(nv[q + 1] == src[m]);
                    }
                } else {
                    assert(nv[p as int] == src[m]);
                }
            }
        }
        k = k + 1;
    }
    proof {
        let rv = pattern_views(out@);
        assert forall|i: int| 0 <= i < out@.len() implies src.contains(#[trigger] rv[i]) by {
            let m = choose|m: int| 0 <= m < k && #[trigger] pattern_views(out@)[i] == src[m];
        }
    }
    out
}


/// Node type of every entry, in index order.
pub open spec fn entry_types(es: Seq<EntryView>) -> Seq<Seq<char>> {
    es.map_values(|e: EntryView| e.metadata.node_type)
}

pub proof fn lemma_type_count_le(es: Seq<EntryView>, ty: Seq<char>)
    ensures
        type_count(es, ty) <= es.len(),
    decreases es.len(),
{
    if es.len() > 0 {
        lemma_type_count_le(es.drop_last(), ty);
    }
}

pub proof fn lemma_source_count_le(t: Seq<TypedEdge>, src: EdgeSource)
    ensures
        source_count(t, src) <= t.len(),
    decreases t.len(),
{
    if t.len() > 0 {
        lemma_source_count_le(t.drop_last(), src);
    }
}

/// Every edge is found either in frontmatter or in a wikilink.
pub proof fn lemma_sources_partition(t: Seq<TypedEdge>)
    ensures
        source_count(t, EdgeSource::Frontmatter) + source_count(t, EdgeSource::Wikilink) == t.len(),
    decreases t.len(),
{
    if t.len() > 0 {
        lemma_sources_partition(t.drop_last());
    }
}

/// Number of entries of type `ty` (see [`type_count`]).
fn count_type(entries: &[NodeIndexEntry], ty: &String) -> (n: usize)
    ensures
        n == type_count(entries@.map_values(|e: NodeIndexEntry| e@), ty@),
{
    let ghost es = entries@.map_values(|e: NodeIndexEntry| e@);
    let mut n: usize = 0;
    let mut i: usize = 0;
    while i < entries.len()
        invariant
            i <= entries.len(),
            es == entries@.map_values(|e: NodeIndexEntry| e@),
            n == type_count(es.take(i as int), ty@),
        decreases entries.len() - i,
    {
        proof {
            assert(es.take(i + 1).drop_last() =~= es.take(i as int));
            assert(es.take(i + 1).last() == es[i as int]);
            lemma_type_count_le(es.take(i as int), ty@);
        }
        if entries[i].metadata.node_type == *ty {
            n = n + 1;
        }
        i = i + 1;
    }
    assert(es.take(entries.len() as int) =~= es);
    n
}

/// Edges found in frontmatter and in wikilinks.
fn count_sources(edges: &Vec<SchemaEdge>) -> (r: (usize, usize))
    ensures
        r.0 == source_count(edge_views(edges@), EdgeSource::Frontmatter),
        r.1 == source_count(edge_views(edges@), EdgeSource::Wikilink),
{
    let ghost t = edge_views(edges@);
    let mut fm: usize = 0;
    let mut wl: usize = 0;
    let mut i: usize = 0;
    while i < edges.len()
        invariant
            i <= edges.len(),
            t == edge_views(edges@),
            fm == source_count(t.take(i as int), EdgeSource::Frontmatter),
            wl == source_count(t.take(i as int), EdgeSource::Wikilink),
        decreases edges.len() - i,
    {
        proof {
            assert(t.take(i + 1).drop_last() =~= t.take(i as int));
            assert(t.take(i + 1).last() == t[i as int]);
            assert(t[i as int] == edge_view(edges@[i as int]));
            lemma_source_count_le(t.take(i as int), EdgeSource::Frontmatter);
            lemma_source_count_le(t.take(i as int), EdgeSource::Wikilink);
        }
        match edges[i].source {
            EdgeSource::Frontmatter => fm = fm + 1,
            EdgeSource::Wikilink => wl = wl + 1,
        }
        i = i + 1;
    }
    assert(t.take(edges.len() as int) =~= t);
    (fm, wl)
}

/// Unresolved link targets summed over the entries (see [`unresolved_total`]).
fn count_unresolved(entries: &[NodeIndexEntry], adjacency: &GraphAdjacency) -> (n: usize)
    ensures
        n == unresolved_total(
            adjacency@.unresolved,
            entry_ids(entries@.map_values(|e: NodeIndexEntry| e@)),
        ),
{
    let ghost es = entries@.map_values(|e: NodeIndexEntry| e@);
    let ghost ids = entry_ids(es);
    let mut n: usize = 0;
    let mut i: usize = 0;
    while i < entries.len()
        invariant
            i <= entries.len(),
            es == entries@.map_values(|e: NodeIndexEntry| e@),
            ids == entry_ids(es),
            n == unresolved_total(adjacency@.unresolved, ids.take(i as int)),
        decreases entries.len() - i,
    {
        proof {
            assert(ids.take(i + 1).drop_last() =~= ids.take(i as int));
            assert(ids.take(i + 1).last() == ids[i as int]);
            assert(ids[i as int] == entries@[i as int].metadata.id@);
        }
        let targets = adjacency.unresolved_targets(entries[i].metadata.id.as_str());
        let ghost tv = strings_view(targets@);
        assert(tv.len() == targets@.len());
        n = n.saturating_add(targets.len());
        i = i + 1;
    }
    assert(ids.take(entries.len() as int) =~= ids);
    n
}

/// Number of sample edges kept in a schema.
pub const SAMPLE_EDGES: usize = 20;

/// `s` is the schema of an index with entries `es`: its ids and types sorted and each
/// listed once, a count per type, the resolved edges counted by source and by type
/// pattern (most frequent pattern first), the unresolved links summed, and the first
/// edges as samples.
pub open spec fn describes(s: GraphSchema, es: Seq<EntryView>) -> bool {
    let t = typed_edges(es);
    &&& s.node_count == es.len()
    &&& strictly_sorted(string_views(s.node_ids@))
    &&& string_views(s.node_ids@).to_set() == entry_ids(es).to_set()
    &&& strictly_sorted(string_views(s.node_types@))
    &&& string_views(s.node_types@).to_set() == entry_types(es).to_set()
    &&& s.nodes_by_type@.len() == s.node_types@.len()
    &&& forall|i: int| 0 <= i < s.nodes_by_type@.len() ==> (#[trigger] s.nodes_by_type@[i]).0@
        == s.node_types@[i]@ && s.nodes_by_type@[i].1 == type_count(es, s.node_types@[i]@)
    &&& s.edge_count == t.len()
    &&& s.edges_from_frontmatter == source_count(t, EdgeSource::Frontmatter)
    &&& s.edges_from_wikilinks == source_count(t, EdgeSource::Wikilink)
    &&& s.unresolved_link_count == unresolved_total(
        index_adjacency(es).unresolved,
        entry_ids(es),
    )
    &&& patterns_of(pattern_views(s.edge_patterns@), t)
    &&& edge_views(s.sample_edges@) == if t.len() <= SAMPLE_EDGES {
        t
    } else {
        t.take(SAMPLE_EDGES as int)
    }
}

/// The directed edges of a schema are exactly those found in frontmatter plus those found
/// in wikilinks.
pub proof fn law_edge_count_split(s: GraphSchema, es: Seq<EntryView>)
    requires
        describes(s, es),
    ensures
        s.edge_count == s.edges_from_frontmatter + s.edges_from_wikilinks,
{
    lemma_sources_partition(typed_edges(es));
}

impl GraphSchema {
    /// Build schema summary from an open graph index (includes adjacency scan).
    pub fn introspect(index: &GraphIndex) -> (r: Result<GraphSchema>)
        ensures
            r matches Ok(s) && describes(s, index@.entries),
    {
        let entries = index.iter();
        let ghost es = entries@.map_values(|e: NodeIndexEntry| e@);
        let mut ids: Vec<String> = Vec::new();
        let mut types: Vec<String> = Vec::new();
        let mut k: usize = 0;
        while k < entries.len()
            invariant
                k <= entries.len(),
                es == entries@.map_values(|e: NodeIndexEntry| e@),
                strings_view(ids@) == entry_ids(es.take(k as int)),
                strings_view(types@) == entry_types(es.take(k as int)),
            decreases entries.len() - k,
        {
            push_string(&mut ids, entries[k].metadata.id.clone());
            push_string(&mut types, entries[k].metadata.node_type.clone());
            k = k + 1;
            assert(entry_ids(es.take(k as int)) =~= entry_ids(es.take(k - 1)).push(es[k - 1].metadata.id));
            assert(entry_types(es.take(k as int)) =~= entry_types(es.take(k - 1)).push(
                es[k - 1].metadata.node_type,
            ));
        }
        assert(es.take(entries.len() as int) =~= es);
        assert(string_views(ids@) =~= strings_view(ids@));
        assert(string_views(types@) =~= strings_view(types@));
        let node_ids = sort_dedup(ids);
        let node_types = sort_dedup(types);
        let mut nodes_by_type: Vec<(String, usize)> = Vec::new();
        let mut j: usize = 0;
        while j < node_types.len()
            invariant
                j <= node_types.len(),
                es == entries@.map_values(|e: NodeIndexEntry| e@),
                nodes_by_type@.len() == j,
                forall|i: int| 0 <= i < j ==> (#[trigger] nodes_by_type@[i]).0@ == node_types@[i]@
                    && nodes_by_type@[i].1 == type_count(es, node_types@[i]@),
            decreases node_types.len() - j,
        {
            let c = count_type(entries, &node_types[j]);
            nodes_by_type.push((node_types[j].clone(), c));
            j = j + 1;
        }
        let edges = all_typed_edges(index);
        let (fm, wl) = count_sources(&edges);
        proof {
            lemma_sources_partition(edge_views(edges@));
        }
        let patterns = sort_patterns(count_patterns(&edges));
        let adjacency = match GraphAdjacency::from_index(index) {
            Ok(a) => a,
            Err(e) => {
                return Err(e);
            },
        };
        let unresolved = count_unresolved(entries, &adjacency);
        let edge_count = edges.len();
        let mut sample_edges = edges;
        sample_edges.truncate(SAMPLE_EDGES);
        let s = GraphSchema {
            node_count: index.len(),
            node_types,
            nodes_by_type,
            node_ids,
            edge_count,
            edges_from_frontmatter: fm,
            edges_from_wikilinks: wl,
            unresolved_link_count: unresolved,
            edge_patterns: patterns,
            sample_edges,
        };
        proof {
            let pv = pattern_views(s.edge_patterns@);
            let t = typed_edges(es);
            assert forall|i: int| 0 <= i < pv.len() implies (#[trigger] pv[i]).2 == pattern_count(t, pv[i].0, pv[i].1)
                && pv[i].2 > 0 by {
                assert(pv.contains(pv[i]));
            }
            if t.len() <= SAMPLE_EDGES {
                assert(edge_views(s.sample_edges@) =~= t);
            } else {
                assert(edge_views(s.sample_edges@) =~= t.take(SAMPLE_EDGES as int));
            }
        }
        Ok(s)
    }
}


/// Context for rendering `SKILL.md`.
#[derive(Debug, Clone)]
pub struct SkillRenderContext<'a> {
    pub graph_root: &'a str,
    pub config_path: Option<&'a str>,
    pub storage_mode: Option<&'a str>,
    pub maggraph_version: &'a str,
}

/// Abstract form of a [`SkillRenderContext`].
pub struct SkillContextView {
    pub graph_root: Seq<char>,
    pub config_path: Option<Seq<char>>,
    pub storage_mode: Option<Seq<char>>,
    pub maggraph_version: Seq<char>,
}

pub open spec fn opt_str_view(v: Option<&str>) -> Option<Seq<char>> {
    match v {
        Some(x) => Some(x@),
        None => None,
    }
}

impl<'a> View for SkillRenderContext<'a> {
    type V = SkillContextView;

    open spec fn view(&self) -> SkillContextView {
        SkillContextView {
            graph_root: self.graph_root@,
            config_path: opt_str_view(self.config_path),
            storage_mode: opt_str_view(self.storage_mode),
            maggraph_version: self.maggraph_version@,
        }
    }
}

/// Number of sample edges listed in `SKILL.md`.
pub const SKILL_SAMPLE_EDGES: usize = 10;

pub const SKILL_INTRO: &'static str = "\n---\n\n# MagGraph Agent Skill\n\nMachine-readable tool manual for this graph instance. Regenerate with `maggraph scaffold --skill` or `maggraph init --skill`.\n\n## Graph summary\n\n| Field | Value |\n|-------|-------|\n| Root | `";

pub const SKILL_OPERATIONS: &'static str = "\n## CLI operations\n\n| Command | Purpose |\n|---------|---------|\n| `maggraph query --from <id> [--depth N] [--order bfs\\|dfs]` | Traverse graph; Markdown report on stdout |\n| `maggraph scaffold --mcp [--skill]` | Regenerate MCP server and/or `SKILL.md` |\n| `maggraph sync pull` / `push` / `status` | Git sync (when `[sync]` configured) |\n\n## Python API (`maggraph` package)\n\n```python\nimport maggraph\n\nresolved = maggraph.load_config(\"";

pub const SKILL_PYTHON: &'static str = "\")\nindex = resolved.open_index()\nindex.list_nodes()\nindex.read_node(\"welcome\").to_markdown()\nindex.traverse(\"welcome\", depth=2, order=\"bfs\").to_markdown(index)\n```\n\nAsync: `read_node_async`, `traverse_async` (see `planning/PYTHON.md`).\n\n## MCP server\n\nWhen `mcp_server/` exists:\n\n```bash\npip install -r mcp_server/requirements.txt\n# Install maggraph from repo: cd python && maturin develop --release --features python-ext\nexport MAGGRAPH_CONFIG=\"";

pub const SKILL_TOOLS: &'static str = "\"\npython mcp_server/server.py\n```\n\n| Tool | Description |\n|------|-------------|\n| `list_nodes` | All indexed node ids |\n| `get_node` | Node metadata + body as Markdown |\n| `traverse_graph` | BFS/DFS traversal Markdown report |\n| `create_node` | Create a new markdown node (optional write policy) |\n| `update_node` | Update node body/frontmatter |\n| `delete_node` | Remove a node from the index |\n\nRegenerate when the graph schema changes: `maggraph scaffold --mcp --skill`.\n";

/// `- `type` — n node(s)`
pub open spec fn type_line(p: (Seq<char>, usize)) -> Seq<char> {
    "- `"@ + p.0 + "` — "@ + dec_seq(p.1 as nat) + " node(s)"@
}

/// Abstract form of `(type, count)` pairs.
pub open spec fn count_views(v: Seq<(String, usize)>) -> Seq<(Seq<char>, usize)> {
    v.map_values(|p: (String, usize)| (p.0@, p.1))
}

/// Position at or after `j` of the first key not below `k`.
pub open spec fn key_pos(s: Seq<(Seq<char>, usize)>, k: Seq<char>, j: int) -> int
    decreases s.len() - j,
{
    if j < 0 || j >= s.len() || !seq_lt(s[j].0, k) {
        j
    } else {
        key_pos(s, k, j + 1)
    }
}

/// `s` (ordered by key) with `x` put under its key: replacing the pair with that key, or
/// inserted in key order.
pub open spec fn keyed_insert(s: Seq<(Seq<char>, usize)>, x: (Seq<char>, usize)) -> Seq<(Seq<char>, usize)> {
    let p = key_pos(s, x.0, 0);
    if 0 <= p < s.len() && s[p].0 == x.0 {
        s.update(p, x)
    } else {
        s.insert(p, x)
    }
}

/// The pairs of `v` as a map ordered by key: each key once, with its last count.
pub open spec fn by_key(v: Seq<(Seq<char>, usize)>) -> Seq<(Seq<char>, usize)>
    decreases v.len(),
{
    if v.len() == 0 {
        seq![]
    } else {
        keyed_insert(by_key(v.drop_last()), v.last())
    }
}

pub proof fn lemma_key_pos_range(s: Seq<(Seq<char>, usize)>, k: Seq<char>, j: int)
    requires
        0 <= j <= s.len(),
    ensures
        j <= key_pos(s, k, j) <= s.len(),
    decreases s.len() - j,
{
    if j < s.len() && seq_lt(s[j].0, k) {
        lemma_key_pos_range(s, k, j + 1);
    }
}

/// The `(type, count)` pairs of `v` ordered by type, each type once with its last count
/// (see [`by_key`]).
pub fn counts_by_key(v: &Vec<(String, usize)>) -> (r: Vec<(String, usize)>)
    ensures
        count_views(r@) == by_key(count_views(v@)),
{
    let ghost vv = count_views(v@);
    let mut out: Vec<(String, usize)> = Vec::new();
    let mut i: usize = 0;
    assert(count_views(out@) =~= by_key(vv.take(0)));
    while i < v.len()
        invariant
            i <= v.len(),
            vv == count_views(v@),
            count_views(out@) == by_key(vv.take(i as int)),
        decreases v.len() - i,
    {
        let ghost ov = count_views(out@);
        let key = v[i].0.as_str();
        let mut p: usize = 0;
        proof {
            lemma_key_pos_range(ov, key@, 0);
        }
        while p < out.len() && str_lt(out[p].0.as_str(), key)
            invariant
                p <= out.len(),
                ov == count_views(out@),
                key_pos(ov, key@, 0) == key_pos(ov, key@, p as int),
            decreases out.len() - p,
        {
            assert(ov[p as int].0 == out@[p as int].0@);
            p = p + 1;
        }
        assert(key_pos(ov, key@, p as int) == p);
        let x = (v[i].0.clone(), v[i].1);
        assert(vv[i as int] == (x.0@, x.1));
        if p < out.len() && str_eq(out[p].0.as_str(), key) {
            assert(ov[p as int].0 == out@[p as int].0@);
            out.set(p, x);
            assert(count_views(out@) =~= ov.update(p as int, vv[i as int]));
        } else {
            proof {
                if p < out.len() {
                    assert(ov[p as int].0 == out@[p as int].0@);
                }
            }
            out.insert(p, x);
            assert(count_views(out@) =~= ov.insert(p as int, vv[i as int]));
        }
        assert(vv.take(i + 1).drop_last() =~= vv.take(i as int));
        assert(vv.take(i + 1).last() == vv[i as int]);
        i = i + 1;
    }
    assert(vv.take(v.len() as int) =~= vv);
    out
}

/// `- `id``
pub open spec fn id_line(id: Seq<char>) -> Seq<char> {
    "- `"@ + id + "`"@
}

/// `- `from` → `to` — n edge(s)`
pub open spec fn pattern_line(p: (Seq<char>, Seq<char>, nat)) -> Seq<char> {
    "- `"@ + p.0 + "` → `"@ + p.1 + "` — "@ + dec_seq(p.2) + " edge(s)"@
}

pub open spec fn source_md(src: EdgeSource) -> Seq<char> {
    match src {
        EdgeSource::Frontmatter => "frontmatter"@,
        EdgeSource::Wikilink => "wikilink"@,
    }
}

/// `- `from` → `to` (from_type → to_type, via source)`
pub open spec fn sample_line(e: TypedEdge) -> Seq<char> {
    "- `"@ + e.0 + "` → `"@ + e.1 + "` ("@ + e.2 + " → "@ + e.3 + ", via "@ + source_md(e.4) + ")"@
}

/// Lines joined by line breaks, with a final line break; `empty` when there are no items.
pub open spec fn section_md(nonempty: bool, lines: Seq<Seq<char>>, empty: Seq<char>) -> Seq<char> {
    if nonempty {
        join_seqs(lines, "\n"@) + "\n"@
    } else {
        empty
    }
}

pub open spec fn types_md(s: GraphSchema) -> Seq<char> {
    section_md(
        s.node_types@.len() > 0,
        by_key(count_views(s.nodes_by_type@)).map_values(|p: (Seq<char>, usize)| type_line(p)),
        "_No nodes indexed yet._\n"@,
    )
}

pub open spec fn ids_md(s: GraphSchema) -> Seq<char> {
    section_md(
        s.node_ids@.len() > 0,
        string_views(s.node_ids@).map_values(|id: Seq<char>| id_line(id)),
        "_No nodes indexed yet._\n"@,
    )
}

pub open spec fn patterns_md(s: GraphSchema) -> Seq<char> {
    section_md(
        s.edge_patterns@.len() > 0,
        pattern_views(s.edge_patterns@).map_values(|p: (Seq<char>, Seq<char>, nat)| pattern_line(p)),
        "_No resolved edges yet._\n"@,
    )
}

/// The first `SKILL_SAMPLE_EDGES` sample edges.
pub open spec fn listed_samples(s: GraphSchema) -> Seq<TypedEdge> {
    let t = edge_views(s.sample_edges@);
    if t.len() <= SKILL_SAMPLE_EDGES {
        t
    } else {
        t.take(SKILL_SAMPLE_EDGES as int)
    }
}

pub open spec fn samples_md(s: GraphSchema) -> Seq<char> {
    section_md(
        s.sample_edges@.len() > 0,
        listed_samples(s).map_values(|e: TypedEdge| sample_line(e)),
        "_No edges._\n"@,
    )
}

pub open spec fn opt_line(label: Seq<char>, v: Option<Seq<char>>) -> Seq<char> {
    match v {
        Some(x) => label + "\""@ + x + "\"\n"@,
        None => seq![],
    }
}

/// Config path shown in examples (`maggraph.toml` when none is given).
pub open spec fn config_display(ctx: SkillContextView) -> Seq<char> {
    match ctx.config_path {
        Some(p) => p,
        None => "maggraph.toml"@,
    }
}

/// The complete `SKILL.md` document.
pub open spec fn skill_md(s: GraphSchema, ctx: SkillContextView) -> Seq<char> {
    "---\nmaggraph_skill_version: \""@ + ctx.maggraph_version + "\"\ngraph_root: \""@ + ctx.graph_root
        + "\"\n"@ + opt_line("config: "@, ctx.config_path) + opt_line("storage_mode: "@, ctx.storage_mode)
        + "node_count: "@ + dec_seq(s.node_count as nat) + "\nedge_count: "@ + dec_seq(s.edge_count as nat)
        + SKILL_INTRO@ + ctx.graph_root + "` |\n| Nodes | "@ + dec_seq(s.node_count as nat)
        + " |\n| Directed edges | "@ + dec_seq(s.edge_count as nat) + " ("@ + dec_seq(
        s.edges_from_frontmatter as nat,
    ) + " frontmatter, "@ + dec_seq(s.edges_from_wikilinks as nat)
        + " wikilink) |\n| Unresolved wikilink targets | "@ + dec_seq(s.unresolved_link_count as nat)
        + " |\n\n## Node types\n\n"@ + types_md(s) + "\n## Node ids\n\n"@ + ids_md(s)
        + "\n## Edge patterns (by type)\n\n"@ + patterns_md(s) + "\n## Sample edges\n\n"@ + samples_md(s)
        + SKILL_OPERATIONS@ + config_display(ctx) + SKILL_PYTHON@ + config_display(ctx) + SKILL_TOOLS@
}

fn push_usize(out: &mut Vec<char>, n: usize)
    ensures
        final(out)@ == old(out)@ + dec_seq(n as nat),
{
    push_u64(out, n as u64);
}

fn type_lines(v: &Vec<(String, usize)>) -> (r: Vec<String>)
    ensures
        strings_view(r@) == count_views(v@).map_values(|p: (Seq<char>, usize)| type_line(p)),
{
    let mut r: Vec<String> = Vec::new();
    let mut i: usize = 0;
    while i < v.len()
        invariant
            i <= v.len(),
            strings_view(r@) == count_views(v@).take(i as int).map_values(|p: (Seq<char>, usize)| type_line(p)),
        decreases v.len() - i,
    {
        let mut line: Vec<char> = Vec::new();
        push_str(&mut line, "- `");
        push_str(&mut line, v[i].0.as_str());
        push_str(&mut line, "` — ");
        push_usize(&mut line, v[i].1);
        push_str(&mut line, " node(s)");
        assert(line@ =~= type_line(count_views(v@)[i as int]));
        push_string(&mut r, string_of(line.as_slice()));
        i = i + 1;
        assert(count_views(v@).take(i as int).map_values(|p: (Seq<char>, usize)| type_line(p)) =~= count_views(v@).take(i - 1).map_values(
            |p: (Seq<char>, usize)| type_line(p),
        ).push(type_line(count_views(v@)[i - 1])));
    }
    assert(count_views(v@).take(v.len() as int) =~= count_views(v@));
    r
}

fn id_lines(v: &Vec<String>) -> (r: Vec<String>)
    ensures
        strings_view(r@) == string_views(v@).map_values(|id: Seq<char>| id_line(id)),
{
    let ghost vv = string_views(v@);
    let mut r: Vec<String> = Vec::new();
    let mut i: usize = 0;
    while i < v.len()
        invariant
            i <= v.len(),
            vv == string_views(v@),
            strings_view(r@) == vv.take(i as int).map_values(|id: Seq<char>| id_line(id)),
        decreases v.len() - i,
    {
        let mut line: Vec<char> = Vec::new();
        push_str(&mut line, "- `");
        push_str(&mut line, v[i].as_str());
        push_str(&mut line, "`");
        assert(line@ =~= id_line(vv[i as int]));
        push_string(&mut r, string_of(line.as_slice()));
        i = i + 1;
        assert(vv.take(i as int).map_values(|id: Seq<char>| id_line(id)) =~= vv.take(i - 1).map_values(
            |id: Seq<char>| id_line(id),
        ).push(id_line(vv[i - 1])));
    }
    assert(vv.take(v.len() as int) =~= vv);
    r
}

fn pattern_lines(v: &Vec<EdgePattern>) -> (r: Vec<String>)
    ensures
        strings_view(r@) == pattern_views(v@).map_values(|p: (Seq<char>, Seq<char>, nat)| pattern_line(p)),
{
    let ghost vv = pattern_views(v@);
    let mut r: Vec<String> = Vec::new();
    let mut i: usize = 0;
    while i < v.len()
        invariant
            i <= v.len(),
            vv == pattern_views(v@),
            strings_view(r@) == vv.take(i as int).map_values(|p: (Seq<char>, Seq<char>, nat)| pattern_line(p)),
        decreases v.len() - i,
    {
        let mut line: Vec<char> = Vec::new();
        push_str(&mut line, "- `");
        push_str(&mut line, v[i].from_type.as_str());
        push_str(&mut line, "` → `");
        push_str(&mut line, v[i].to_type.as_str());
        push_str(&mut line, "` — ");
        push_usize(&mut line, v[i].count);
        push_str(&mut line, " edge(s)");
        assert(vv[i as int] == pattern_view(v@[i as int]));
        assert(line@ =~= pattern_line(vv[i as int]));
        push_string(&mut r, string_of(line.as_slice()));
        i = i + 1;
        assert(vv.take(i as int).map_values(|p: (Seq<char>, Seq<char>, nat)| pattern_line(p)) =~= vv.take(
            i - 1,
        ).map_values(|p: (Seq<char>, Seq<char>, nat)| pattern_line(p)).push(pattern_line(vv[i - 1])));
    }
    assert(vv.take(v.len() as int) =~= vv);
    r
}

fn sample_lines(v: &Vec<SchemaEdge>, n: usize) -> (r: Vec<String>)
    requires
        n <= v.len(),
    ensures
        strings_view(r@) == edge_views(v@).take(n as int).map_values(|e: TypedEdge| sample_line(e)),
{
    let ghost vv = edge_views(v@).take(n as int);
    let mut r: Vec<String> = Vec::new();
    let mut i: usize = 0;
    while i < n
        invariant
            i <= n,
            n <= v.len(),
            vv == edge_views(v@).take(n as int),
            strings_view(r@) == vv.take(i as int).map_values(|e: TypedEdge| sample_line(e)),
        decreases n - i,
    {
        let e = &v[i];
        let mut line: Vec<char> = Vec::new();
        push_str(&mut line, "- `");
        push_str(&mut line, e.from_id.as_str());
        push_str(&mut line, "` → `");
        push_str(&mut line, e.to_id.as_str());
        push_str(&mut line, "` (");
        push_str(&mut line, e.from_type.as_str());
        push_str(&mut line, " → ");
        push_str(&mut line, e.to_type.as_str());
        push_str(&mut line, ", via ");
        match e.source {
            EdgeSource::Frontmatter => push_str(&mut line, "frontmatter"),
            EdgeSource::Wikilink => push_str(&mut line, "wikilink"),
        }
        push_str(&mut line, ")");
        assert(vv[i as int] == edge_view(v@[i as int]));
        assert(line@ =~= sample_line(vv[i as int]));
        push_string(&mut r, string_of(line.as_slice()));
        i = i + 1;
        assert(vv.take(i as int).map_values(|e: TypedEdge| sample_line(e)) =~= vv.take(i - 1).map_values(
            |e: TypedEdge| sample_line(e),
        ).push(sample_line(vv[i - 1])));
    }
    assert(vv.take(n as int) =~= vv);
    r
}

fn push_section(out: &mut Vec<char>, nonempty: bool, lines: &Vec<String>, empty: &str)
    ensures
        final(out)@ == old(out)@ + section_md(nonempty, strings_view(lines@), empty@),
{
    if nonempty {
        push_joined(out, lines, "\n");
        push_str(out, "\n");
    } else {
        push_str(out, empty);
    }
}

fn push_opt_line(out: &mut Vec<char>, label: &str, v: Option<&str>)
    ensures
        final(out)@ == old(out)@ + opt_line(label@, opt_str_view(v)),
{
    match v {
        Some(x) => {
            push_str(out, label);
            push_str(out, "\"");
            push_str(out, x);
            push_str(out, "\"\n");
        },
        None => {},
    }
}

/// Render `SKILL.md` content from schema and context.
pub fn render_skill_md(schema: &GraphSchema, ctx: &SkillRenderContext) -> (r: String)
    ensures
        r@ == skill_md(*schema, ctx@),
{
    let s = schema;
    let config_display: &str = match ctx.config_path {
        Some(p) => p,
        None => "maggraph.toml",
    };
    let mut out: Vec<char> = Vec::new();
    push_str(&mut out, "---\nmaggraph_skill_version: \"");
    push_str(&mut out, ctx.maggraph_version);
    push_str(&mut out, "\"\ngraph_root: \"");
    push_str(&mut out, ctx.graph_root);
    push_str(&mut out, "\"\n");
    push_opt_line(&mut out, "config: ", ctx.config_path);
    push_opt_line(&mut out, "storage_mode: ", ctx.storage_mode);
    push_str(&mut out, "node_count: ");
    push_usize(&mut out, s.node_count);
    push_str(&mut out, "\nedge_count: ");
    push_usize(&mut out, s.edge_count);
    push_str(&mut out, SKILL_INTRO);
    push_str(&mut out, ctx.graph_root);
    push_str(&mut out, "` |\n| Nodes | ");
    push_usize(&mut out, s.node_count);
    push_str(&mut out, " |\n| Directed edges | ");
    push_usize(&mut out, s.edge_count);
    push_str(&mut out, " (");
    push_usize(&mut out, s.edges_from_frontmatter);
    push_str(&mut out, " frontmatter, ");
    push_usize(&mut out, s.edges_from_wikilinks);
    push_str(&mut out, " wikilink) |\n| Unresolved wikilink targets | ");
    push_usize(&mut out, s.unresolved_link_count);
    push_str(&mut out, " |\n\n## Node types\n\n");
    let keyed = counts_by_key(&s.nodes_by_type);
    let types = type_lines(&keyed);
    push_section(&mut out, s.node_types.len() > 0, &types, "_No nodes indexed yet._\n");
    push_str(&mut out, "\n## Node ids\n\n");
    let ids = id_lines(&s.node_ids);
    push_section(&mut out, s.node_ids.len() > 0, &ids, "_No nodes indexed yet._\n");
    push_str(&mut out, "\n## Edge patterns (by type)\n\n");
    let patterns = pattern_lines(&s.edge_patterns);
    push_section(&mut out, s.edge_patterns.len() > 0, &patterns, "_No resolved edges yet._\n");
    push_str(&mut out, "\n## Sample edges\n\n");
    let n = if s.sample_edges.len() <= SKILL_SAMPLE_EDGES {
        s.sample_edges.len()
    } else {
        SKILL_SAMPLE_EDGES
    };
    let samples = sample_lines(&s.sample_edges, n);
    proof {
        let t = edge_views(s.sample_edges@);
        if t.len() <= SKILL_SAMPLE_EDGES {
            assert(t.take(n as int) =~= t);
        }
    }
    push_section(&mut out, s.sample_edges.len() > 0, &samples, "_No edges._\n");
    push_str(&mut out, SKILL_OPERATIONS);
    push_str(&mut out, config_display);
    push_str(&mut out, SKILL_PYTHON);
    push_str(&mut out, config_display);
    push_str(&mut out, SKILL_TOOLS);
    assert(out@ =~= skill_md(*schema, ctx@));
    string_of(out.as_slice())
}


/// Context for MCP scaffold generation.
#[derive(Debug, Clone)]
pub struct McpScaffoldContext<'a> {
    pub graph_root: &'a str,
    pub config_path: &'a str,
    pub schema: &'a GraphSchema,
}

/// Abstract form of a [`McpScaffoldContext`].
pub struct McpContextView {
    pub graph_root: Seq<char>,
    pub config_path: Seq<char>,
    pub schema: GraphSchema,
}

impl<'a> View for McpScaffoldContext<'a> {
    type V = McpContextView;

    open spec fn view(&self) -> McpContextView {
        McpContextView { graph_root: self.graph_root@, config_path: self.config_path@, schema: *self.schema }
    }
}

/// Node ids listed in the MCP README.
pub const MCP_SAMPLE_IDS: usize = 10;

/// Edge patterns listed in the MCP README.
pub const MCP_SAMPLE_PATTERNS: usize = 8;

/// `requirements.txt` of the MCP server.
pub const MCP_REQUIREMENTS: &'static str = "fastmcp>=2.0\n# maggraph: install from repo - cd python && maturin develop --release --features python-ext\n";

pub const MCP_README_HEAD: &'static str = "# MagGraph MCP Server\n\nGenerated by `maggraph scaffold --mcp`. Uses the `maggraph` Python bindings (PyO3) for graph operations.\n\n## Graph\n\n- **Config:** `";

pub const MCP_README_SETUP: &'static str = "\n\n## Setup\n\n```bash\n# From the MagGraph repository root (if maggraph is not on PyPI yet):\ncd python && maturin develop --release --features python-ext\n\npip install -r mcp_server/requirements.txt\nexport MAGGRAPH_CONFIG=\"";

pub const MCP_README_TOOLS: &'static str = "\"\npython mcp_server/server.py\n```\n\n## Tools\n\n| Tool | Description |\n|------|-------------|\n| `list_nodes` | List indexed node ids |\n| `get_node` | Read node Markdown (metadata + body) |\n| `traverse_graph` | BFS/DFS traversal report |\n| `create_node` | Create a new node (id, type, body) |\n| `update_node` | Update node body |\n| `delete_node` | Delete a node by id |\n\nSee [`planning/MCP.md`](../../planning/MCP.md) for deployment (stdio, Cursor, CI).\n\nRegenerate when the graph changes: `maggraph scaffold --mcp --skill`.\n";

pub const MCP_SERVER_HEAD: &'static str = "# MagGraph FastMCP server - wired to maggraph Python bindings.\n\nfrom __future__ import annotations\n\nimport os\nfrom functools import lru_cache\n\nimport maggraph\nfrom fastmcp import FastMCP\n\nmcp = FastMCP(\"MagGraph\")\n\nCONFIG_PATH = os.environ.get(\"MAGGRAPH_CONFIG\", r\"";

pub const MCP_SERVER_TOOLS: &'static str = "\n\n\n@lru_cache(maxsize=1)\ndef _resolved() -> maggraph.ResolvedConfig:\n    return maggraph.load_config(CONFIG_PATH)\n\n\n@lru_cache(maxsize=1)\ndef _index() -> maggraph.GraphIndex:\n    return _resolved().open_index()\n\n\n@mcp.tool\ndef list_nodes() -> list[str]:\n    \"\"\"List node ids in the MagGraph index.\"\"\"\n    return _index().list_nodes()\n\n\n@mcp.tool\ndef get_node(node_id: str) -> str:\n    \"\"\"Read a node by id (YAML frontmatter + Markdown body).\"\"\"\n    return _index().read_node(node_id).to_markdown()\n\n\n@mcp.tool\ndef traverse_graph(from_id: str, depth: int = 2, order: str = \"bfs\") -> str:\n    \"\"\"Traverse outgoing edges from from_id; returns a Markdown report.\"\"\"\n    idx = _index()\n    result = idx.traverse(from_id, depth, order)\n    return result.to_markdown(idx)\n\n\n@mcp.tool\ndef create_node(\n    node_id: str,\n    node_type: str = \"note\",\n    body: str = \"\",\n    links: list[str] | None = None,\n) -> str:\n    \"\"\"Create a new markdown node. Requires write access (local or sync leader with lock).\"\"\"\n    _index().create_node(node_id, node_type, body, links)\n    return f\"created node {node_id!r}\"\n\n\n@mcp.tool\ndef update_node(node_id: str, body: str) -> str:\n    \"\"\"Replace a node's Markdown body (frontmatter preserved).\"\"\"\n    _index().update_node(node_id, body)\n    return f\"updated node {node_id!r}\"\n\n\n@mcp.tool\ndef delete_node(node_id: str) -> str:\n    \"\"\"Delete a node by id.\"\"\"\n    _index().delete_node(node_id)\n    return f\"deleted node {node_id!r}\"\n\n\nif __name__ == \"__main__\":\n    mcp.run()\n";

/// The text that `Debug` formatting gives for a list of strings (`["a", "b"]`, each string
/// quoted and escaped).
pub uninterp spec fn debug_string_list(items: Seq<Seq<char>>) -> Seq<char>;

/// Trusted: formats `items` with `{:?}` (std's `Debug` for `Vec<String>`). The result is
/// named by [`debug_string_list`] over the strings' characters; its form is not stated.
#[verifier::external_body]
fn debug_list(items: &Vec<String>) -> (r: String)
    ensures
        r@ == debug_string_list(strings_view(items@)),
{
    format!("{:?}", items)
}

/// `items` in order, or all of them when there are fewer than `n`.
pub open spec fn first_n<T>(items: Seq<T>, n: nat) -> Seq<T> {
    if items.len() <= n {
        items
    } else {
        items.take(n as int)
    }
}

/// `` `x` `` for each item, joined by commas, or `_none_`.
pub open spec fn ticked_list(items: Seq<Seq<char>>) -> Seq<char> {
    if items.len() == 0 {
        "_none_"@
    } else {
        join_seqs(items.map_values(|x: Seq<char>| "`"@ + x + "`"@), ", "@)
    }
}

pub open spec fn pattern_item(p: (Seq<char>, Seq<char>, nat)) -> Seq<char> {
    "`"@ + p.0 + "` → `"@ + p.1 + "` ("@ + dec_seq(p.2) + ")"@
}

pub open spec fn patterns_list(ps: Seq<(Seq<char>, Seq<char>, nat)>) -> Seq<char> {
    if ps.len() == 0 {
        "_none_"@
    } else {
        join_seqs(
            first_n(ps, MCP_SAMPLE_PATTERNS as nat).map_values(|p: (Seq<char>, Seq<char>, nat)| pattern_item(p)),
            ", "@,
        )
    }
}

/// README of the generated MCP server.
pub open spec fn mcp_readme_md(ctx: McpContextView) -> Seq<char> {
    let s = ctx.schema;
    MCP_README_HEAD@ + ctx.config_path + "`\n- **Root:** `"@ + ctx.graph_root + "`\n- **Nodes:** "@
        + dec_seq(s.node_count as nat) + "\n- **Types:** "@ + ticked_list(string_views(s.node_types@))
        + "\n- **Edge patterns:** "@ + patterns_list(pattern_views(s.edge_patterns@))
        + "\n- **Sample ids:** "@ + ticked_list(first_n(string_views(s.node_ids@), MCP_SAMPLE_IDS as nat))
        + MCP_README_SETUP@ + ctx.config_path + MCP_README_TOOLS@
}

/// `server.py` of the generated MCP server.
pub open spec fn mcp_server_py(ctx: McpContextView) -> Seq<char> {
    let s = ctx.schema;
    MCP_SERVER_HEAD@ + ctx.config_path + "\")\nGRAPH_ROOT = r\""@ + ctx.graph_root + "\"\nNODE_TYPES = "@
        + debug_string_list(string_views(s.node_types@)) + "\nKNOWN_NODE_IDS = "@ + debug_string_list(
        string_views(s.node_ids@),
    ) + MCP_SERVER_TOOLS@
}

/// `` `x` `` for each of the first `n` strings (all when fewer), joined by commas, or `_none_`.
fn push_ticked(out: &mut Vec<char>, items: &Vec<String>, n: usize)
    ensures
        final(out)@ == old(out)@ + ticked_list(first_n(string_views(items@), n as nat)),
{
    let ghost vv = first_n(string_views(items@), n as nat);
    let m = if items.len() <= n {
        items.len()
    } else {
        n
    };
    assert(vv.len() == m);
    let mut parts: Vec<String> = Vec::new();
    let mut i: usize = 0;
    while i < m
        invariant
            i <= m,
            m <= items.len(),
            vv.len() == m,
            vv == first_n(string_views(items@), n as nat),
            strings_view(parts@) == vv.take(i as int).map_values(|x: Seq<char>| "`"@ + x + "`"@),
        decreases m - i,
    {
        let mut p: Vec<char> = Vec::new();
        push_str(&mut p, "`");
        push_str(&mut p, items[i].as_str());
        push_str(&mut p, "`");
        assert(vv[i as int] == items@[i as int]@);
        push_string(&mut parts, string_of(p.as_slice()));
        i = i + 1;
        assert(vv.take(i as int).map_values(|x: Seq<char>| "`"@ + x + "`"@) =~= vv.take(i - 1).map_values(
            |x: Seq<char>| "`"@ + x + "`"@,
        ).push("`"@ + vv[i - 1] + "`"@));
    }
    assert(vv.take(m as int) =~= vv);
    if m == 0 {
        push_str(out, "_none_");
    } else {
        push_joined(out, &parts, ", ");
    }
}

fn push_patterns_list(out: &mut Vec<char>, ps: &Vec<EdgePattern>)
    ensures
        final(out)@ == old(out)@ + patterns_list(pattern_views(ps@)),
{
    let ghost all = pattern_views(ps@);
    let ghost vv = first_n(all, MCP_SAMPLE_PATTERNS as nat);
    let m = if ps.len() <= MCP_SAMPLE_PATTERNS {
        ps.len()
    } else {
        MCP_SAMPLE_PATTERNS
    };
    assert(vv.len() == m);
    let mut parts: Vec<String> = Vec::new();
    let mut i: usize = 0;
    while i < m
        invariant
            i <= m,
            m <= ps.len(),
            vv.len() == m,
            all == pattern_views(ps@),
            vv == first_n(all, MCP_SAMPLE_PATTERNS as nat),
            strings_view(parts@) == vv.take(i as int).map_values(|p: (Seq<char>, Seq<char>, nat)| pattern_item(p)),
        decreases m - i,
    {
        let mut p: Vec<char> = Vec::new();
        push_str(&mut p, "`");
        push_str(&mut p, ps[i].from_type.as_str());
        push_str(&mut p, "` → `");
        push_str(&mut p, ps[i].to_type.as_str());
        push_str(&mut p, "` (");
        push_usize(&mut p, ps[i].count);
        push_str(&mut p, ")");
        assert(vv[i as int] == pattern_view(ps@[i as int]));
        assert(p@ =~= pattern_item(vv[i as int]));
        push_string(&mut parts, string_of(p.as_slice()));
        i = i + 1;
        assert(vv.take(i as int).map_values(|p: (Seq<char>, Seq<char>, nat)| pattern_item(p)) =~= vv.take(
            i - 1,
        ).map_values(|p: (Seq<char>, Seq<char>, nat)| pattern_item(p)).push(pattern_item(vv[i - 1])));
    }
    assert(vv.take(m as int) =~= vv);
    if m == 0 {
        push_str(out, "_none_");
    } else {
        push_joined(out, &parts, ", ");
    }
}

/// README of the generated MCP server (see [`mcp_readme_md`]).
pub fn render_mcp_readme(ctx: &McpScaffoldContext) -> (r: String)
    ensures
        r@ == mcp_readme_md(ctx@),
{
    let s = ctx.schema;
    let mut out: Vec<char> = Vec::new();
    push_str(&mut out, MCP_README_HEAD);
    push_str(&mut out, ctx.config_path);
    push_str(&mut out, "`\n- **Root:** `");
    push_str(&mut out, ctx.graph_root);
    push_str(&mut out, "`\n- **Nodes:** ");
    push_usize(&mut out, s.node_count);
    push_str(&mut out, "\n- **Types:** ");
    push_ticked(&mut out, &s.node_types, s.node_types.len());
    assert(first_n(string_views(s.node_types@), s.node_types@.len() as nat) == string_views(s.node_types@));
    push_str(&mut out, "\n- **Edge patterns:** ");
    push_patterns_list(&mut out, &s.edge_patterns);
    push_str(&mut out, "\n- **Sample ids:** ");
    push_ticked(&mut out, &s.node_ids, MCP_SAMPLE_IDS);
    push_str(&mut out, MCP_README_SETUP);
    push_str(&mut out, ctx.config_path);
    push_str(&mut out, MCP_README_TOOLS);
    assert(out@ =~= mcp_readme_md(ctx@));
    string_of(out.as_slice())
}

/// `server.py` of the generated MCP server (see [`mcp_server_py`]).
pub fn render_mcp_server(ctx: &McpScaffoldContext) -> (r: String)
    ensures
        r@ == mcp_server_py(ctx@),
{
    let s = ctx.schema;
    let mut out: Vec<char> = Vec::new();
    push_str(&mut out, MCP_SERVER_HEAD);
    push_str(&mut out, ctx.config_path);
    push_str(&mut out, "\")\nGRAPH_ROOT = r\"");
    push_str(&mut out, ctx.graph_root);
    push_str(&mut out, "\"\nNODE_TYPES = ");
    let types = debug_list(&s.node_types);
    assert(strings_view(s.node_types@) == string_views(s.node_types@));
    push_str(&mut out, types.as_str());
    push_str(&mut out, "\nKNOWN_NODE_IDS = ");
    let ids = debug_list(&s.node_ids);
    assert(strings_view(s.node_ids@) == string_views(s.node_ids@));
    push_str(&mut out, ids.as_str());
    push_str(&mut out, MCP_SERVER_TOOLS);
    assert(out@ =~= mcp_server_py(ctx@));
    string_of(out.as_slice())
}

} // verus!

//! Hybrid retrieval: the filters and the integer signals of each candidate node. The
//! weighted combination of signals, which is floating point, is done by the caller.
use vstd::prelude::*;

use crate::graph::{adjacent, adjacent_list, index_adjacency, AdjMap, GraphAdjacency};
use crate::index::{EntryView, GraphIndex, NodeIndexEntry};
use crate::node::{extra_get, extra_lookup, strings_view, ExtraView};
use crate::order::string_views;
use crate::query::{
    capped, entry_parts, entry_score, is_suppressed_extra, parts_score, suppressed_spec, tags_match,
    tags_match_spec,
};
use crate::text::{chars_of, lower_seq, str_eq, to_ascii_lowercase};
use crate::ip::{digits_value, lemma_digits_none};
use crate::yaml::{as_str_spec, untagged, YamlValue, YamlView};

verus! {

/// The integer a text denotes as `str::parse::<i64>` reads it: an optional `+` or `-`,
/// then one or more ASCII digits, the value in the range of `i64`.
pub open spec fn i64_text(s: Seq<char>) -> Option<i64> {
    let neg = s.len() > 0 && s[0] == '-';
    let d = if s.len() > 0 && (s[0] == '-' || s[0] == '+') { s.drop_first() } else { s };
    if d.len() == 0 {
        None
    } else {
        match digits_value(d, false) {
            None => None,
            Some(v) => {
                let x = if neg { -v } else { v };
                if i64::MIN <= x && x <= i64::MAX {
                    Some(x as i64)
                } else {
                    None
                }
            },
        }
    }
}

/// The value of a prefix of decimal digits is defined, non-negative and at most that of
/// the whole.
pub proof fn lemma_digits_prefix(s: Seq<char>, k: int)
    requires
        0 <= k <= s.len(),
        digits_value(s, false) is Some,
    ensures
        digits_value(s.take(k), false) is Some,
        0 <= digits_value(s.take(k), false)->0 <= digits_value(s, false)->0,
    decreases s.len(),
{
    if s.len() == 0 {
        assert(s.take(k) =~= s);
    } else if k == s.len() {
        assert(s.take(k) =~= s);
        lemma_digits_prefix(s.drop_last(), 0);
    } else {
        assert(s.drop_last().take(k) =~= s.take(k));
        lemma_digits_prefix(s.drop_last(), k);
        lemma_digits_prefix(s.drop_last(), s.len() - 1);
        assert(s.drop_last().take(s.len() - 1) =~= s.drop_last());
    }
}

/// Parse a text as `str::parse::<i64>` does (see [`i64_text`]).
pub fn parse_i64(s: &str) -> (r: Option<i64>)
    ensures
        r == i64_text(s@),
{
    let cs = chars_of(s);
    let neg = cs.len() > 0 && cs[0] == '-';
    let start: usize = if cs.len() > 0 && (cs[0] == '-' || cs[0] == '+') { 1 } else { 0 };
    let ghost d = if cs@.len() > 0 && (cs@[0] == '-' || cs@[0] == '+') { cs@.drop_first() } else { cs@ };
    assert(d =~= cs@.subrange(start as int, cs.len() as int));
    if start == cs.len() {
        return None;
    }
    let bound: u128 = if neg { 9223372036854775808 } else { 9223372036854775807 };
    let mut acc: u128 = 0;
    let mut i: usize = start;
    assert(d.take(0) =~= Seq::<char>::empty());
    while i < cs.len()
        invariant
            start <= i <= cs.len(),
            start < cs.len(),
            cs@ == s@,
            neg == (cs@.len() > 0 && cs@[0] == '-'),
            d == (if cs@.len() > 0 && (cs@[0] == '-' || cs@[0] == '+') { cs@.drop_first() } else { cs@ }),
            bound == (if neg { 9223372036854775808u128 } else { 9223372036854775807u128 }),
            d =~= cs@.subrange(start as int, cs.len() as int),
            digits_value(d.take(i - start), false) == Some(acc as int),
            acc <= bound,
            bound <= 9223372036854775808,
        decreases cs.len() - i,
    {
        let k = i - start;
        assert(d.take(k + 1).drop_last() =~= d.take(k as int));
        assert(d.take(k + 1).last() == cs@[i as int]);
        let c = cs[i];
        if c < '0' || c > '9' {
            proof {
                lemma_digits_none(d, false, k + 1);
            }
            return None;
        }
        let next = acc * 10 + ((c as u32) - ('0' as u32)) as u128;
        assert(digits_value(d.take(k + 1), false) == Some(next as int));
        if next > bound {
            proof {
                if digits_value(d, false) is Some {
                    lemma_digits_prefix(d, k + 1);
                }
            }
            return None;
        }
        acc = next;
        i = i + 1;
    }
    assert(d.take(cs.len() - start) =~= d);
    if neg {
        if acc == 9223372036854775808 {
            Some(i64::MIN)
        } else {
            let m = acc as i64;
            Some(-m)
        }
    } else {
        Some(acc as i64)
    }
}

/// Unix seconds of an RFC 3339 timestamp, when the text is one.
pub uninterp spec fn rfc3339_seconds(s: Seq<char>) -> Option<i64>;

/// Trusted: `chrono::DateTime::parse_from_rfc3339(s)` followed by `timestamp()`, `None` when
/// chrono refuses the text. The result is named by [`rfc3339_seconds`]; the accepted syntax
/// is not stated.
#[verifier::external_body]
fn parse_rfc3339(s: &str) -> (r: Option<i64>)
    ensures
        r == rfc3339_seconds(s@),
{
    chrono::DateTime::parse_from_rfc3339(s).ok().map(|t| t.timestamp())
}

/// The string value of an extra field (tags looked through).
pub open spec fn extra_str(extra: ExtraView, key: Seq<char>) -> Option<Seq<char>> {
    match extra_lookup(extra, key) {
        Some(v) => as_str_spec(v),
        None => None,
    }
}

/// A point in time given by a frontmatter value: an integer, or a string holding an
/// integer or an RFC 3339 timestamp.
pub open spec fn time_value(v: YamlView) -> Option<i64> {
    match untagged(v) {
        YamlView::Number(t) => i64_text(t),
        YamlView::Str(s) => match i64_text(s) {
            Some(x) => Some(x),
            None => rfc3339_seconds(s),
        },
        _ => None,
    }
}

pub open spec fn time_field(extra: ExtraView, key: Seq<char>) -> Option<i64> {
    match extra_lookup(extra, key) {
        Some(v) => time_value(v),
        None => None,
    }
}

/// The node is valid at `as_of`: not before `valid_from`, and before `valid_until`.
pub open spec fn temporally_valid_spec(extra: ExtraView, as_of: i64) -> bool {
    &&& match time_field(extra, "valid_from"@) {
        Some(t) => t <= as_of,
        None => true,
    }
    &&& match time_field(extra, "valid_until"@) {
        Some(t) => t > as_of,
        None => true,
    }
}

/// The node belongs to `project`, or names no project (`project`, else `project_id`).
pub open spec fn project_matches_spec(extra: ExtraView, project: Option<Seq<char>>) -> bool {
    match project {
        None => true,
        Some(p) => match extra_str(extra, "project"@) {
            Some(v) => v == p,
            None => match extra_str(extra, "project_id"@) {
                Some(v) => v == p,
                None => true,
            },
        },
    }
}

/// The ids that the entries declare they supersede, in index order.
pub open spec fn supersedes_list(es: Seq<EntryView>) -> Seq<Seq<char>>
    decreases es.len(),
{
    if es.len() == 0 {
        seq![]
    } else {
        supersedes_list(es.drop_last()) + match extra_str(es.last().metadata.extra, "supersedes"@) {
            Some(x) => seq![x],
            None => seq![],
        }
    }
}

/// The nodes adjacent to any of `ids`, id by id.
pub open spec fn adjacent_all(m: AdjMap, ids: Seq<Seq<char>>) -> Seq<Seq<char>>
    decreases ids.len(),
{
    if ids.len() == 0 {
        seq![]
    } else {
        adjacent_all(m, ids.drop_last()) + adjacent_list(m, ids.last())
    }
}

/// Graph proximity to the seeds: 3 for a seed, 2 for a node joined to a seed by an edge
/// (either direction), 1 for a node two such steps away, 0 otherwise.
pub open spec fn graph_tier(m: AdjMap, seeds: Seq<Seq<char>>, x: Seq<char>) -> u8 {
    if seeds.contains(x) {
        3
    } else if adjacent_all(m, seeds).contains(x) {
        2
    } else if adjacent_all(m, adjacent_all(m, seeds)).contains(x) {
        1
    } else {
        0
    }
}

/// Filters and graph seeds of a hybrid query.
#[derive(Debug, Clone, PartialEq, Eq)]
pub struct HybridFilter {
    pub text: Option<String>,
    pub node_types: Vec<String>,
    pub tags: Vec<String>,
    pub project: Option<String>,
    pub include_suppressed: bool,
    pub include_superseded: bool,
    pub seed_ids: Vec<String>,
}

/// Number of hybrid results kept: `limit`, or 20 when it is 0.
pub fn hybrid_limit(limit: usize) -> (r: usize)
    ensures
        r == if limit == 0 { 20 } else { limit },
{
    if limit == 0 {
        20
    } else {
        limit
    }
}

/// A node that passes the filters, with its integer signals.
#[derive(Debug, Clone, PartialEq, Eq)]
pub struct HybridCandidate {
    pub id: String,
    pub node_type: String,
    pub relative_path: String,
    /// Weighted count of the fields that contain the query text (0 without text).
    pub lexical_raw: i32,
    /// Proximity to the seed ids (see [`graph_tier`]).
    pub graph_tier: u8,
    pub summary: String,
    pub modified_unix: Option<i64>,
    /// `canonical_id` from the frontmatter, else the id.
    pub canonical_id: String,
}

/// Abstract form of a candidate.
pub struct CandidateView {
    pub id: Seq<char>,
    pub node_type: Seq<char>,
    pub relative_path: Seq<char>,
    pub lexical_raw: int,
    pub graph_tier: u8,
    pub summary: Seq<char>,
    pub modified_unix: Option<i64>,
    pub canonical_id: Seq<char>,
}

pub open spec fn candidate_view(c: HybridCandidate) -> CandidateView {
    CandidateView {
        id: c.id@,
        node_type: c.node_type@,
        relative_path: c.relative_path@,
        lexical_raw: c.lexical_raw as int,
        graph_tier: c.graph_tier,
        summary: c.summary@,
        modified_unix: c.modified_unix,
        canonical_id: c.canonical_id@,
    }
}

pub open spec fn candidate_views(v: Seq<HybridCandidate>) -> Seq<CandidateView> {
    v.map_values(|c: HybridCandidate| candidate_view(c))
}

/// The entry passes the type, suppression, supersession, tag, project and validity filters.
pub open spec fn passes(e: EntryView, f: HybridFilter, superseded: Seq<Seq<char>>, now: i64) -> bool {
    let extra = e.metadata.extra;
    &&& (f.node_types@.len() == 0 || strings_view(f.node_types@).contains(e.metadata.node_type))
    &&& (f.include_suppressed || !suppressed_spec(extra))
    &&& (f.include_superseded || !superseded.contains(e.metadata.id))
    &&& tags_match_spec(extra, strings_view(f.tags@))
    &&& project_matches_spec(
        extra,
        match f.project {
            Some(p) => Some(p@),
            None => None,
        },
    )
    &&& temporally_valid_spec(extra, now)
}

/// The candidate for an entry that passes the filters.
pub open spec fn candidate_for(
    e: EntryView,
    modified: Option<i64>,
    f: HybridFilter,
    needle: Seq<char>,
    m: AdjMap,
    superseded: Seq<Seq<char>>,
    now: i64,
) -> Option<CandidateView> {
    if passes(e, f, superseded, now) {
        Some(
            CandidateView {
                id: e.metadata.id,
                node_type: e.metadata.node_type,
                relative_path: e.relative_path,
                lexical_raw: if needle.len() == 0 {
                    0
                } else {
                    capped(parts_score(entry_parts(e.metadata.id, e), needle))
                },
                graph_tier: graph_tier(m, strings_view(f.seed_ids@), e.metadata.id),
                summary: e.summary,
                modified_unix: modified,
                canonical_id: match extra_str(e.metadata.extra, "canonical_id"@) {
                    Some(c) => c,
                    None => e.metadata.id,
                },
            },
        )
    } else {
        None
    }
}

/// Candidates among the entries `es`, in index order.
pub open spec fn candidates(
    es: Seq<EntryView>,
    modified: Seq<Option<i64>>,
    f: HybridFilter,
    needle: Seq<char>,
    m: AdjMap,
    superseded: Seq<Seq<char>>,
    now: i64,
) -> Seq<CandidateView>
    decreases es.len(),
{
    if es.len() == 0 {
        seq![]
    } else {
        let prev = candidates(es.drop_last(), modified.take(es.len() - 1), f, needle, m, superseded, now);
        match candidate_for(es.last(), modified[es.len() - 1], f, needle, m, superseded, now) {
            Some(c) => prev.push(c),
            None => prev,
        }
    }
}

/// String value of an extra field (see [`extra_str`]).
pub fn extra_string(extra: &Vec<(String, YamlValue)>, key: &str) -> (r: Option<String>)
    ensures
        match extra_str(crate::node::extra_view(extra@), key@) {
            Some(s) => r matches Some(x) && x@ == s,
            None => r is None,
        },
{
    match extra_get(extra, key) {
        Some(v) => match v.as_str() {
            Some(s) => Some(s.to_owned()),
            None => None,
        },
        None => None,
    }
}

fn time_of(v: &YamlValue) -> (r: Option<i64>)
    ensures
        r == time_value(v@),
{
    match v.untag() {
        YamlValue::Number(t) => parse_i64(t.as_str()),
        YamlValue::String(s) => match parse_i64(s.as_str()) {
            Some(x) => Some(x),
            None => parse_rfc3339(s.as_str()),
        },
        _ => None,
    }
}

fn time_field_exec(extra: &Vec<(String, YamlValue)>, key: &str) -> (r: Option<i64>)
    ensures
        r == time_field(crate::node::extra_view(extra@), key@),
{
    match extra_get(extra, key) {
        Some(v) => time_of(v),
        None => None,
    }
}

/// Whether the node is valid at `as_of` (see [`temporally_valid_spec`]).
pub fn temporally_valid(extra: &Vec<(String, YamlValue)>, as_of: i64) -> (b: bool)
    ensures
        b == temporally_valid_spec(crate::node::extra_view(extra@), as_of),
{
    let from_ok = match time_field_exec(extra, "valid_from") {
        Some(t) => t <= as_of,
        None => true,
    };
    let until_ok = match time_field_exec(extra, "valid_until") {
        Some(t) => t > as_of,
        None => true,
    };
    from_ok && until_ok
}

/// Whether the node belongs to `project` (see [`project_matches_spec`]).
pub fn project_matches(extra: &Vec<(String, YamlValue)>, project: Option<&str>) -> (b: bool)
    ensures
        b == project_matches_spec(
            crate::node::extra_view(extra@),
            match project {
                Some(p) => Some(p@),
                None => None,
            },
        ),
{
    match project {
        None => true,
        Some(p) => match extra_string(extra, "project") {
            Some(v) => str_eq(v.as_str(), p),
            None => match extra_string(extra, "project_id") {
                Some(v) => str_eq(v.as_str(), p),
                None => true,
            },
        },
    }
}

/// The ids that the entries supersede (see [`supersedes_list`]).
pub fn superseded_ids(entries: &[NodeIndexEntry]) -> (r: Vec<String>)
    ensures
        strings_view(r@) == supersedes_list(entries@.map_values(|e: NodeIndexEntry| e@)),
{
    let ghost es = entries@.map_values(|e: NodeIndexEntry| e@);
    let mut out: Vec<String> = Vec::new();
    let mut i: usize = 0;
    assert(es.take(0) =~= Seq::<EntryView>::empty());
    assert(strings_view(out@) =~= Seq::<Seq<char>>::empty());
    while i < entries.len()
        invariant
            i <= entries.len(),
            es == entries@.map_values(|e: NodeIndexEntry| e@),
            strings_view(out@) == supersedes_list(es.take(i as int)),
        decreases entries.len() - i,
    {
        let ghost before = strings_view(out@);
        assert(es.take(i + 1).drop_last() =~= es.take(i as int));
        assert(es.take(i + 1).last() == es[i as int]);
        match extra_string(&entries[i].metadata.extra, "supersedes") {
            Some(x) => {
                let ghost xv = x@;
                crate::graph::push_string(&mut out, x);
                assert(strings_view(out@) =~= before + seq![xv]);
            },
            None => {
                assert(before + Seq::<Seq<char>>::empty() =~= before);
            },
        }
        i = i + 1;
    }
    assert(es.take(entries.len() as int) =~= es);
    out
}

fn adjacent_all_exec(adjacency: &GraphAdjacency, ids: &Vec<String>) -> (r: Vec<String>)
    ensures
        strings_view(r@) == adjacent_all(adjacency@.outgoing, strings_view(ids@)),
{
    let ghost iv = strings_view(ids@);
    let mut out: Vec<String> = Vec::new();
    let mut i: usize = 0;
    assert(iv.take(0) =~= Seq::<Seq<char>>::empty());
    assert(strings_view(out@) =~= Seq::<Seq<char>>::empty());
    while i < ids.len()
        invariant
            i <= ids.len(),
            iv == strings_view(ids@),
            strings_view(out@) == adjacent_all(adjacency@.outgoing, iv.take(i as int)),
        decreases ids.len() - i,
    {
        let more = adjacency.adjacent_ids(ids[i].as_str());
        let ghost before = strings_view(out@);
        let mut j: usize = 0;
        while j < more.len()
            invariant
                j <= more.len(),
                strings_view(out@) == before + strings_view(more@).take(j as int),
            decreases more.len() - j,
        {
            crate::graph::push_string(&mut out, more[j].clone());
            j = j + 1;
            assert(strings_view(more@).take(j as int) =~= strings_view(more@).take(j - 1).push(more@[j - 1]@));
            assert(strings_view(out@) =~= before + strings_view(more@).take(j as int));
        }
        assert(strings_view(more@).take(more.len() as int) =~= strings_view(more@));
        assert(iv.take(i + 1).drop_last() =~= iv.take(i as int));
        assert(iv.take(i + 1).last() == iv[i as int]);
        i = i + 1;
    }
    assert(iv.take(ids.len() as int) =~= iv);
    out
}

fn contains_string(v: &Vec<String>, x: &str) -> (b: bool)
    ensures
        b == strings_view(v@).contains(x@),
{
    let ghost vv = strings_view(v@);
    let mut i: usize = 0;
    while i < v.len()
        invariant
            i <= v.len(),
            vv == strings_view(v@),
            forall|k: int| 0 <= k < i ==> vv[k] != x@,
        decreases v.len() - i,
    {
        if str_eq(v[i].as_str(), x) {
            assert(vv[i as int] == x@);
            return true;
        }
        i = i + 1;
    }
    false
}

fn passes_exec(e: &NodeIndexEntry, f: &HybridFilter, superseded: &Vec<String>, now: i64) -> (b: bool)
    ensures
        b == passes(e@, *f, strings_view(superseded@), now),
{
    let extra = &e.metadata.extra;
    if f.node_types.len() > 0 && !contains_string(&f.node_types, e.metadata.node_type.as_str()) {
        return false;
    }
    if !f.include_suppressed && is_suppressed_extra(extra) {
        return false;
    }
    if !f.include_superseded && contains_string(superseded, e.metadata.id.as_str()) {
        return false;
    }
    let project: Option<&str> = match &f.project {
        Some(p) => Some(p.as_str()),
        None => None,
    };
    tags_match(extra, f.tags.as_slice()) && project_matches(extra, project) && temporally_valid(extra, now)
}

/// Candidates of a hybrid query over `index` at time `now` (`modified` gives each entry's
/// modification time, in index order): the entries that pass the filters, in index order,
/// with their lexical score and graph proximity.
pub fn hybrid_candidates(index: &GraphIndex, f: &HybridFilter, modified: &[Option<i64>], now: i64) -> (r: Vec<
    HybridCandidate,
>)
    requires
        modified@.len() == index@.entries.len(),
    ensures
        candidate_views(r@) == candidates(
            index@.entries,
            modified@,
            *f,
            match f.text {
                Some(t) => lower_seq(t@),
                None => seq![],
            },
            index_adjacency(index@.entries).outgoing,
            supersedes_list(index@.entries),
            now,
        ),
{
    let needle: Vec<char> = match &f.text {
        Some(t) => to_ascii_lowercase(chars_of(t.as_str()).as_slice()),
        None => {
            let v: Vec<char> = Vec::new();
            assert(v@ =~= Seq::<char>::empty());
            v
        },
    };
    let ghost nv = needle@;
    let adjacency = match index.adjacency() {
        Ok(a) => a,
        Err(_) => {
            return Vec::new();
        },
    };
    let ghost m = adjacency@.outgoing;
    let hop1 = adjacent_all_exec(&adjacency, &f.seed_ids);
    let hop2 = adjacent_all_exec(&adjacency, &hop1);
    let entries = index.iter();
    let ghost es = entries@.map_values(|e: NodeIndexEntry| e@);
    let superseded = superseded_ids(entries);
    let ghost sup = strings_view(superseded@);
    let mut out: Vec<HybridCandidate> = Vec::new();
    let mut i: usize = 0;
    assert(es.take(0) =~= Seq::<EntryView>::empty());
    assert(candidate_views(out@) =~= Seq::<CandidateView>::empty());
    while i < entries.len()
        invariant
            i <= entries.len(),
            es == entries@.map_values(|e: NodeIndexEntry| e@),
            es == index@.entries,
            modified@.len() == es.len(),
            nv == needle@,
            sup == strings_view(superseded@),
            strings_view(hop1@) == adjacent_all(m, strings_view(f.seed_ids@)),
            strings_view(hop2@) == adjacent_all(m, adjacent_all(m, strings_view(f.seed_ids@))),
            candidate_views(out@) == candidates(es.take(i as int), modified@.take(i as int), *f, nv, m, sup, now),
        decreases entries.len() - i,
    {
        let e = &entries[i];
        assert(e@ == es[i as int]);
        proof {
            assert(es.take(i + 1).drop_last() =~= es.take(i as int));
            assert(es.take(i + 1).last() == es[i as int]);
            assert(modified@.take(i + 1).take(i as int) =~= modified@.take(i as int));
            assert(modified@.take(i + 1)[i as int] == modified@[i as int]);
        }
        if passes_exec(e, f, &superseded, now) {
            let lexical_raw: i32 = if needle.len() == 0 {
                0
            } else {
                let mut scratch: Vec<String> = Vec::new();
                assert(string_views(scratch@) =~= Seq::<Seq<char>>::empty());
                entry_score(e, needle.as_slice(), &mut scratch)
            };
            let id = e.metadata.id.as_str();
            let tier: u8 = if contains_string(&f.seed_ids, id) {
                3
            } else if contains_string(&hop1, id) {
                2
            } else if contains_string(&hop2, id) {
                1
            } else {
                0
            };
            let canonical = match extra_string(&e.metadata.extra, "canonical_id") {
                Some(c) => c,
                None => e.metadata.id.clone(),
            };
            let c = HybridCandidate {
                id: e.metadata.id.clone(),
                node_type: e.metadata.node_type.clone(),
                relative_path: e.relative_path.clone(),
                lexical_raw,
                graph_tier: tier,
                summary: e.summary.clone(),
                modified_unix: modified[i],
                canonical_id: canonical,
            };
            let ghost before = candidate_views(out@);
            out.push(c);
            assert(candidate_views(out@) =~= before.push(candidate_view(c)));
        }
        i = i + 1;
    }
    assert(es.take(entries.len() as int) =~= es);
    assert(modified@.take(entries.len() as int) =~= modified@);
    out
}


pub proof fn lemma_adjacent_all(m: AdjMap, ids: Seq<Seq<char>>, x: Seq<char>)
    ensures
        adjacent_all(m, ids).contains(x) <==> exists|i: int| 0 <= i < ids.len() && adjacent(m, #[trigger] ids[i], x),
    decreases ids.len(),
{
    if ids.len() > 0 {
        let d = ids.drop_last();
        lemma_adjacent_all(m, d, x);
        crate::graph::lemma_adjacent_list(m, ids.last(), x);
        let a = adjacent_all(m, d);
        let b = adjacent_list(m, ids.last());
        assert(adjacent_all(m, ids) == a + b);
        if (a + b).contains(x) {
            let k = choose|k: int| 0 <= k < (a + b).len() && (a + b)[k] == x;
            if k < a.len() {
                assert(a[k] == x);
                let i = choose|i: int| 0 <= i < d.len() && adjacent(m, #[trigger] d[i], x);
                assert(ids[i] == d[i]);
            } else {
                assert(b[k - a.len()] == x);
                assert(adjacent(m, ids[ids.len() - 1], x));
            }
        }
        if exists|i: int| 0 <= i < ids.len() && adjacent(m, #[trigger] ids[i], x) {
            let i = choose|i: int| 0 <= i < ids.len() && adjacent(m, #[trigger] ids[i], x);
            if i < d.len() {
                assert(d[i] == ids[i]);
                let k = choose|k: int| 0 <= k < a.len() && a[k] == x;
                assert((a + b)[k] == x);
            } else {
                let k = choose|k: int| 0 <= k < b.len() && b[k] == x;
                assert((a + b)[a.len() + k] == x);
            }
        }
    }
}

/// Graph proximity follows the edges, in either direction: a node is in the first tier
/// around the seeds exactly when an edge joins it to a seed, and in the second exactly when
/// an edge joins it to a node that an edge joins to a seed (seeds themselves rank above).
pub proof fn law_graph_tier(m: AdjMap, seeds: Seq<Seq<char>>, x: Seq<char>)
    ensures
        graph_tier(m, seeds, x) == 3 <==> seeds.contains(x),
        graph_tier(m, seeds, x) >= 2 <==> (seeds.contains(x) || exists|s: Seq<char>|
            seeds.contains(s) && #[trigger] adjacent(m, s, x)),
        graph_tier(m, seeds, x) >= 1 <==> (seeds.contains(x) || exists|s: Seq<char>|
            seeds.contains(s) && #[trigger] adjacent(m, s, x)) || exists|s: Seq<char>, n: Seq<char>|
            seeds.contains(s) && #[trigger] adjacent(m, s, n) && #[trigger] adjacent(m, n, x),
{
    lemma_adjacent_all(m, seeds, x);
    let h1 = adjacent_all(m, seeds);
    lemma_adjacent_all(m, h1, x);
    assert((exists|i: int| 0 <= i < seeds.len() && adjacent(m, #[trigger] seeds[i], x)) <==> (exists|s: Seq<char>|
        seeds.contains(s) && #[trigger] adjacent(m, s, x))) by {
        if exists|s: Seq<char>| seeds.contains(s) && #[trigger] adjacent(m, s, x) {
            let s = choose|s: Seq<char>| seeds.contains(s) && #[trigger] adjacent(m, s, x);
            let i = choose|i: int| 0 <= i < seeds.len() && seeds[i] == s;
            assert(adjacent(m, seeds[i], x));
        }
    }
    assert((exists|i: int| 0 <= i < h1.len() && adjacent(m, #[trigger] h1[i], x)) <==> (exists|s: Seq<char>, n: Seq<char>|
        seeds.contains(s) && #[trigger] adjacent(m, s, n) && #[trigger] adjacent(m, n, x))) by {
        if exists|i: int| 0 <= i < h1.len() && adjacent(m, #[trigger] h1[i], x) {
            let i = choose|i: int| 0 <= i < h1.len() && adjacent(m, #[trigger] h1[i], x);
            let n = h1[i];
            assert(h1.contains(n));
            lemma_adjacent_all(m, seeds, n);
            let j = choose|j: int| 0 <= j < seeds.len() && adjacent(m, #[trigger] seeds[j], n);
            assert(seeds.contains(seeds[j]));
            assert(adjacent(m, seeds[j], n) && adjacent(m, n, x));
        }
        if exists|s: Seq<char>, n: Seq<char>| seeds.contains(s) && #[trigger] adjacent(m, s, n) && #[trigger] adjacent(m, n, x) {
            let (s, n) = choose|s: Seq<char>, n: Seq<char>| seeds.contains(s) && #[trigger] adjacent(m, s, n) && #[trigger] adjacent(m, n, x);
            let j = choose|j: int| 0 <= j < seeds.len() && seeds[j] == s;
            lemma_adjacent_all(m, seeds, n);
            assert(adjacent(m, seeds[j], n));
            assert(h1.contains(n));
            let i = choose|i: int| 0 <= i < h1.len() && h1[i] == n;
            assert(adjacent(m, h1[i], x));
        }
    }
}

} // verus!

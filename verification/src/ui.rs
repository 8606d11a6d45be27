//! Data and rules behind the local dashboard's JSON API: edge listings, error status
//! codes, node patches and the loopback-only bind check.
use vstd::prelude::*;

use crate::error::{MagGraphError, Result};
use crate::graph::{flat_pairs, index_adjacency, pair_views, GraphAdjacency};
use crate::index::GraphIndex;
use crate::node::{extra_view, strings_view, Node};
use crate::order::{pairs_sorted, sort_pairs, string_pairs};
use crate::text::{push_str, string_of};
use crate::yaml::YamlValue;

verus! {

/// A resolved edge `from → to`.
#[derive(Debug, Clone)]
pub struct EdgeRecord {
    pub from: String,
    pub to: String,
}

/// Every resolved and unresolved edge of the graph.
#[derive(Debug, Clone)]
pub struct EdgesResponse {
    pub edges: Vec<EdgeRecord>,
    pub unresolved: Vec<UnresolvedEdge>,
}

/// A link target of `from` that names no node.
#[derive(Debug, Clone)]
pub struct UnresolvedEdge {
    pub from: String,
    pub target: String,
}

pub open spec fn record_pairs(v: Seq<EdgeRecord>) -> Seq<(Seq<char>, Seq<char>)> {
    v.map_values(|e: EdgeRecord| (e.from@, e.to@))
}

pub open spec fn unresolved_pairs(v: Seq<UnresolvedEdge>) -> Seq<(Seq<char>, Seq<char>)> {
    v.map_values(|e: UnresolvedEdge| (e.from@, e.target@))
}

fn to_records(pairs: &Vec<(String, String)>) -> (r: Vec<EdgeRecord>)
    ensures
        record_pairs(r@) == string_pairs(pairs@),
{
    let ghost pv = string_pairs(pairs@);
    let mut out: Vec<EdgeRecord> = Vec::new();
    let mut i: usize = 0;
    while i < pairs.len()
        invariant
            i <= pairs.len(),
            pv == string_pairs(pairs@),
            record_pairs(out@) == pv.take(i as int),
        decreases pairs.len() - i,
    {
        let rec = EdgeRecord { from: pairs[i].0.clone(), to: pairs[i].1.clone() };
        let ghost before = record_pairs(out@);
        out.push(rec);
        assert(record_pairs(out@) =~= before.push(pv[i as int]));
        i = i + 1;
        assert(pv.take(i as int) =~= pv.take(i - 1).push(pv[i - 1]));
    }
    assert(pv.take(pairs.len() as int) =~= pv);
    out
}

fn to_unresolved(pairs: &Vec<(String, String)>) -> (r: Vec<UnresolvedEdge>)
    ensures
        unresolved_pairs(r@) == string_pairs(pairs@),
{
    let ghost pv = string_pairs(pairs@);
    let mut out: Vec<UnresolvedEdge> = Vec::new();
    let mut i: usize = 0;
    while i < pairs.len()
        invariant
            i <= pairs.len(),
            pv == string_pairs(pairs@),
            unresolved_pairs(out@) == pv.take(i as int),
        decreases pairs.len() - i,
    {
        let rec = UnresolvedEdge { from: pairs[i].0.clone(), target: pairs[i].1.clone() };
        let ghost before = unresolved_pairs(out@);
        out.push(rec);
        assert(unresolved_pairs(out@) =~= before.push(pv[i as int]));
        i = i + 1;
        assert(pv.take(i as int) =~= pv.take(i - 1).push(pv[i - 1]));
    }
    assert(pv.take(pairs.len() as int) =~= pv);
    out
}

/// Every resolved edge, sorted by source then target.
pub fn collect_edges(adjacency: &GraphAdjacency) -> (r: Vec<EdgeRecord>)
    ensures
        pairs_sorted(record_pairs(r@)),
        record_pairs(r@).to_multiset() == flat_pairs(adjacency@.outgoing).to_multiset(),
{
    let all = adjacency.outgoing_edges();
    assert(pair_views(all@) =~= string_pairs(all@));
    let sorted = sort_pairs(all);
    to_records(&sorted)
}

/// Every unresolved link target, sorted by source then target.
pub fn collect_unresolved(adjacency: &GraphAdjacency) -> (r: Vec<UnresolvedEdge>)
    ensures
        pairs_sorted(unresolved_pairs(r@)),
        unresolved_pairs(r@).to_multiset() == flat_pairs(adjacency@.unresolved).to_multiset(),
{
    let all = adjacency.unresolved_edges();
    assert(pair_views(all@) =~= string_pairs(all@));
    let sorted = sort_pairs(all);
    to_unresolved(&sorted)
}

/// The edge listing of an index: its resolved edges and its unresolved link targets,
/// each sorted.
pub fn list_edges(index: &GraphIndex) -> (r: Result<EdgesResponse>)
    ensures
        r matches Ok(resp) && {
            let adj = index_adjacency(index@.entries);
            &&& pairs_sorted(record_pairs(resp.edges@))
            &&& record_pairs(resp.edges@).to_multiset() == flat_pairs(adj.outgoing).to_multiset()
            &&& pairs_sorted(unresolved_pairs(resp.unresolved@))
            &&& unresolved_pairs(resp.unresolved@).to_multiset() == flat_pairs(adj.unresolved).to_multiset()
        },
{
    let adjacency = match index.adjacency() {
        Ok(a) => a,
        Err(e) => {
            return Err(e);
        },
    };
    let edges = collect_edges(&adjacency);
    let unresolved = collect_unresolved(&adjacency);
    Ok(EdgesResponse { edges, unresolved })
}

/// HTTP status for an error: 404 for a missing node, 409 for an id clash, 400 for invalid
/// input, 500 otherwise.
pub open spec fn status_of(err: MagGraphError) -> u16 {
    match err {
        MagGraphError::NodeNotFound { .. } => 404,
        MagGraphError::NodeAlreadyExists { .. } => 409,
        MagGraphError::DuplicateNodeId { .. } => 409,
        MagGraphError::ConfigValidation(_) => 400,
        MagGraphError::NodeParse { .. } => 400,
        MagGraphError::Index(_) => 400,
        _ => 500,
    }
}

/// HTTP status code that the dashboard answers an error with (see [`status_of`]).
pub fn error_status(err: &MagGraphError) -> (s: u16)
    ensures
        s == status_of(*err),
{
    match err {
        MagGraphError::NodeNotFound { .. } => 404,
        MagGraphError::NodeAlreadyExists { .. } => 409,
        MagGraphError::DuplicateNodeId { .. } => 409,
        MagGraphError::ConfigValidation(_) => 400,
        MagGraphError::NodeParse { .. } => 400,
        MagGraphError::Index(_) => 400,
        _ => 500,
    }
}

/// Changes to a node: each field given replaces the node's own.
pub struct NodePatch {
    pub body: Option<String>,
    pub node_type: Option<String>,
    pub source: Option<Option<String>>,
    pub links: Option<Vec<String>>,
    pub extra: Option<Vec<(String, YamlValue)>>,
}

/// `node` with every field that `patch` gives replaced; id and path unchanged.
pub fn apply_patch(node: Node, patch: NodePatch) -> (r: Node)
    ensures
        r@.metadata.id == node@.metadata.id,
        r@.relative_path == node@.relative_path,
        r@.body == (match patch.body {
            Some(b) => b@,
            None => node@.body,
        }),
        r@.metadata.node_type == (match patch.node_type {
            Some(t) => t@,
            None => node@.metadata.node_type,
        }),
        r@.metadata.source == (match patch.source {
            Some(s) => match s {
                Some(x) => Some(x@),
                None => None,
            },
            None => node@.metadata.source,
        }),
        r@.metadata.links == (match patch.links {
            Some(l) => strings_view(l@),
            None => node@.metadata.links,
        }),
        r@.metadata.extra == (match patch.extra {
            Some(x) => extra_view(x@),
            None => node@.metadata.extra,
        }),
{
    let mut n = node;
    if let Some(body) = patch.body {
        n.body = body;
    }
    if let Some(node_type) = patch.node_type {
        n.metadata.node_type = node_type;
    }
    if let Some(source) = patch.source {
        n.metadata.source = source;
    }
    if let Some(links) = patch.links {
        n.metadata.links = links;
    }
    if let Some(extra) = patch.extra {
        n.metadata.extra = extra;
    }
    n
}

/// Message for a bind address that is not loopback.
pub open spec fn non_loopback_message(ip: Seq<char>) -> Seq<char> {
    "UI server must bind to loopback (127.0.0.1 or ::1); got "@ + ip
}

/// The dashboard binds to loopback only: an address whose ip (`ip`, with `is_loopback`
/// telling whether it is a loopback address) is refused otherwise.
pub fn check_loopback(ip: &str, is_loopback: bool) -> (r: Result<()>)
    ensures
        is_loopback <==> r is Ok,
        !is_loopback ==> (r matches Err(MagGraphError::ConfigValidation(m)) && m@ == non_loopback_message(
            ip@,
        )),
{
    if is_loopback {
        Ok(())
    } else {
        let mut out: Vec<char> = Vec::new();
        push_str(&mut out, "UI server must bind to loopback (127.0.0.1 or ::1); got ");
        push_str(&mut out, ip);
        Err(MagGraphError::ConfigValidation(string_of(out.as_slice())))
    }
}

} // verus!

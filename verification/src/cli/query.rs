//! `maggraph query`: traversal order parsing and the traversal report.
use vstd::prelude::*;

use super::debug_str;
use super::debug_str_text;
use crate::error::{MagGraphError, Result};
use crate::graph::{index_adjacency, report_md, traversal_visits, traverse, TraversalOrder};
use crate::index::{find_id, GraphIndex};
use crate::text::{chars_of, lower_seq, push_str, str_eq, string_of, to_ascii_lowercase};

verus! {

/// Arguments of `maggraph query`.
#[derive(Debug, Clone, PartialEq, Eq)]
pub struct QueryArgs {
    /// Start node id for traversal
    pub from: String,
    /// Maximum traversal depth (start node is depth 0)
    pub depth: u32,
    /// Traversal order: bfs or dfs
    pub order: TraversalOrder,
    /// Output format (only markdown is supported)
    pub format: String,
}

/// Message for an unknown traversal order (`name` already lower-cased).
pub open spec fn order_message(name: Seq<char>) -> Seq<char> {
    "unknown order "@ + debug_str_text(name) + "; use bfs or dfs"@
}

/// Traversal order named `s`, in any letter case.
pub fn parse_order(s: &str) -> (r: core::result::Result<TraversalOrder, String>)
    ensures
        lower_seq(s@) == "bfs"@ ==> r == Ok::<TraversalOrder, String>(TraversalOrder::Bfs),
        lower_seq(s@) == "dfs"@ ==> r == Ok::<TraversalOrder, String>(TraversalOrder::Dfs),
        lower_seq(s@) != "bfs"@ && lower_seq(s@) != "dfs"@ ==> (r matches Err(m) && m@ == order_message(
            lower_seq(s@),
        )),
{
    proof {
        reveal_strlit("bfs");
        reveal_strlit("dfs");
        assert("bfs"@[0] != "dfs"@[0]);
    }
    let cs = chars_of(s);
    let lowered = string_of(to_ascii_lowercase(cs.as_slice()).as_slice());
    if str_eq(lowered.as_str(), "bfs") {
        Ok(TraversalOrder::Bfs)
    } else if str_eq(lowered.as_str(), "dfs") {
        Ok(TraversalOrder::Dfs)
    } else {
        let mut out: Vec<char> = Vec::new();
        push_str(&mut out, "unknown order ");
        let quoted = debug_str(lowered.as_str());
        push_str(&mut out, quoted.as_str());
        push_str(&mut out, "; use bfs or dfs");
        Err(string_of(out.as_slice()))
    }
}

/// Message for an output format other than `markdown`.
pub open spec fn markdown_only_message(format: Seq<char>) -> Seq<char> {
    "unsupported output format "@ + debug_str_text(format) + "; only markdown is supported"@
}

/// The traversal report of `maggraph query`: the output format must be `markdown` and the
/// start node must exist; the report lists the visits of a traversal from it.
pub fn run(index: &GraphIndex, args: &QueryArgs) -> (r: Result<String>)
    ensures
        args.format@ != "markdown"@ ==> (r matches Err(MagGraphError::ConfigValidation(m)) && m@
            == markdown_only_message(args.format@)),
        args.format@ == "markdown"@ && find_id(index@.entries, args.from@) is None ==> (r matches Err(
            MagGraphError::NodeNotFound { id },
        ) && id@ == args.from@),
        args.format@ == "markdown"@ && find_id(index@.entries, args.from@) is Some ==> (r matches Ok(
            report,
        ) && report@ == report_md(
            args.from@,
            args.depth as nat,
            args.order,
            traversal_visits(index_adjacency(index@.entries).outgoing, args.from@, args.depth as nat, args.order),
            index@.entries,
        )),
{
    if !str_eq(args.format.as_str(), "markdown") {
        let mut out: Vec<char> = Vec::new();
        push_str(&mut out, "unsupported output format ");
        let quoted = debug_str(args.format.as_str());
        push_str(&mut out, quoted.as_str());
        push_str(&mut out, "; only markdown is supported");
        return Err(MagGraphError::ConfigValidation(string_of(out.as_slice())));
    }
    let adjacency = match index.adjacency() {
        Ok(a) => a,
        Err(e) => {
            return Err(e);
        },
    };
    let result = match traverse(&adjacency, index, args.from.as_str(), args.depth, args.order) {
        Ok(t) => t,
        Err(e) => {
            return Err(e);
        },
    };
    Ok(result.to_markdown(index))
}

} // verus!

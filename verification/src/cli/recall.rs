//! `maggraph recall`: the recall bundle of a node and its output format.
use vstd::prelude::*;

use super::{format_message, output_format, OutputFormat};
use crate::error::{MagGraphError, Result};
use crate::index::{find_id, GraphIndex};
use crate::recall::{bundle_of, recall_bundle, RecallBundle};

verus! {

/// Arguments of `maggraph recall`.
#[derive(Debug, Clone, PartialEq, Eq)]
pub struct RecallArgs {
    /// Node id to recall
    pub node_id: String,
    /// Why this node is being recalled
    pub reason: String,
    /// Maximum body excerpt characters
    pub body_chars: usize,
    /// Output format: markdown or json
    pub format: String,
}

/// The recall bundle of `args.node_id` with the output format to print it in. A missing
/// node is reported before an unknown format.
pub fn run(index: &GraphIndex, args: &RecallArgs) -> (r: Result<(OutputFormat, RecallBundle)>)
    ensures
        find_id(index@.entries, args.node_id@) is None ==> (r matches Err(
            MagGraphError::NodeNotFound { id },
        ) && id@ == args.node_id@),
        find_id(index@.entries, args.node_id@) is Some && args.format@ != "markdown"@ && args.format@
            != "json"@ ==> (r matches Err(MagGraphError::ConfigValidation(m)) && m@ == format_message(
            args.format@,
        )),
        find_id(index@.entries, args.node_id@) is Some && args.format@ == "markdown"@ ==> (r matches Ok(
            (f, b),
        ) && f == OutputFormat::Markdown && bundle_of(
            b,
            index@.entries,
            args.node_id@,
            args.reason@,
            args.body_chars,
        )),
        find_id(index@.entries, args.node_id@) is Some && args.format@ == "json"@ ==> (r matches Ok(
            (f, b),
        ) && f == OutputFormat::Json && bundle_of(
            b,
            index@.entries,
            args.node_id@,
            args.reason@,
            args.body_chars,
        )),
{
    let bundle = match recall_bundle(index, args.node_id.as_str(), args.reason.clone(), args.body_chars) {
        Ok(b) => b,
        Err(e) => {
            return Err(e);
        },
    };
    match output_format(args.format.as_str()) {
        Ok(f) => Ok((f, bundle)),
        Err(e) => Err(e),
    }
}

} // verus!

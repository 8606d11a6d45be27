//! `maggraph search`: the search options of the command and its Markdown report.
use vstd::prelude::*;

use super::{format_message, output_format, OutputFormat};
use crate::error::{MagGraphError, Result};
use crate::index::GraphIndex;
use crate::node::strings_view;
use crate::query::{join_seqs, search_index, search_results, QueryOptions, SearchResult};
use crate::recall::push_joined;
use crate::text::{chars_of, push_i64, push_str, signed_dec_seq, dec_seq, string_of};
use crate::node::copy_strings;

verus! {

/// Arguments of `maggraph search`.
#[derive(Debug, Clone, PartialEq, Eq)]
pub struct SearchArgs {
    /// Text to search across ids, types, links, frontmatter, and body
    pub query: String,
    /// Filter by node type
    pub node_type: Option<String>,
    /// Require a tag. Repeat for multiple required tags.
    pub tags: Vec<String>,
    /// Include nodes marked suppressed=true
    pub include_suppressed: bool,
    /// Maximum results
    pub limit: usize,
    /// Only include nodes modified after this Unix timestamp
    pub modified_since_unix: Option<i64>,
    /// Output format: markdown or json
    pub format: String,
}

/// The search options of the arguments: no text when the query is empty.
pub open spec fn options_of(args: SearchArgs, o: QueryOptions) -> bool {
    &&& o.text == (if args.query@.len() == 0 {
        None::<String>
    } else {
        Some(args.query)
    })
    &&& o.node_type == args.node_type
    &&& strings_view(o.tags@) == strings_view(args.tags@)
    &&& o.include_suppressed == args.include_suppressed
    &&& o.limit == args.limit
    &&& o.modified_since_unix == args.modified_since_unix
}

fn copy_opt(s: &Option<String>) -> (r: Option<String>)
    ensures
        r == *s,
{
    match s {
        Some(x) => Some(x.clone()),
        None => None,
    }
}

/// The results of `maggraph search` with the format to print them in (`modified` gives each
/// entry's modification time, in index order).
pub fn run(index: &GraphIndex, args: &SearchArgs, modified: &[Option<i64>]) -> (r: Result<
    (OutputFormat, Vec<SearchResult>),
>)
    requires
        modified@.len() == index@.entries.len(),
    ensures
        args.format@ != "markdown"@ && args.format@ != "json"@ ==> (r matches Err(
            MagGraphError::ConfigValidation(m),
        ) && m@ == format_message(args.format@)),
        args.format@ == "markdown"@ || args.format@ == "json"@ ==> (r matches Ok((f, v)) && (f
            == OutputFormat::Markdown <==> args.format@ == "markdown"@) && exists|o: QueryOptions|
            options_of(*args, o) && search_results(v@, index@.entries, modified@, o)),
{
    let text = if chars_of(args.query.as_str()).len() == 0 {
        None
    } else {
        Some(args.query.clone())
    };
    let options = QueryOptions {
        text,
        node_type: copy_opt(&args.node_type),
        tags: copy_strings(&args.tags),
        include_suppressed: args.include_suppressed,
        limit: args.limit,
        modified_since_unix: args.modified_since_unix,
    };
    let results = match search_index(index, &options, modified) {
        Ok(v) => v,
        Err(e) => {
            return Err(e);
        },
    };
    match output_format(args.format.as_str()) {
        Ok(f) => {
            assert(options_of(*args, options));
            Ok((f, results))
        },
        Err(e) => Err(e),
    }
}

/// Heading, score, file and matched fields of a search result.
pub open spec fn result_head_md(item: SearchResult) -> Seq<char> {
    "## `"@ + item.id@ + "` ("@ + item.node_type@ + ")\n"@ + "- **Score:** "@ + signed_dec_seq(
        item.score as int,
    ) + "\n"@ + "- **File:** `"@ + item.relative_path@ + "`\n"@ + "- **Matched:** "@ + join_seqs(
        strings_view(item.matched@),
        ", "@,
    ) + "\n"@
}

pub open spec fn modified_md(m: Option<i64>) -> Seq<char> {
    match m {
        Some(t) => "- **Modified:** "@ + signed_dec_seq(t as int) + "\n"@,
        None => seq![],
    }
}

pub open spec fn summary_md(summary: Seq<char>) -> Seq<char> {
    if summary.len() > 0 {
        "\n"@ + summary + "\n"@
    } else {
        seq![]
    }
}

/// Section of the search report for one result.
pub open spec fn result_md(item: SearchResult) -> Seq<char> {
    result_head_md(item) + modified_md(item.modified_unix) + summary_md(item.summary@) + "\n"@
}

pub open spec fn results_md(items: Seq<SearchResult>) -> Seq<char>
    decreases items.len(),
{
    if items.len() == 0 {
        seq![]
    } else {
        results_md(items.drop_last()) + result_md(items.last())
    }
}

/// The Markdown report of `maggraph search`.
pub open spec fn search_md(query: Seq<char>, items: Seq<SearchResult>) -> Seq<char> {
    "# MagGraph Search Results\n\n"@ + "- **Query:** `"@ + query + "`\n"@ + "- **Results:** "@ + dec_seq(
        items.len(),
    ) + "\n\n"@ + results_md(items)
}

fn push_result_head(out: &mut Vec<char>, item: &SearchResult)
    ensures
        final(out)@ == old(out)@ + result_head_md(*item),
{
    push_str(out, "## `");
    push_str(out, item.id.as_str());
    push_str(out, "` (");
    push_str(out, item.node_type.as_str());
    push_str(out, ")\n");
    push_str(out, "- **Score:** ");
    push_i64(out, item.score as i64);
    push_str(out, "\n");
    push_str(out, "- **File:** `");
    push_str(out, item.relative_path.as_str());
    push_str(out, "`\n");
    push_str(out, "- **Matched:** ");
    push_joined(out, &item.matched, ", ");
    push_str(out, "\n");
    assert(out@ =~= old(out)@ + result_head_md(*item));
}

fn push_result_md(out: &mut Vec<char>, item: &SearchResult)
    ensures
        final(out)@ == old(out)@ + result_md(*item),
{
    push_result_head(out, item);
    let ghost a = out@;
    match item.modified_unix {
        Some(m) => {
            push_str(out, "- **Modified:** ");
            push_i64(out, m);
            push_str(out, "\n");
        },
        None => {},
    }
    assert(out@ =~= a + modified_md(item.modified_unix));
    let ghost b = out@;
    if chars_of(item.summary.as_str()).len() > 0 {
        push_str(out, "\n");
        push_str(out, item.summary.as_str());
        push_str(out, "\n");
    }
    assert(out@ =~= b + summary_md(item.summary@));
    push_str(out, "\n");
    assert(out@ =~= old(out)@ + result_md(*item));
}

/// The Markdown report of `maggraph search` (see [`search_md`]).
pub fn render_markdown(query: &str, results: &Vec<SearchResult>) -> (r: String)
    ensures
        r@ == search_md(query@, results@),
{
    let mut out: Vec<char> = Vec::new();
    push_str(&mut out, "# MagGraph Search Results\n\n");
    push_str(&mut out, "- **Query:** `");
    push_str(&mut out, query);
    push_str(&mut out, "`\n");
    push_str(&mut out, "- **Results:** ");
    crate::text::push_u64(&mut out, results.len() as u64);
    push_str(&mut out, "\n\n");
    let ghost head = out@;
    let mut i: usize = 0;
    while i < results.len()
        invariant
            i <= results.len(),
            out@ == head + results_md(results@.take(i as int)),
        decreases results.len() - i,
    {
        push_result_md(&mut out, &results[i]);
        i = i + 1;
        assert(results@.take(i as int).drop_last() =~= results@.take(i - 1));
    }
    assert(results@.take(results.len() as int) =~= results@);
    string_of(out.as_slice())
}

} // verus!

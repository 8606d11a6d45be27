//! What the command-line tool decides and prints, apart from reading files, parsing
//! arguments and writing output: each command's arguments, its checks and its reports.
use vstd::prelude::*;

use crate::error::{MagGraphError, Result};
use crate::text::{chars_of, push_str, string_of};

pub mod init;
pub mod query;
pub mod recall;
pub mod scaffold;
pub mod search;
pub mod sync;
pub mod ui;

verus! {

/// The text that `Debug` formatting gives for a string: quoted, with quotes, backslashes
/// and control characters escaped.
pub uninterp spec fn debug_str_text(s: Seq<char>) -> Seq<char>;

/// Trusted: formats `s` with `{:?}` (std's `Debug` for `str`). The result is named by
/// [`debug_str_text`] over the characters of `s`; its form is not stated.
#[verifier::external_body]
pub(crate) fn debug_str(s: &str) -> (r: String)
    ensures
        r@ == debug_str_text(s@),
{
    format!("{:?}", s)
}

/// Output format of a report.
#[derive(Debug, Clone, Copy, PartialEq, Eq, Structural)]
pub enum OutputFormat {
    Markdown,
    Json,
}

/// Message for an output format that is neither `markdown` nor `json`.
pub open spec fn format_message(format: Seq<char>) -> Seq<char> {
    "unsupported output format "@ + debug_str_text(format) + "; use markdown or json"@
}

/// `markdown` or `json`; any other name is refused with a validation error.
pub fn output_format(format: &str) -> (r: Result<OutputFormat>)
    ensures
        format@ == "markdown"@ ==> r == Ok::<OutputFormat, MagGraphError>(OutputFormat::Markdown),
        format@ == "json"@ ==> r == Ok::<OutputFormat, MagGraphError>(OutputFormat::Json),
        format@ != "markdown"@ && format@ != "json"@ ==> (r matches Err(
            MagGraphError::ConfigValidation(m),
        ) && m@ == format_message(format@)),
{
    proof {
        reveal_strlit("markdown");
        reveal_strlit("json");
        assert("json"@[0] != "markdown"@[0]);
    }
    if crate::text::str_eq(format, "markdown") {
        Ok(OutputFormat::Markdown)
    } else if crate::text::str_eq(format, "json") {
        Ok(OutputFormat::Json)
    } else {
        let mut out: Vec<char> = Vec::new();
        push_str(&mut out, "unsupported output format ");
        let quoted = debug_str(format);
        push_str(&mut out, quoted.as_str());
        push_str(&mut out, "; use markdown or json");
        Err(MagGraphError::ConfigValidation(string_of(out.as_slice())))
    }
}

/// Default log level for a count of `-v` flags.
pub open spec fn log_level_spec(verbose: u8) -> Seq<char> {
    if verbose == 0 {
        "warn"@
    } else if verbose == 1 {
        "info"@
    } else if verbose == 2 {
        "debug"@
    } else {
        "trace"@
    }
}

/// Default log level for a count of `-v` flags: `warn`, `info`, `debug`, then `trace`.
pub fn log_level(verbose: u8) -> (r: &'static str)
    ensures
        r@ == log_level_spec(verbose),
{
    match verbose {
        0 => "warn",
        1 => "info",
        2 => "debug",
        _ => "trace",
    }
}

} // verus!

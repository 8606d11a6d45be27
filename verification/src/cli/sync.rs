//! `maggraph sync`: arguments and the reports printed after each action.
use vstd::prelude::*;

use crate::query::join_seqs;
use crate::node::strings_view;
use crate::sync::engine::{PullResult, SyncStatus};
use crate::text::{dec_seq, push_str, push_u64, string_of};

verus! {

/// Arguments of `maggraph sync`.
#[derive(Debug, Clone, PartialEq, Eq)]
pub struct SyncArgs {
    pub action: SyncAction,
}

/// Sync actions.
#[derive(Debug, Clone, PartialEq, Eq)]
pub enum SyncAction {
    /// Show working tree and upstream status
    Status,
    /// Fetch and merge from remote
    Pull,
    /// Commit outstanding changes and push (leader only)
    Push {
        /// Commit message when there are uncommitted changes
        message: String,
    },
    /// Initialize Git repository and remote (leader or follower)
    Init,
}

pub open spec fn bool_text(b: bool) -> Seq<char> {
    if b {
        "true"@
    } else {
        "false"@
    }
}

/// The report of `maggraph sync status`.
pub open spec fn status_text(s: SyncStatus) -> Seq<char> {
    "branch: "@ + s.branch@ + "\nuncommitted: "@ + dec_seq(s.uncommitted as nat) + "\nahead: "@ + dec_seq(
        s.ahead as nat,
    ) + "\nbehind: "@ + dec_seq(s.behind as nat) + "\nclean: "@ + bool_text(s.clean) + "\n"@
}

fn push_bool(out: &mut Vec<char>, b: bool)
    ensures
        final(out)@ == old(out)@ + bool_text(b),
{
    if b {
        push_str(out, "true");
    } else {
        push_str(out, "false");
    }
}

/// The report of `maggraph sync status` (see [`status_text`]).
pub fn status_report(s: &SyncStatus) -> (r: String)
    ensures
        r@ == status_text(*s),
{
    let mut out: Vec<char> = Vec::new();
    push_str(&mut out, "branch: ");
    push_str(&mut out, s.branch.as_str());
    push_str(&mut out, "\nuncommitted: ");
    push_u64(&mut out, s.uncommitted as u64);
    push_str(&mut out, "\nahead: ");
    push_u64(&mut out, s.ahead as u64);
    push_str(&mut out, "\nbehind: ");
    push_u64(&mut out, s.behind as u64);
    push_str(&mut out, "\nclean: ");
    push_bool(&mut out, s.clean);
    push_str(&mut out, "\n");
    assert(out@ =~= status_text(*s));
    string_of(out.as_slice())
}

/// Conflict paths, each on an indented line.
pub open spec fn conflict_lines(paths: Seq<Seq<char>>) -> Seq<char>
    decreases paths.len(),
{
    if paths.len() == 0 {
        seq![]
    } else {
        conflict_lines(paths.drop_last()) + "  "@ + paths.last() + "\n"@
    }
}

/// The report of `maggraph sync pull`.
pub open spec fn pull_text(p: PullResult) -> Seq<char> {
    if p.conflicts@.len() == 0 {
        "pull complete (merged="@ + bool_text(p.merged) + ", fast_forward="@ + bool_text(p.fast_forward)
            + ")\n"@
    } else {
        "pull paused with merge conflicts:\n"@ + conflict_lines(strings_view(p.conflicts@))
    }
}

/// The report of `maggraph sync pull` (see [`pull_text`]): the merge outcome, or the paths
/// left in conflict.
pub fn pull_report(p: &PullResult) -> (r: String)
    ensures
        r@ == pull_text(*p),
{
    let mut out: Vec<char> = Vec::new();
    if p.conflicts.len() == 0 {
        push_str(&mut out, "pull complete (merged=");
        push_bool(&mut out, p.merged);
        push_str(&mut out, ", fast_forward=");
        push_bool(&mut out, p.fast_forward);
        push_str(&mut out, ")\n");
        assert(out@ =~= pull_text(*p));
        return string_of(out.as_slice());
    }
    push_str(&mut out, "pull paused with merge conflicts:\n");
    let ghost head = out@;
    let ghost cv = strings_view(p.conflicts@);
    let mut i: usize = 0;
    while i < p.conflicts.len()
        invariant
            i <= p.conflicts.len(),
            cv == strings_view(p.conflicts@),
            out@ == head + conflict_lines(cv.take(i as int)),
        decreases p.conflicts.len() - i,
    {
        push_str(&mut out, "  ");
        push_str(&mut out, p.conflicts[i].as_str());
        push_str(&mut out, "\n");
        i = i + 1;
        assert(cv.take(i as int).drop_last() =~= cv.take(i - 1));
        assert(out@ =~= head + conflict_lines(cv.take(i as int)));
    }
    assert(cv.take(p.conflicts.len() as int) =~= cv);
    string_of(out.as_slice())
}

/// The report of `maggraph sync push`.
pub open spec fn push_text(commit: Option<Seq<char>>) -> Seq<char> {
    match commit {
        Some(c) => "pushed commit "@ + c + "\n"@,
        None => "nothing to commit; push complete\n"@,
    }
}

/// The report of `maggraph sync push` (see [`push_text`]).
pub fn push_report(commit: &Option<String>) -> (r: String)
    ensures
        r@ == push_text(
            match commit {
                Some(c) => Some(c@),
                None => None,
            },
        ),
{
    let mut out: Vec<char> = Vec::new();
    match commit {
        Some(c) => {
            push_str(&mut out, "pushed commit ");
            push_str(&mut out, c.as_str());
            push_str(&mut out, "\n");
        },
        None => push_str(&mut out, "nothing to commit; push complete\n"),
    }
    string_of(out.as_slice())
}

} // verus!

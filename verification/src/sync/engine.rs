//! Decisions of the Git sync engine; the Git operations themselves run in the caller.
use vstd::prelude::*;

use crate::config::{ResolvedConfig, SyncConfig, SyncRole};
use crate::error::{MagGraphError, Result};
use crate::sync::policy::{PolicyView, WritePolicy};
use crate::text::{push_str, string_of};

verus! {

/// Name of the Git remote used for sync.
pub const DEFAULT_REMOTE: &'static str = "origin";

/// Branch that sync works on.
pub const DEFAULT_BRANCH: &'static str = "main";

/// Repository status summary.
#[derive(Debug, Clone, PartialEq, Eq)]
pub struct SyncStatus {
    pub branch: String,
    pub uncommitted: usize,
    pub ahead: usize,
    pub behind: usize,
    pub clean: bool,
}

/// Result of a pull (fetch + merge) operation.
#[derive(Debug, Clone, PartialEq, Eq)]
pub struct PullResult {
    pub merged: bool,
    pub fast_forward: bool,
    pub conflicts: Vec<String>,
}

/// Result of a push operation.
#[derive(Debug, Clone, PartialEq, Eq)]
pub struct PushResult {
    pub pushed: bool,
    pub commit: Option<String>,
}

/// Label of a sync role.
pub open spec fn role_label_spec(role: SyncRole) -> Seq<char> {
    match role {
        SyncRole::Leader => "leader"@,
        SyncRole::Follower => "follower"@,
    }
}

pub fn role_label(role: SyncRole) -> (r: &'static str)
    ensures
        r@ == role_label_spec(role),
{
    match role {
        SyncRole::Leader => "leader",
        SyncRole::Follower => "follower",
    }
}

/// Full reference name of the sync branch.
pub fn branch_ref_name() -> (r: String)
    ensures
        r@ == "refs/heads/"@ + "main"@,
{
    let mut out: Vec<char> = Vec::new();
    push_str(&mut out, "refs/heads/");
    push_str(&mut out, DEFAULT_BRANCH);
    string_of(out.as_slice())
}

/// The `[sync]` section of a configuration, which sync requires.
pub fn sync_settings(resolved: &ResolvedConfig) -> (r: Result<&SyncConfig>)
    ensures
        match resolved.config.sync {
            Some(s) => r matches Ok(t) && *t == s,
            None => r matches Err(MagGraphError::SyncNotConfigured),
        },
{
    match &resolved.config.sync {
        Some(s) => Ok(s),
        None => Err(MagGraphError::SyncNotConfigured),
    }
}

/// Only a leader commits and pushes; a follower is refused as read-only.
pub fn require_leader(role: SyncRole) -> (r: Result<()>)
    ensures
        role == SyncRole::Leader ==> r is Ok,
        role == SyncRole::Follower ==> (r matches Err(MagGraphError::ReadOnlyRole { role: l }) && l@
            == "follower"@),
{
    match role {
        SyncRole::Leader => Ok(()),
        SyncRole::Follower => Err(MagGraphError::ReadOnlyRole { role: "follower".to_owned() }),
    }
}

/// The write policy of a sync role before any lock is taken.
pub fn write_policy(role: SyncRole) -> (r: WritePolicy<'static>)
    ensures
        r@ == (PolicyView { role: Some(role), locked: false }),
{
    match role {
        SyncRole::Follower => WritePolicy::follower(),
        SyncRole::Leader => WritePolicy::from_role(SyncRole::Leader),
    }
}

/// How a follower graph is obtained.
#[derive(Debug, Clone, Copy, PartialEq, Eq, Structural)]
pub enum ClonePlan {
    /// The graph root already is a clone: open it.
    Open,
    /// Clone the remote into the (absent) graph root.
    Clone,
}

/// Decide how to set up a follower: only followers clone; an existing clone is opened,
/// an absent root is cloned into, and any other existing root is refused.
pub fn clone_follower_plan(role: SyncRole, root_path: &str, has_git_dir: bool, root_exists: bool) -> (r: Result<ClonePlan>)
    ensures
        role != SyncRole::Follower ==> (r matches Err(MagGraphError::ConfigValidation(m)) && m@
            == "clone_follower requires [sync].role = \"follower\""@),
        role == SyncRole::Follower && has_git_dir ==> r == Ok::<ClonePlan, MagGraphError>(ClonePlan::Open),
        role == SyncRole::Follower && !has_git_dir && root_exists ==> (r matches Err(
            MagGraphError::Git { message },
        ) && message@ == "graph root "@ + root_path@
            + " exists but is not a git clone; remove it or pick an empty path"@),
        role == SyncRole::Follower && !has_git_dir && !root_exists ==> r == Ok::<ClonePlan, MagGraphError>(
            ClonePlan::Clone,
        ),
{
    if role != SyncRole::Follower {
        return Err(
            MagGraphError::ConfigValidation(
                "clone_follower requires [sync].role = \"follower\"".to_owned(),
            ),
        );
    }
    if has_git_dir {
        return Ok(ClonePlan::Open);
    }
    if root_exists {
        let mut out: Vec<char> = Vec::new();
        push_str(&mut out, "graph root ");
        push_str(&mut out, root_path);
        push_str(&mut out, " exists but is not a git clone; remove it or pick an empty path");
        return Err(MagGraphError::Git { message: string_of(out.as_slice()) });
    }
    Ok(ClonePlan::Clone)
}

/// What Git's merge analysis said about the fetched commit.
#[derive(Debug, Clone, Copy, PartialEq, Eq, Structural)]
pub enum MergeAnalysis {
    UpToDate,
    FastForward,
    Normal,
    Other,
}

/// The next step of a pull.
#[derive(Debug, Clone, Copy, PartialEq, Eq, Structural)]
pub enum PullStep {
    /// Nothing to merge.
    UpToDate,
    /// Move the branch to the fetched commit.
    FastForward,
    /// Merge and, without conflicts, commit the merge.
    Merge,
    /// Git cannot merge this.
    Unsupported,
}

/// Decide the pull step: nothing when HEAD already is the fetched commit or the analysis
/// says up to date, then fast-forward, then a normal merge.
pub fn pull_step(same_commit: bool, analysis: MergeAnalysis) -> (r: PullStep)
    ensures
        same_commit ==> r == PullStep::UpToDate,
        !same_commit ==> r == match analysis {
            MergeAnalysis::UpToDate => PullStep::UpToDate,
            MergeAnalysis::FastForward => PullStep::FastForward,
            MergeAnalysis::Normal => PullStep::Merge,
            MergeAnalysis::Other => PullStep::Unsupported,
        },
{
    if same_commit {
        return PullStep::UpToDate;
    }
    match analysis {
        MergeAnalysis::UpToDate => PullStep::UpToDate,
        MergeAnalysis::FastForward => PullStep::FastForward,
        MergeAnalysis::Normal => PullStep::Merge,
        MergeAnalysis::Other => PullStep::Unsupported,
    }
}


/// The outcome of a pull once its step has run. `conflicts` is `Some` of the conflicting
/// paths when Git reported conflicts after a merge, else `None`; a merge without conflicts
/// was committed.
pub fn pull_result(step: PullStep, conflicts: Option<Vec<String>>) -> (r: Result<PullResult>)
    ensures
        step == PullStep::UpToDate ==> (r matches Ok(p) && !p.merged && !p.fast_forward
            && p.conflicts@.len() == 0),
        step == PullStep::FastForward ==> (r matches Ok(p) && p.merged && p.fast_forward
            && p.conflicts@.len() == 0),
        step == PullStep::Merge && conflicts is None ==> (r matches Ok(p) && p.merged
            && !p.fast_forward && p.conflicts@.len() == 0),
        step == PullStep::Merge && conflicts is Some ==> (r matches Ok(p) && !p.merged
            && !p.fast_forward && p.conflicts@ == conflicts->0@),
        step == PullStep::Unsupported ==> (r matches Err(MagGraphError::Git { message })
            && message@ == "unsupported merge analysis result"@),
{
    match step {
        PullStep::UpToDate => Ok(PullResult { merged: false, fast_forward: false, conflicts: Vec::new() }),
        PullStep::FastForward => Ok(PullResult { merged: true, fast_forward: true, conflicts: Vec::new() }),
        PullStep::Merge => match conflicts {
            None => Ok(PullResult { merged: true, fast_forward: false, conflicts: Vec::new() }),
            Some(paths) => Ok(PullResult { merged: false, fast_forward: false, conflicts: paths }),
        },
        PullStep::Unsupported => Err(
            MagGraphError::Git { message: "unsupported merge analysis result".to_owned() },
        ),
    }
}

/// Contents of the `.gitignore` written into a new sync repository: the metadata
/// directory stays local.
pub const DEFAULT_GITIGNORE: &'static str = "# MagGraph local metadata (not synced)\n.maggraph/\n";

/// Status of a repository from its counts: clean when nothing is uncommitted, ahead or
/// behind.
pub fn sync_status(branch: String, uncommitted: usize, ahead: usize, behind: usize) -> (r: SyncStatus)
    ensures
        r.branch@ == branch@,
        r.uncommitted == uncommitted,
        r.ahead == ahead,
        r.behind == behind,
        r.clean == (uncommitted == 0 && ahead == 0 && behind == 0),
{
    SyncStatus { branch, uncommitted, ahead, behind, clean: uncommitted == 0 && ahead == 0 && behind == 0 }
}

} // verus!

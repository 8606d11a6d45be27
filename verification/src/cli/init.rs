//! `maggraph init`: what initialization does for given arguments and configuration.
use vstd::prelude::*;

use crate::config::ResolvedConfig;

verus! {

/// Arguments of `maggraph init`.
#[derive(Debug, Clone, Copy, PartialEq, Eq)]
pub struct InitArgs {
    /// Skip creating the .maggraph metadata directory
    pub no_metadata_dir: bool,
    /// Initialize or attach Git repository for [sync]
    pub git: bool,
    /// Generate SKILL.md in the graph root after initialization
    pub skill: bool,
}

/// The steps of an initialization, in order: create the graph root (with the metadata
/// directory or not), initialize the sync repository, write `SKILL.md`.
#[derive(Debug, Clone, Copy, PartialEq, Eq)]
pub struct InitPlan {
    pub metadata_dir: bool,
    pub init_sync: bool,
    pub write_skill: bool,
}

/// Plan an initialization: the metadata directory unless refused, the sync repository
/// when asked for or when `[sync]` is configured, `SKILL.md` when asked for.
pub fn run(resolved: &ResolvedConfig, args: &InitArgs) -> (p: InitPlan)
    ensures
        p.metadata_dir == !args.no_metadata_dir,
        p.init_sync == (args.git || resolved.config.sync is Some),
        p.write_skill == args.skill,
{
    InitPlan {
        metadata_dir: !args.no_metadata_dir,
        init_sync: args.git || resolved.config.sync.is_some(),
        write_skill: args.skill,
    }
}

} // verus!

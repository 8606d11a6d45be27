//! `maggraph scaffold` (and `maggraph init --skill`): the agent artifacts of a graph.
use vstd::prelude::*;

use crate::agent::{
    describes, mcp_readme_md, mcp_server_py, render_mcp_readme, render_mcp_server, render_skill_md,
    skill_md, GraphSchema, McpContextView, McpScaffoldContext, SkillContextView, SkillRenderContext,
    MCP_REQUIREMENTS,
};
use crate::config::{ResolvedConfig, StorageMode};
use crate::error::{MagGraphError, Result};
use crate::index::GraphIndex;

verus! {

/// Arguments of `maggraph scaffold`.
#[derive(Debug, Clone, PartialEq, Eq)]
pub struct ScaffoldArgs {
    /// Emit a FastMCP Python server scaffold
    pub mcp: bool,
    /// Output directory for generated artifacts (default: current directory)
    pub output: String,
    /// Also write SKILL.md into the graph root
    pub skill: bool,
}

/// Name of a storage mode in generated artifacts.
pub open spec fn mode_label(mode: StorageMode) -> Seq<char> {
    match mode {
        StorageMode::Local => "local"@,
        StorageMode::Lakehouse => "lakehouse"@,
    }
}

/// Name of a storage mode in generated artifacts (see [`mode_label`]).
pub fn storage_mode_label(mode: StorageMode) -> (r: &'static str)
    ensures
        r@ == mode_label(mode),
{
    match mode {
        StorageMode::Local => "local",
        StorageMode::Lakehouse => "lakehouse",
    }
}

/// `SKILL.md` context of a configuration, for a tool of version `version`.
pub open spec fn skill_context_of(resolved: ResolvedConfig, version: Seq<char>) -> SkillContextView {
    SkillContextView {
        graph_root: resolved.root_path@,
        config_path: Some(resolved.config_path@),
        storage_mode: Some(mode_label(resolved.config.storage.mode)),
        maggraph_version: version,
    }
}

/// `SKILL.md` context of a configuration (see [`skill_context_of`]).
pub fn skill_context<'a>(resolved: &'a ResolvedConfig, version: &'a str) -> (c: SkillRenderContext<'a>)
    ensures
        c@ == skill_context_of(*resolved, version@),
{
    SkillRenderContext {
        graph_root: resolved.root_path.as_str(),
        config_path: Some(resolved.config_path.as_str()),
        storage_mode: Some(storage_mode_label(resolved.config.storage.mode)),
        maggraph_version: version,
    }
}

/// The files of the MCP server scaffold.
#[derive(Debug, Clone, PartialEq, Eq)]
pub struct McpFiles {
    pub readme: String,
    pub requirements: String,
    pub server: String,
}

/// What `maggraph scaffold` writes: the MCP server files and `SKILL.md`, each when asked for.
#[derive(Debug, Clone, PartialEq, Eq)]
pub struct ScaffoldOutput {
    pub mcp: Option<McpFiles>,
    pub skill_md: Option<String>,
}

pub open spec fn scaffold_refusal() -> Seq<char> {
    "scaffold requires at least one of --mcp or --skill"@
}

/// `maggraph scaffold` must be asked for at least one artifact.
pub fn check_request(args: &ScaffoldArgs) -> (r: Result<()>)
    ensures
        args.mcp || args.skill <==> r is Ok,
        !args.mcp && !args.skill ==> (r matches Err(MagGraphError::ConfigValidation(m)) && m@
            == scaffold_refusal()),
{
    if !args.mcp && !args.skill {
        return Err(MagGraphError::ConfigValidation("scaffold requires at least one of --mcp or --skill".to_owned()));
    }
    Ok(())
}

/// The artifacts of `maggraph scaffold` for the graph `index` of `resolved`: at least one of
/// `--mcp` and `--skill` is required; both are rendered from the graph's schema.
pub fn run(resolved: &ResolvedConfig, index: &GraphIndex, args: &ScaffoldArgs, version: &str) -> (r: Result<
    ScaffoldOutput,
>)
    ensures
        !args.mcp && !args.skill ==> (r matches Err(MagGraphError::ConfigValidation(m)) && m@
            == scaffold_refusal()),
        args.mcp || args.skill ==> (r matches Ok(out) && exists|s: GraphSchema|
            {
                &&& describes(s, index@.entries)
                &&& args.mcp ==> (out.mcp matches Some(f) && f.requirements@ == MCP_REQUIREMENTS@
                    && f.readme@ == mcp_readme_md(
                    McpContextView { graph_root: resolved.root_path@, config_path: resolved.config_path@, schema: s },
                ) && f.server@ == mcp_server_py(
                    McpContextView { graph_root: resolved.root_path@, config_path: resolved.config_path@, schema: s },
                ))
                &&& !args.mcp ==> out.mcp is None
                &&& args.skill ==> (out.skill_md matches Some(k) && k@ == skill_md(
                    s,
                    skill_context_of(*resolved, version@),
                ))
                &&& !args.skill ==> out.skill_md is None
            }),
{
    match check_request(args) {
        Ok(()) => {},
        Err(e) => {
            return Err(e);
        },
    }
    let schema = match GraphSchema::introspect(index) {
        Ok(s) => s,
        Err(e) => {
            return Err(e);
        },
    };
    let mcp = if args.mcp {
        let ctx = McpScaffoldContext {
            graph_root: resolved.root_path.as_str(),
            config_path: resolved.config_path.as_str(),
            schema: &schema,
        };
        Some(McpFiles {
            readme: render_mcp_readme(&ctx),
            requirements: MCP_REQUIREMENTS.to_owned(),
            server: render_mcp_server(&ctx),
        })
    } else {
        None
    };
    let skill_md_text = if args.skill {
        let ctx = skill_context(resolved, version);
        Some(render_skill_md(&schema, &ctx))
    } else {
        None
    };
    Ok(ScaffoldOutput { mcp, skill_md: skill_md_text })
}

} // verus!

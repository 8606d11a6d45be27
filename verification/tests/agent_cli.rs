use maggraph::agent::{render_mcp_readme, render_mcp_server, render_skill_md, GraphSchema, McpScaffoldContext, SkillRenderContext, MCP_REQUIREMENTS};
use maggraph::cli::init::{run as init_run, InitArgs};
use maggraph::cli::query::{parse_order, run as query_run, QueryArgs};
use maggraph::cli::recall::{run as recall_run, RecallArgs};
use maggraph::cli::scaffold::{run as scaffold_run, skill_context, storage_mode_label, ScaffoldArgs};
use maggraph::cli::search::{render_markdown, run as search_run, SearchArgs};
use maggraph::cli::sync::{pull_report, push_report, status_report};
use maggraph::cli::{log_level, output_format, OutputFormat};
use maggraph::config::{MagGraphConfig, ResolvedConfig, StorageConfig, StorageMode, SyncConfig, SyncRole};
use maggraph::error::MagGraphError;
use maggraph::graph::TraversalOrder;
use maggraph::index::GraphIndex;
use maggraph::node::{Node, NodeMetadata};
use maggraph::query::SearchResult;
use maggraph::sync::engine::{PullResult, SyncStatus};

fn note(id: &str, links: &[&str], body: &str) -> Node {
    Node {
        metadata: NodeMetadata {
            id: id.to_string(),
            node_type: "note".to_string(),
            source: None,
            links: links.iter().map(|l| l.to_string()).collect(),
            extra: Vec::new(),
        },
        body: body.to_string(),
        relative_path: format!("{id}.md"),
    }
}

/// The basic example graph: two notes linking to each other.
fn basic_example() -> GraphIndex {
    GraphIndex::from_scanned(
        "examples/basic/knowledge_graph".to_string(),
        vec![
            note("welcome", &["getting_started"], "# Welcome\n\nStart with [[getting_started]].\n"),
            note("getting_started", &[], "# Getting Started\n\nBack to [[welcome]] or [[missing_page]].\n"),
        ],
    )
    .expect("open")
}

fn resolved(mode: StorageMode, sync: Option<SyncConfig>) -> ResolvedConfig {
    ResolvedConfig {
        config: MagGraphConfig {
            storage: StorageConfig { mode, root_path: "./knowledge_graph".to_string() },
            lakehouse: None,
            sync,
        },
        config_path: "maggraph.toml".to_string(),
        root_path: "knowledge_graph".to_string(),
    }
}

#[test]
fn introspect_basic_example_has_edges_and_patterns() {
    let index = basic_example();
    let schema = GraphSchema::introspect(&index).expect("introspect");

    assert!(schema.node_count >= 2);
    assert!(schema.node_types.contains(&"note".to_string()));
    assert!(schema.node_ids.contains(&"welcome".to_string()));
    assert!(schema.edge_count >= 1);
    assert!(schema.edges_from_frontmatter >= 1 || schema.edges_from_wikilinks >= 1);
    assert!(!schema.edge_patterns.is_empty());
}

#[test]
fn schema_introspect_basic_example() {
    let index = basic_example();
    let schema = GraphSchema::introspect(&index).expect("introspect");
    assert!(schema.node_count >= 2);
    assert!(schema.node_types.contains(&"note".to_string()));
    assert!(schema.node_ids.contains(&"welcome".to_string()));
    assert!(schema.edge_count >= 1);
}

#[test]
fn introspect_counts_exactly() {
    let schema = GraphSchema::introspect(&basic_example()).expect("introspect");
    assert_eq!(schema.node_ids, vec!["getting_started".to_string(), "welcome".to_string()]);
    assert_eq!(schema.node_types, vec!["note".to_string()]);
    assert_eq!(schema.nodes_by_type, vec![("note".to_string(), 2)]);
    // welcome: frontmatter + wikilink to getting_started; getting_started: wikilink to welcome.
    assert_eq!(schema.edges_from_frontmatter, 1);
    assert_eq!(schema.edges_from_wikilinks, 2);
    assert_eq!(schema.edge_count, 3);
    assert_eq!(schema.unresolved_link_count, 1);
    assert_eq!(schema.edge_patterns.len(), 1);
    assert_eq!(schema.edge_patterns[0].count, 3);
    assert_eq!(schema.sample_edges.len(), 3);
    assert_eq!(schema.sample_edges[0].from_id, "welcome");
}

#[test]
fn introspect_empty_graph() {
    let index = GraphIndex::from_scanned("g".to_string(), Vec::new()).expect("open");
    let schema = GraphSchema::introspect(&index).expect("introspect");
    assert_eq!(schema.node_count, 0);
    assert!(schema.edge_patterns.is_empty());
    let ctx = SkillRenderContext { graph_root: "g", config_path: None, storage_mode: None, maggraph_version: "0.1.0" };
    let md = render_skill_md(&schema, &ctx);
    assert!(md.contains("_No nodes indexed yet._"));
    assert!(md.contains("_No resolved edges yet._"));
    assert!(md.contains("_No edges._"));
    assert!(md.contains("maggraph.load_config(\"maggraph.toml\")"));
    assert!(!md.contains("storage_mode:"));
}

#[test]
fn render_skill_contains_operations() {
    let index = basic_example();
    let schema = GraphSchema::introspect(&index).expect("introspect");
    let ctx = SkillRenderContext {
        graph_root: "examples/basic/knowledge_graph",
        config_path: Some("maggraph.toml"),
        storage_mode: Some("local"),
        maggraph_version: "0.1.0",
    };
    let md = render_skill_md(&schema, &ctx);
    assert!(md.contains("maggraph_skill_version"));
    assert!(md.contains("traverse_graph"));
    assert!(md.contains("maggraph query"));
}

#[test]
fn render_skill_header_and_sections_exact() {
    let schema = GraphSchema::introspect(&basic_example()).expect("introspect");
    let ctx = SkillRenderContext { graph_root: "g", config_path: Some("c.toml"), storage_mode: Some("local"), maggraph_version: "9.9" };
    let md = render_skill_md(&schema, &ctx);
    assert!(md.starts_with("---\nmaggraph_skill_version: \"9.9\"\ngraph_root: \"g\"\nconfig: \"c.toml\"\nstorage_mode: \"local\"\nnode_count: 2\nedge_count: 3\n---\n"));
    assert!(md.contains("| Directed edges | 3 (1 frontmatter, 2 wikilink) |"));
    assert!(md.contains("## Node types\n\n- `note` — 2 node(s)\n\n## Node ids\n\n- `getting_started`\n- `welcome`\n\n"));
    assert!(md.contains("- `note` → `note` — 3 edge(s)\n"));
    assert!(md.contains("- `welcome` → `getting_started` (note → note, via frontmatter)"));
    assert!(md.contains("export MAGGRAPH_CONFIG=\"c.toml\""));
}

#[test]
fn mcp_scaffold_renders_server_with_maggraph_import() {
    let schema = GraphSchema::introspect(&basic_example()).expect("introspect");
    let ctx = McpScaffoldContext { graph_root: "g", config_path: "examples/basic/maggraph.toml", schema: &schema };
    let server = render_mcp_server(&ctx);
    assert!(server.contains("import maggraph"));
    assert!(server.contains("def traverse_graph"));
    assert!(server.contains("def create_node"));
    assert!(server.contains("NODE_TYPES = [\"note\"]\nKNOWN_NODE_IDS = [\"getting_started\", \"welcome\"]\n"));
    assert!(server.contains("return f\"created node {node_id!r}\""));
    let readme = render_mcp_readme(&ctx);
    assert!(readme.contains("- **Types:** `note`\n- **Edge patterns:** `note` → `note` (3)\n- **Sample ids:** `getting_started`, `welcome`\n"));
    assert!(MCP_REQUIREMENTS.starts_with("fastmcp>=2.0\n"));
}

#[test]
fn init_plan_follows_args_and_sync() {
    let plain = resolved(StorageMode::Local, None);
    let plan = init_run(&plain, &InitArgs { no_metadata_dir: false, git: false, skill: true });
    assert!(plan.metadata_dir && !plan.init_sync && plan.write_skill);
    let synced = resolved(
        StorageMode::Local,
        Some(SyncConfig { role: SyncRole::Leader, remote_url: "git@x:y.git".to_string() }),
    );
    let plan = init_run(&synced, &InitArgs { no_metadata_dir: true, git: false, skill: false });
    assert!(!plan.metadata_dir && plan.init_sync && !plan.write_skill);
}

#[test]
fn parse_order_is_case_insensitive() {
    assert_eq!(parse_order("BFS"), Ok(TraversalOrder::Bfs));
    assert_eq!(parse_order("dfs"), Ok(TraversalOrder::Dfs));
    assert_eq!(parse_order("Walk"), Err("unknown order \"walk\"; use bfs or dfs".to_string()));
}

#[test]
fn query_run_reports_and_checks() {
    let index = basic_example();
    let args = QueryArgs { from: "welcome".to_string(), depth: 1, order: TraversalOrder::Bfs, format: "markdown".to_string() };
    let report = query_run(&index, &args).expect("report");
    assert!(report.starts_with("# MagGraph Traversal Report\n\n- **Start:** `welcome`\n- **Max depth:** 1\n- **Order:** BFS\n- **Nodes reached:** 2\n"));
    let bad = QueryArgs { format: "json".to_string(), ..args.clone() };
    match query_run(&index, &bad).expect_err("format") {
        MagGraphError::ConfigValidation(m) => {
            assert_eq!(m, "unsupported output format \"json\"; only markdown is supported")
        }
        other => panic!("unexpected {other:?}"),
    }
    let missing = QueryArgs { from: "does_not_exist".to_string(), ..args };
    assert!(matches!(query_run(&index, &missing), Err(MagGraphError::NodeNotFound { .. })));
}

#[test]
fn output_formats() {
    assert_eq!(output_format("markdown").unwrap(), OutputFormat::Markdown);
    assert_eq!(output_format("json").unwrap(), OutputFormat::Json);
    match output_format("xml").unwrap_err() {
        MagGraphError::ConfigValidation(m) => assert_eq!(m, "unsupported output format \"xml\"; use markdown or json"),
        other => panic!("unexpected {other:?}"),
    }
    assert_eq!(log_level(0), "warn");
    assert_eq!(log_level(2), "debug");
    assert_eq!(log_level(7), "trace");
}

#[test]
fn recall_run_orders_errors() {
    let index = basic_example();
    let args = RecallArgs { node_id: "welcome".to_string(), reason: "test".to_string(), body_chars: 1200, format: "markdown".to_string() };
    let (format, bundle) = recall_run(&index, &args).expect("recall");
    assert_eq!(format, OutputFormat::Markdown);
    assert_eq!(bundle.backlinks, vec!["getting_started".to_string()]);
    assert!(bundle.to_markdown().contains("Reason"));
    let missing = RecallArgs { node_id: "nope".to_string(), format: "xml".to_string(), ..args.clone() };
    assert!(matches!(recall_run(&index, &missing), Err(MagGraphError::NodeNotFound { .. })));
    let bad = RecallArgs { format: "xml".to_string(), ..args };
    assert!(matches!(recall_run(&index, &bad), Err(MagGraphError::ConfigValidation(_))));
}

#[test]
fn scaffold_requires_an_artifact() {
    let index = basic_example();
    let rc = resolved(StorageMode::Lakehouse, None);
    let none = ScaffoldArgs { mcp: false, output: ".".to_string(), skill: false };
    match scaffold_run(&rc, &index, &none, "0.1.0").unwrap_err() {
        MagGraphError::ConfigValidation(m) => assert_eq!(m, "scaffold requires at least one of --mcp or --skill"),
        other => panic!("unexpected {other:?}"),
    }
    let both = ScaffoldArgs { mcp: true, output: ".".to_string(), skill: true };
    let out = scaffold_run(&rc, &index, &both, "0.1.0").expect("scaffold");
    let mcp = out.mcp.expect("mcp files");
    assert!(mcp.server.contains("def traverse_graph"));
    let skill = out.skill_md.expect("skill");
    assert!(skill.contains("storage_mode: \"lakehouse\""));
    assert!(skill.contains("Edge patterns"));
    assert_eq!(storage_mode_label(StorageMode::Local), "local");
    let ctx = skill_context(&rc, "1.2.3");
    assert_eq!(ctx.config_path, Some("maggraph.toml"));
}

#[test]
fn search_run_and_markdown() {
    let index = basic_example();
    let args = SearchArgs {
        query: "Welcome".to_string(),
        node_type: None,
        tags: Vec::new(),
        include_suppressed: false,
        limit: 20,
        modified_since_unix: None,
        format: "json".to_string(),
    };
    let (format, results) = search_run(&index, &args, &[None, None]).expect("search");
    assert_eq!(format, OutputFormat::Json);
    assert_eq!(results[0].id, "welcome");
    let bad = SearchArgs { format: "yaml".to_string(), ..args };
    assert!(matches!(search_run(&index, &bad, &[None, None]), Err(MagGraphError::ConfigValidation(_))));

    let item = SearchResult {
        id: "a".to_string(),
        node_type: "note".to_string(),
        relative_path: "a.md".to_string(),
        score: -3,
        matched: vec!["body".to_string(), "id".to_string()],
        summary: "Sum".to_string(),
        modified_unix: Some(42),
    };
    let md = render_markdown("q", &vec![item]);
    assert_eq!(
        md,
        "# MagGraph Search Results\n\n- **Query:** `q`\n- **Results:** 1\n\n## `a` (note)\n- **Score:** -3\n- **File:** `a.md`\n- **Matched:** body, id\n- **Modified:** 42\n\nSum\n\n"
    );
}

#[test]
fn sync_reports() {
    let status = SyncStatus { branch: "main".to_string(), uncommitted: 2, ahead: 1, behind: 0, clean: false };
    assert_eq!(status_report(&status), "branch: main\nuncommitted: 2\nahead: 1\nbehind: 0\nclean: false\n");
    let clean = PullResult { merged: true, fast_forward: false, conflicts: Vec::new() };
    assert_eq!(pull_report(&clean), "pull complete (merged=true, fast_forward=false)\n");
    let conflicted = PullResult { merged: false, fast_forward: false, conflicts: vec!["welcome.md".to_string()] };
    assert_eq!(pull_report(&conflicted), "pull paused with merge conflicts:\n  welcome.md\n");
    assert_eq!(push_report(&Some("abc123".to_string())), "pushed commit abc123\n");
    assert_eq!(push_report(&None), "nothing to commit; push complete\n");
}

#[test]
fn error_messages_match_display() {
    let e = MagGraphError::NodeNotFound { id: "x".to_string() };
    assert_eq!(e.message(), "node x not found");
    let e = MagGraphError::ReadOnlyRole { role: "follower".to_string() };
    assert_eq!(e.message(), "read-only role `follower` cannot perform write operations");
    assert_eq!(MagGraphError::SyncNotConfigured.message(), "[sync] is not configured");
}

#[test]
fn scans_basic_example_fixture() {
    let index = basic_example();
    assert_eq!(index.len(), 2);
}

#[test]
fn basic_example_traversal_under_one_ms() {
    let index = basic_example();
    let adj = maggraph::graph::GraphAdjacency::from_index(&index).expect("adjacency");
    let start = std::time::Instant::now();
    for _ in 0..100 {
        let _ = maggraph::graph::traverse(&adj, &index, "welcome", 2, TraversalOrder::Bfs).expect("traverse");
    }
    let elapsed = start.elapsed();
    assert!(elapsed.as_millis() < 100, "100 traversals took {:?}, expected <100ms total", elapsed);
}

#[test]
fn skill_lists_node_types_in_key_order() {
    let mut schema = GraphSchema::introspect(&GraphIndex::new("g".to_string())).expect("introspect");
    schema.node_types = vec!["note".to_string(), "dataset".to_string()];
    schema.nodes_by_type = vec![("note".to_string(), 1), ("dataset".to_string(), 2), ("note".to_string(), 3)];
    let ctx = SkillRenderContext { graph_root: "g", config_path: None, storage_mode: None, maggraph_version: "0.1.0" };
    let md = render_skill_md(&schema, &ctx);
    assert!(md.contains("## Node types\n\n- `dataset` — 2 node(s)\n- `note` — 3 node(s)\n\n## Node ids"), "{md}");
}

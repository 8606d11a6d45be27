use maggraph::error::MagGraphError;
use maggraph::graph::{resolve_target, traverse, GraphAdjacency, TraversalOrder};
use maggraph::index::GraphIndex;
use maggraph::node::{NewNode, Node, NodeMetadata};

fn node(id: &str, links: &[&str], body: &str, path: &str) -> Node {
    Node {
        metadata: NodeMetadata {
            id: id.to_string(),
            node_type: "note".to_string(),
            source: None,
            links: links.iter().map(|l| l.to_string()).collect(),
            extra: Vec::new(),
        },
        body: body.to_string(),
        relative_path: path.to_string(),
    }
}

fn traversal_fixture() -> GraphIndex {
    let nodes = vec![
        node(
            "welcome",
            &["getting_started"],
            "# Welcome\n\nSee [[getting_started]] and [[orphan_link]].\n",
            "welcome.md",
        ),
        node("getting_started", &["welcome"], "# Getting Started\n\nBack to [[welcome]].\n", "getting_started.md"),
        node("leaf", &[], "# Leaf\n\nLinked via path stem: [[welcome]].\n", "leaf.md"),
    ];
    GraphIndex::from_scanned("graph".to_string(), nodes).expect("index")
}

#[test]
fn adjacency_merges_frontmatter_and_wikilinks() {
    let index = traversal_fixture();
    let adj = GraphAdjacency::from_index(&index).expect("adjacency");

    let welcome_neighbors = adj.neighbors("welcome");
    assert!(welcome_neighbors.contains(&"getting_started".to_string()));
    assert_eq!(welcome_neighbors.len(), 1);

    let unresolved = adj.unresolved_targets("welcome");
    assert!(unresolved.contains(&"orphan_link".to_string()));
}

#[test]
fn resolves_path_stem_wikilinks() {
    let index = traversal_fixture();
    let adj = GraphAdjacency::from_index(&index).expect("adjacency");
    assert!(adj.neighbors("leaf").contains(&"welcome".to_string()));
}

#[test]
fn resolves_target_by_stem_in_subdirectory() {
    let nodes = vec![node("n1", &[], "", "notes/alpha.md"), node("n2", &["alpha"], "", "b.md")];
    let index = GraphIndex::from_scanned("g".to_string(), nodes).expect("index");
    let adj = GraphAdjacency::from_index(&index).expect("adjacency");
    assert_eq!(adj.neighbors("n2"), vec!["n1".to_string()]);
    let ids = vec!["x".to_string()];
    let stems = vec![("st".to_string(), "x".to_string())];
    assert_eq!(resolve_target("  x ", &ids, &stems), Some("x".to_string()));
    assert_eq!(resolve_target("st", &ids, &stems), Some("x".to_string()));
    assert_eq!(resolve_target("   ", &ids, &stems), None);
    assert_eq!(resolve_target("nope", &ids, &stems), None);
}

#[test]
fn bfs_traversal_respects_depth() {
    let index = traversal_fixture();
    let adj = GraphAdjacency::from_index(&index).expect("adjacency");

    let result = traverse(&adj, &index, "welcome", 1, TraversalOrder::Bfs).expect("traverse");
    let ids: Vec<_> = result.nodes.iter().map(|n| n.id.as_str()).collect();
    assert_eq!(ids, vec!["welcome", "getting_started"]);

    let depth2 = traverse(&adj, &index, "welcome", 2, TraversalOrder::Bfs).expect("depth2");
    assert!(depth2.nodes.len() >= 2);
}

#[test]
fn dfs_traversal_visits_neighbors() {
    let index = traversal_fixture();
    let adj = GraphAdjacency::from_index(&index).expect("adjacency");
    let result = traverse(&adj, &index, "welcome", 1, TraversalOrder::Dfs).expect("dfs");
    assert_eq!(result.nodes.len(), 2);
}

#[test]
fn markdown_report_contains_sections() {
    let index = traversal_fixture();
    let adj = GraphAdjacency::from_index(&index).expect("adjacency");
    let result = traverse(&adj, &index, "welcome", 1, TraversalOrder::Bfs).expect("traverse");

    let md = result.to_markdown(&index);
    assert!(md.contains("# MagGraph Traversal Report"));
    assert!(md.contains("### welcome"));
    assert!(md.contains("### getting_started"));
}

#[test]
fn markdown_report_exact_text() {
    let index = traversal_fixture();
    let adj = GraphAdjacency::from_index(&index).expect("adjacency");
    let result = traverse(&adj, &index, "leaf", 1, TraversalOrder::Dfs).expect("traverse");
    assert_eq!(
        result.to_markdown(&index),
        "# MagGraph Traversal Report\n\n- **Start:** `leaf`\n- **Max depth:** 1\n- **Order:** DFS\n- **Nodes reached:** 2\n\n## Nodes\n\n### leaf (depth 0)\n\n- **Type:** note\n- **Path:** `leaf`\n- **File:** `leaf.md`\n\n### welcome (depth 1)\n\n- **Type:** note\n- **Path:** `leaf` → `welcome`\n- **File:** `welcome.md`\n\n"
    );
}

#[test]
fn traverse_errors_on_missing_start() {
    let index = traversal_fixture();
    let adj = GraphAdjacency::from_index(&index).expect("adjacency");
    let err = traverse(&adj, &index, "missing", 1, TraversalOrder::Bfs).expect_err("err");
    assert!(matches!(err, MagGraphError::NodeNotFound { .. }));
}

#[test]
fn bfs_reaches_every_node_within_depth() {
    // a -> b, a -> c, b -> c, c -> d: depth-first stops early at d, breadth-first does not.
    let nodes = vec![
        node("a", &["b", "c"], "", "a.md"),
        node("b", &["c"], "", "b.md"),
        node("c", &["d"], "", "c.md"),
        node("d", &[], "", "d.md"),
    ];
    let index = GraphIndex::from_scanned("g".to_string(), nodes).expect("index");
    let adj = GraphAdjacency::from_index(&index).expect("adjacency");
    let bfs = traverse(&adj, &index, "a", 2, TraversalOrder::Bfs).expect("bfs");
    let ids: Vec<_> = bfs.nodes.iter().map(|n| (n.id.as_str(), n.depth)).collect();
    assert_eq!(ids, vec![("a", 0), ("b", 1), ("c", 1), ("d", 2)]);
    assert_eq!(bfs.nodes[3].path, vec!["a", "c", "d"]);
    let dfs = traverse(&adj, &index, "a", 2, TraversalOrder::Dfs).expect("dfs");
    let ids: Vec<_> = dfs.nodes.iter().map(|n| n.id.as_str()).collect();
    assert_eq!(ids, vec!["a", "b", "c"]);
    let zero = traverse(&adj, &index, "a", 0, TraversalOrder::Bfs).expect("zero");
    assert_eq!(zero.nodes.len(), 1);
}

#[test]
fn edges_listing_and_has_node() {
    let index = traversal_fixture();
    let adj = GraphAdjacency::from_index(&index).expect("adjacency");
    let edges = adj.outgoing_edges();
    assert!(edges.contains(&("welcome".to_string(), "getting_started".to_string())));
    assert!(edges.contains(&("leaf".to_string(), "welcome".to_string())));
    assert_eq!(adj.unresolved_edges(), vec![("welcome".to_string(), "orphan_link".to_string())]);
    assert!(adj.has_node("leaf"));
    assert!(!adj.has_node("nobody"));
}

#[test]
fn scans_example_graph() {
    let index = traversal_fixture();
    assert_eq!(index.len(), 3);
    assert!(index.contains("welcome"));
    assert!(!index.is_empty());
}

#[test]
fn detects_duplicate_ids_on_scan() {
    let nodes = vec![node("same", &[], "", "a.md"), node("same", &[], "", "b.md")];
    let err = GraphIndex::from_scanned("g".to_string(), nodes).expect_err("duplicate");
    match err {
        MagGraphError::DuplicateNodeId { id, first, second } => {
            assert_eq!(id, "same");
            assert_eq!(first, "a.md");
            assert_eq!(second, "b.md");
        }
        other => panic!("unexpected: {other:?}"),
    }
}

#[test]
fn create_rejects_existing_id() {
    let mut index = traversal_fixture();
    let n = node("welcome", &[], "dup", "other.md");
    let err = index
        .create_node(NewNode { metadata: n.metadata, body: n.body, relative_path: n.relative_path }, false)
        .expect_err("duplicate");
    assert!(matches!(err, MagGraphError::NodeAlreadyExists { .. }));
}

#[test]
fn crud_round_trip() {
    let mut index = GraphIndex::new("g".to_string());
    let n = node("note_a", &["x"], "First line\n\nSecond", "note_a.md");
    let created = index
        .create_node(NewNode { metadata: n.metadata, body: n.body, relative_path: n.relative_path }, false)
        .expect("create");
    assert_eq!(created.id(), "note_a");
    let read = index.read_node("note_a").expect("read");
    assert_eq!(read.body, "First line\n\nSecond\n");
    assert_eq!(index.get("note_a").unwrap().summary, "First line\nSecond");

    let mut updated = read;
    updated.body = "Changed".to_string();
    index.update_node(updated).expect("update");
    assert_eq!(index.read_node("note_a").expect("read").body, "Changed\n");

    let moved = node("note_a", &[], "x", "elsewhere.md");
    assert!(matches!(index.update_node(moved), Err(MagGraphError::Index(_))));

    index.delete_node("note_a").expect("delete");
    assert!(!index.contains("note_a"));
    assert!(matches!(index.read_node("note_a"), Err(MagGraphError::NodeNotFound { .. })));
    assert!(matches!(index.delete_node("note_a"), Err(MagGraphError::NodeNotFound { .. })));
}

#[test]
fn create_rejects_existing_file_or_path() {
    let mut index = traversal_fixture();
    let n = node("fresh", &[], "", "welcome.md");
    let err = index
        .create_node(NewNode { metadata: n.metadata, body: n.body, relative_path: n.relative_path }, false)
        .expect_err("path taken");
    match err {
        MagGraphError::Index(m) => assert_eq!(m, "a node already exists at path welcome.md"),
        other => panic!("unexpected: {other:?}"),
    }
    let n = node("fresh", &[], "", "fresh.md");
    let err = index
        .create_node(NewNode { metadata: n.metadata, body: n.body, relative_path: n.relative_path }, true)
        .expect_err("file exists");
    assert!(matches!(err, MagGraphError::NodeAlreadyExists { .. }));
    assert_eq!(index.len(), 3);
}

#[test]
fn create_rejects_parent_path_components() {
    let mut index = GraphIndex::new("g".to_string());
    let n = node("escape", &[], "x", "../escape.md");
    let err = index
        .create_node(NewNode { metadata: n.metadata, body: n.body, relative_path: n.relative_path }, false)
        .expect_err("path escapes the root");
    match err {
        MagGraphError::Index(m) => assert_eq!(m, "node relative_path must not contain '..' components"),
        other => panic!("unexpected: {other:?}"),
    }
    assert!(index.read_node("escape").is_err());
}

#[test]
fn query_welcome_depth1_markdown() {
    let index = traversal_fixture();
    let adj = GraphAdjacency::from_index(&index).expect("adjacency");
    let result = traverse(&adj, &index, "welcome", 1, TraversalOrder::Bfs).expect("traverse");
    assert_eq!(
        result.to_markdown(&index),
        "# MagGraph Traversal Report\n\n- **Start:** `welcome`\n- **Max depth:** 1\n- **Order:** BFS\n- **Nodes reached:** 2\n\n## Nodes\n\n### welcome (depth 0)\n\n- **Type:** note\n- **Path:** `welcome`\n- **File:** `welcome.md`\n\n### getting_started (depth 1)\n\n- **Type:** note\n- **Path:** `welcome` → `getting_started`\n- **File:** `getting_started.md`\n\n"
    );
}

#[test]
fn has_node_means_some_outgoing_link() {
    let nodes = vec![
        node("a", &["b", "b"], "[[b]] [[missing]] [[missing]]", "a.md"),
        node("b", &[], "no links", "b.md"),
    ];
    let index = GraphIndex::from_scanned("g".to_string(), nodes).expect("index");
    let adj = GraphAdjacency::from_index(&index).expect("adjacency");
    assert!(adj.has_node("a"));
    assert!(!adj.has_node("b"));
    assert!(!adj.has_node("zzz"));
    assert_eq!(adj.outgoing_edges(), vec![("a".to_string(), "b".to_string())]);
    assert_eq!(adj.unresolved_edges(), vec![("a".to_string(), "missing".to_string())]);
}

#[test]
fn create_compares_paths_by_components() {
    let mut index = GraphIndex::new("g".to_string());
    let n = node("first", &[], "x", "notes/a.md");
    index
        .create_node(NewNode { metadata: n.metadata, body: n.body, relative_path: n.relative_path }, false)
        .expect("create");
    let n = node("second", &[], "y", "notes//./a.md");
    let err = index
        .create_node(NewNode { metadata: n.metadata, body: n.body, relative_path: n.relative_path }, false)
        .expect_err("same path");
    match err {
        MagGraphError::Index(m) => assert_eq!(m, "a node already exists at path notes//./a.md"),
        other => panic!("unexpected: {other:?}"),
    }
}

#[test]
fn default_adjacency_is_empty() {
    let adj = GraphAdjacency::default();
    assert!(!adj.has_node("a"));
    assert!(adj.outgoing_edges().is_empty());
    assert!(adj.unresolved_edges().is_empty());
    let copy = adj.clone();
    assert_eq!(copy, adj);
}

#[test]
fn indexed_paths_are_markdown_outside_metadata() {
    assert!(maggraph::index::is_indexed_path("notes/a.md"));
    assert!(!maggraph::index::is_indexed_path("notes/a.txt"));
    assert!(!maggraph::index::is_indexed_path(".maggraph/cache.md"));
    assert!(!maggraph::index::is_indexed_path("notes/.maggraph/x.md"));
    assert!(!maggraph::index::is_indexed_path(".md"));
}

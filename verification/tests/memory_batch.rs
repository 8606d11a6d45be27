use maggraph::batch::{apply_memory_batch, MemoryBatchOperation};
use maggraph::error::MagGraphError;
use maggraph::index::GraphIndex;
use maggraph::memory::{
    new_memory_node, new_memory_node_with_context, validate_memory_type, MemoryContext, MemoryNodeKind,
};
use maggraph::node::{extra_get, Node, NodeMetadata};
use maggraph::query::is_suppressed;
use maggraph::yaml::YamlValue;

fn decision(id: &str) -> Node {
    Node {
        metadata: NodeMetadata {
            id: id.to_string(),
            node_type: "decision".to_string(),
            source: None,
            links: Vec::new(),
            extra: Vec::new(),
        },
        body: format!("Body {id}.\n"),
        relative_path: format!("{id}.md"),
    }
}

fn index() -> GraphIndex {
    GraphIndex::from_scanned("graph".to_string(), vec![decision("a"), decision("b")]).expect("open")
}

#[test]
fn batch_applies_reviewed_operations() {
    let mut index = index();
    let result = apply_memory_batch(
        &mut index,
        &[
            MemoryBatchOperation::UpdateBody { id: "a".to_string(), body: "Updated.".to_string() },
            MemoryBatchOperation::Suppress { id: "b".to_string(), reason: Some("stale".to_string()) },
        ],
    )
    .expect("batch");

    assert_eq!(result.applied, ["update:a", "suppress:b"]);
    assert_eq!(index.read_node("a").unwrap().body, "Updated.\n");
    assert!(is_suppressed(&index.read_node("b").unwrap()));
}

#[test]
fn batch_prevalidation_prevents_partial_changes() {
    let mut index = index();
    let error = apply_memory_batch(
        &mut index,
        &[
            MemoryBatchOperation::UpdateBody { id: "a".to_string(), body: "Must not persist.".to_string() },
            MemoryBatchOperation::Suppress { id: "missing".to_string(), reason: None },
        ],
    )
    .unwrap_err();

    assert!(matches!(error, MagGraphError::NodeNotFound { .. }));
    assert_eq!(index.read_node("a").unwrap().body, "Body a.\n");
}

#[test]
fn batch_merge_removes_source_and_labels() {
    let mut index = index();
    let result = apply_memory_batch(
        &mut index,
        &[
            MemoryBatchOperation::Merge { target_id: "a".to_string(), source_id: "b".to_string() },
            MemoryBatchOperation::Unsuppress { id: "a".to_string() },
        ],
    )
    .expect("batch");
    assert_eq!(result.applied, ["merge:b->a", "unsuppress:a"]);
    assert!(!index.contains("b"));
    assert!(index.contains("a"));
}

#[test]
fn batch_refuses_operation_on_merged_away_node() {
    let mut index = index();
    let err = apply_memory_batch(
        &mut index,
        &[
            MemoryBatchOperation::Merge { target_id: "a".to_string(), source_id: "b".to_string() },
            MemoryBatchOperation::UpdateBody { id: "b".to_string(), body: "x".to_string() },
        ],
    )
    .unwrap_err();
    assert!(matches!(err, MagGraphError::NodeNotFound { .. }));
    assert!(index.contains("b"));
}

#[test]
fn batch_refuses_self_merge() {
    let mut index = index();
    let err = apply_memory_batch(
        &mut index,
        &[MemoryBatchOperation::Merge { target_id: "a".to_string(), source_id: "a".to_string() }],
    )
    .unwrap_err();
    assert!(matches!(err, MagGraphError::Index(_)));
}

#[test]
fn contextual_memory_normalizes_provenance_and_confidence() {
    // The confidence arrives already clamped to [0, 1] (1.5 becomes 1.0) by the caller.
    let node = new_memory_node_with_context(
        "decision".to_string(),
        MemoryNodeKind::Decision,
        "Use hybrid retrieval.".to_string(),
        Vec::new(),
        MemoryContext {
            project: Some("demo".to_string()),
            source_task: Some("task_1".to_string()),
            confidence: Some(YamlValue::Number("1.0".to_string())),
            canonical_id: Some("retrieval-decision".to_string()),
            ..MemoryContext::default()
        },
    );

    let extra = &node.metadata.extra;
    assert_eq!(extra_get(extra, "project").and_then(|v| v.as_str()), Some("demo"));
    assert_eq!(extra_get(extra, "source_task").and_then(|v| v.as_str()), Some("task_1"));
    assert_eq!(extra_get(extra, "confidence"), Some(&YamlValue::Number("1.0".to_string())));
    assert_eq!(extra_get(extra, "canonical_id").and_then(|v| v.as_str()), Some("retrieval-decision"));
}

#[test]
fn blank_provenance_fields_are_left_out() {
    let node = new_memory_node_with_context(
        "t".to_string(),
        MemoryNodeKind::Task,
        "Body".to_string(),
        vec!["x".to_string()],
        MemoryContext { project: Some("   ".to_string()), ..MemoryContext::default() },
    );
    assert!(node.metadata.extra.is_empty());
    assert_eq!(node.relative_path, "t.md");
    assert_eq!(node.metadata.node_type, "task");
}

#[test]
fn memory_node_path_and_type() {
    let node = new_memory_node(
        "pref".to_string(),
        MemoryNodeKind::Preference,
        "Likes tea".to_string(),
        Vec::new(),
        Vec::new(),
    );
    assert_eq!(node.relative_path, "pref.md");
    assert_eq!(node.metadata.node_type, "preference");
    assert!(validate_memory_type("tool_failure"));
    assert!(!validate_memory_type("note"));
}

#[test]
fn merge_nodes_absorbs_links() {
    let mut a = decision("a");
    a.metadata.links = vec!["x".to_string()];
    let mut b = decision("b");
    b.metadata.links = vec!["y".to_string(), "a".to_string(), "x".to_string()];
    let mut index = GraphIndex::from_scanned("graph".to_string(), vec![a, b, decision("c")]).expect("open");
    index.merge_nodes("a", "b").expect("merge");
    let merged = index.read_node("a").expect("read");
    assert_eq!(merged.metadata.links, vec!["x".to_string(), "y".to_string()]);
    assert_eq!(merged.body, "Body a.\n");
    assert!(!index.contains("b"));
    assert_eq!(index.len(), 2);
    assert!(matches!(index.merge_nodes("a", "a"), Err(MagGraphError::Index(_))));
    assert!(matches!(index.merge_nodes("a", "b"), Err(MagGraphError::NodeNotFound { .. })));
}

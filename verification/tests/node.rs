use maggraph::node::{check_node_metadata, frame_markdown_node, split_frontmatter, split_node_source, NodeMetadata};
use maggraph::query::summarize_text;

#[test]
fn split_frontmatter_handles_bom() {
    let raw = "\u{feff}---\nid: x\n---\nbody";
    let (yaml, body) = split_frontmatter(raw).expect("split");
    assert_eq!(yaml.as_deref(), Some("id: x"));
    assert_eq!(body, "body");
}

#[test]
fn split_without_frontmatter_returns_raw() {
    let (yaml, body) = split_frontmatter("# Just text\n").expect("split");
    assert_eq!(yaml, None);
    assert_eq!(body, "# Just text\n");
}

#[test]
fn split_rejects_unclosed_frontmatter() {
    let err = split_frontmatter("---\nid: x\nbody").expect_err("unclosed");
    assert_eq!(err, "markdown file is missing closing frontmatter delimiter (---)");
}

#[test]
fn rejects_missing_frontmatter() {
    let err = split_node_source("# no frontmatter", "n.md").expect_err("missing");
    assert_eq!(err, "node at n.md must start with YAML frontmatter delimited by ---");
}

fn meta(id: &str, node_type: &str) -> NodeMetadata {
    NodeMetadata {
        id: id.to_string(),
        node_type: node_type.to_string(),
        source: None,
        links: Vec::new(),
        extra: Vec::new(),
    }
}

#[test]
fn rejects_missing_required_id() {
    let err = check_node_metadata(&meta("  ", "note"), "n.md").expect_err("blank id");
    assert_eq!(err, "node at n.md is missing required frontmatter field `id`");
    let err = check_node_metadata(&meta("a", ""), "n.md").expect_err("blank type");
    assert_eq!(err, "node at n.md is missing required frontmatter field `type`");
    assert!(check_node_metadata(&meta("a", "note"), "n.md").is_ok());
}

#[test]
fn framing_round_trips_through_split() {
    let framed = frame_markdown_node("id: note_a\ntype: note\n", "Body text.");
    assert_eq!(framed, "---\nid: note_a\ntype: note\n---\nBody text.\n");
    let (yaml, body) = split_frontmatter(&framed).expect("split");
    assert_eq!(yaml.as_deref(), Some("id: note_a\ntype: note"));
    assert_eq!(body, "Body text.\n");
    assert_eq!(frame_markdown_node("id: a", ""), "---\nid: a\n---\n");
}

#[test]
fn summary_takes_three_nonblank_lines() {
    assert_eq!(summarize_text("\n# T\r\n\n  \nb\nc\nd"), "# T\nb\nc");
    assert_eq!(summarize_text(""), "");
    let long = "x".repeat(300);
    assert_eq!(summarize_text(&long).chars().count(), 280);
}

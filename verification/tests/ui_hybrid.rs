use maggraph::error::MagGraphError;
use maggraph::hybrid::{extra_string, hybrid_candidates, project_matches, temporally_valid, HybridFilter};
use maggraph::index::GraphIndex;
use maggraph::node::{Node, NodeMetadata};
use maggraph::ui::{apply_patch, error_status, list_edges, NodePatch};
use maggraph::yaml::YamlValue;

fn node(id: &str, links: &[&str], body: &str, extra: Vec<(&str, YamlValue)>) -> Node {
    Node {
        metadata: NodeMetadata {
            id: id.to_string(),
            node_type: "note".to_string(),
            source: None,
            links: links.iter().map(|l| l.to_string()).collect(),
            extra: extra.into_iter().map(|(k, v)| (k.to_string(), v)).collect(),
        },
        body: body.to_string(),
        relative_path: format!("{id}.md"),
    }
}

fn s(v: &str) -> YamlValue {
    YamlValue::String(v.to_string())
}

#[test]
fn get_edges_returns_resolved_and_unresolved_sorted() {
    let index = GraphIndex::from_scanned(
        "g".to_string(),
        vec![
            node("welcome", &["getting_started"], "See [[zeta_missing]] and [[alpha_missing]].", vec![]),
            node("getting_started", &["welcome"], "", vec![]),
        ],
    )
    .expect("index");
    let resp = list_edges(&index).expect("edges");
    let pairs: Vec<(String, String)> = resp.edges.iter().map(|e| (e.from.clone(), e.to.clone())).collect();
    assert_eq!(
        pairs,
        vec![
            ("getting_started".to_string(), "welcome".to_string()),
            ("welcome".to_string(), "getting_started".to_string()),
        ]
    );
    let targets: Vec<String> = resp.unresolved.iter().map(|u| u.target.clone()).collect();
    assert_eq!(targets, vec!["alpha_missing".to_string(), "zeta_missing".to_string()]);
}

#[test]
fn api_error_statuses() {
    assert_eq!(error_status(&MagGraphError::NodeNotFound { id: "x".to_string() }), 404);
    assert_eq!(
        error_status(&MagGraphError::NodeAlreadyExists { id: "x".to_string(), path: "x.md".to_string() }),
        409
    );
    assert_eq!(error_status(&MagGraphError::Index("bad path".to_string())), 400);
    assert_eq!(error_status(&MagGraphError::WriteLockRequired), 500);
}

#[test]
fn patch_replaces_only_given_fields() {
    let original = node("welcome", &["getting_started"], "# Welcome\n", vec![("importance", s("high"))]);
    let patched = apply_patch(
        original,
        NodePatch {
            body: Some("# Updated body\n".to_string()),
            node_type: None,
            source: Some(Some("s3://x".to_string())),
            links: Some(vec!["new_target".to_string()]),
            extra: None,
        },
    );
    assert_eq!(patched.body, "# Updated body\n");
    assert_eq!(patched.metadata.node_type, "note");
    assert_eq!(patched.metadata.source.as_deref(), Some("s3://x"));
    assert_eq!(patched.metadata.links, vec!["new_target".to_string()]);
    assert_eq!(patched.metadata.extra.len(), 1);
    assert_eq!(patched.relative_path, "welcome.md");
}

fn filter() -> HybridFilter {
    HybridFilter {
        text: Some("Release".to_string()),
        node_types: Vec::new(),
        tags: Vec::new(),
        project: Some("demo".to_string()),
        include_suppressed: false,
        include_superseded: false,
        seed_ids: vec!["anchor".to_string()],
    }
}

#[test]
fn hybrid_candidates_filter_and_signals() {
    let index = GraphIndex::from_scanned(
        "g".to_string(),
        vec![
            node("anchor", &["neighbor"], "release architecture", vec![("project", s("demo"))]),
            node("neighbor", &[], "connected decision", vec![("project", s("demo"))]),
            node("far", &["neighbor"], "two hops", vec![]),
            node("expired", &[], "release", vec![("project", s("demo")), ("valid_until", s("2020-01-01T00:00:00Z"))]),
            node("old", &[], "old release", vec![("project", s("demo"))]),
            node(
                "new",
                &[],
                "new release",
                vec![("project", s("demo")), ("supersedes", s("old")), ("canonical_id", s("decision-current"))],
            ),
            node("foreign", &[], "release", vec![("project", s("elsewhere"))]),
        ],
    )
    .expect("index");
    // `far` is two steps from the seed: anchor → neighbor, and far links to neighbor.
    let modified = vec![None; index.len()];
    let cands = hybrid_candidates(&index, &filter(), &modified, 1_800_000_000);
    let ids: Vec<&str> = cands.iter().map(|c| c.id.as_str()).collect();
    assert_eq!(ids, vec!["anchor", "neighbor", "far", "new"]);
    let tier = |id: &str| cands.iter().find(|c| c.id == id).unwrap().graph_tier;
    assert_eq!(tier("anchor"), 3);
    assert_eq!(tier("neighbor"), 2);
    assert_eq!(tier("far"), 1);
    assert_eq!(tier("new"), 0);
    let new = cands.iter().find(|c| c.id == "new").unwrap();
    assert_eq!(new.canonical_id, "decision-current");
    assert_eq!(new.lexical_raw, 6);
    assert_eq!(cands[0].lexical_raw, 6);
    assert_eq!(tier("neighbor"), 2);
    assert_eq!(cands.iter().find(|c| c.id == "neighbor").unwrap().lexical_raw, 0);
}

#[test]
fn hybrid_without_project_keeps_foreign_and_superseded_when_asked() {
    let index = GraphIndex::from_scanned(
        "g".to_string(),
        vec![
            node("old", &[], "x", vec![]),
            node("new", &[], "y", vec![("supersedes", s("old"))]),
            node("foreign", &[], "z", vec![("project_id", s("elsewhere"))]),
        ],
    )
    .expect("index");
    let f = HybridFilter { text: None, project: None, include_superseded: true, seed_ids: Vec::new(), ..filter() };
    let cands = hybrid_candidates(&index, &f, &[Some(5), None, None], 0);
    assert_eq!(cands.len(), 3);
    assert_eq!(cands[0].modified_unix, Some(5));
    assert_eq!(cands[0].lexical_raw, 0);
}

#[test]
fn temporal_and_project_rules() {
    let extra = vec![
        ("valid_from".to_string(), YamlValue::Number("100".to_string())),
        ("valid_until".to_string(), s("200")),
        ("project_id".to_string(), s("demo")),
    ];
    assert!(!temporally_valid(&extra, 99));
    assert!(temporally_valid(&extra, 100));
    assert!(!temporally_valid(&extra, 200));
    assert!(project_matches(&extra, Some("demo")));
    assert!(!project_matches(&extra, Some("other")));
    assert!(project_matches(&extra, None));
    assert_eq!(extra_string(&extra, "project_id").as_deref(), Some("demo"));
    assert_eq!(extra_string(&extra, "valid_from"), None);
    let dated = vec![("valid_until".to_string(), s("2020-01-01T00:00:00Z"))];
    assert!(temporally_valid(&dated, 1_500_000_000));
    assert!(!temporally_valid(&dated, 1_600_000_000));
}

#[test]
fn hybrid_limit_defaults_to_twenty() {
    assert_eq!(maggraph::hybrid::hybrid_limit(0), 20);
    assert_eq!(maggraph::hybrid::hybrid_limit(5), 5);
}

#[test]
fn parse_i64_agrees_with_std() {
    let cases = [
        "0", "42", "-42", "+7", "-0", "", "-", "+", "+-1", "1.5", " 1", "1 ", "007",
        "9223372036854775807", "9223372036854775808", "-9223372036854775808", "-9223372036854775809",
        "99999999999999999999999", "12a", "١٢",
    ];
    for c in cases {
        assert_eq!(maggraph::hybrid::parse_i64(c), c.parse::<i64>().ok(), "{c}");
    }
}

use maggraph::config::{
    ensure_directory_plan, join_path, LakehouseCacheConfig, LakehouseConfig, MagGraphConfig, RemoteSource,
    StorageConfig, StorageMode, SyncConfig, SyncRole,
};
use maggraph::error::MagGraphError;
use maggraph::lakehouse::cache::{expired, ContentCache};
use maggraph::lakehouse::content::{AssetMetadata, ResolvedContent};

fn local_config() -> MagGraphConfig {
    MagGraphConfig {
        storage: StorageConfig { mode: StorageMode::Local, root_path: "./knowledge_graph".to_string() },
        lakehouse: None,
        sync: None,
    }
}

#[test]
fn loads_valid_local_config_and_resolves_root_path() {
    let resolved = local_config().into_resolved("/tmp/demo/maggraph.toml").expect("load config");
    assert_eq!(resolved.config.storage.mode, StorageMode::Local);
    // Joined as `Path::join` does; `.` components are equal to nothing in path comparison.
    assert_eq!(resolved.root_path, "/tmp/demo/./knowledge_graph");
}

#[test]
fn loads_prd_example_config() {
    let config = MagGraphConfig {
        storage: StorageConfig { mode: StorageMode::Lakehouse, root_path: "./knowledge_graph".to_string() },
        lakehouse: Some(LakehouseConfig {
            remote_sources: vec![RemoteSource { uri: "s3://corp-data/lake".to_string(), format: "parquet".to_string() }],
            cache: LakehouseCacheConfig::default(),
        }),
        sync: Some(SyncConfig {
            role: SyncRole::Follower,
            remote_url: "git@github.com:org/maggraph-sync.git".to_string(),
        }),
    };
    let resolved = config.into_resolved("/tmp/demo/maggraph.toml").expect("load config");
    assert_eq!(resolved.config.storage.mode, StorageMode::Lakehouse);
    assert_eq!(resolved.config.sync.as_ref().unwrap().role, SyncRole::Follower);
    assert_eq!(resolved.root_path, "/tmp/demo/./knowledge_graph");
}

#[test]
fn rejects_lakehouse_mode_without_lakehouse_section() {
    let config = MagGraphConfig {
        storage: StorageConfig { mode: StorageMode::Lakehouse, root_path: "./knowledge_graph".to_string() },
        lakehouse: None,
        sync: None,
    };
    let err = config.into_resolved("/tmp/demo/maggraph.toml").expect_err("expected validation error");
    assert!(matches!(err, MagGraphError::ConfigValidation(_)));
}

#[test]
fn rejects_empty_sync_remote_url() {
    let mut config = local_config();
    config.sync = Some(SyncConfig { role: SyncRole::Leader, remote_url: "   ".to_string() });
    let err = config.validate().expect_err("expected validation error");
    assert!(matches!(err, MagGraphError::ConfigValidation(_)));
}

#[test]
fn rejects_blank_remote_source_fields() {
    let mut config = local_config();
    config.lakehouse = Some(LakehouseConfig {
        remote_sources: vec![RemoteSource { uri: " ".to_string(), format: "parquet".to_string() }],
        cache: LakehouseCacheConfig::default(),
    });
    match config.validate().expect_err("blank uri") {
        MagGraphError::ConfigValidation(m) => {
            assert_eq!(m, "[lakehouse].remote_sources[0].uri must not be empty")
        }
        other => panic!("unexpected error {other:?}"),
    }
}

#[test]
fn loads_lakehouse_cache_defaults() {
    let defaults = LakehouseCacheConfig::default();
    assert_eq!(defaults.ttl_secs, 300);
    assert_eq!(defaults.max_bytes, 10485760);
    let explicit = LakehouseCacheConfig { ttl_secs: 60, max_bytes: 4096 };
    assert_eq!(explicit.ttl_secs, 60);
    assert_eq!(explicit.max_bytes, 4096);
}

#[test]
fn initializes_graph_root_and_metadata_dir() {
    let resolved = local_config().into_resolved("/tmp/demo/maggraph.toml").expect("load config");
    assert_eq!(
        resolved.graph_root_dirs(true),
        vec!["/tmp/demo/./knowledge_graph".to_string(), "/tmp/demo/./knowledge_graph/.maggraph".to_string()]
    );
    assert_eq!(resolved.graph_root_dirs(false), vec!["/tmp/demo/./knowledge_graph".to_string()]);
}

#[test]
fn rejects_graph_root_when_path_is_a_file() {
    let err = ensure_directory_plan("/tmp/demo/knowledge_graph", true, false).expect_err("expected init error");
    assert!(matches!(err, MagGraphError::GraphRootInit { .. }));
    assert_eq!(ensure_directory_plan("/tmp/demo/knowledge_graph", true, true).expect("exists"), false);
    assert_eq!(ensure_directory_plan("/tmp/demo/knowledge_graph", false, false).expect("create"), true);
}

#[test]
fn join_path_handles_absolute_and_dot_segments() {
    assert_eq!(join_path("/a/b", "c"), "/a/b/c");
    assert_eq!(join_path("/a/b/", "c"), "/a/b/c");
    assert_eq!(join_path("/a/b", "/abs"), "/abs");
}

fn asset(uri: &str, snippet: Option<String>) -> ResolvedContent {
    ResolvedContent::ExternalAsset {
        uri: uri.to_string(),
        format: "parquet".into(),
        metadata: AssetMetadata::default(),
        snippet,
    }
}

#[test]
fn caches_and_returns_content() {
    let mut cache = ContentCache::new(60, 1024);
    cache.insert("s3://bucket/key".to_string(), asset("s3://bucket/key", None));
    assert!(cache.get("s3://bucket/key").is_some());
    assert_eq!(cache.len(), 1);
}

#[test]
fn respects_max_bytes() {
    let mut cache = ContentCache::new(0, 50);
    for i in 0..5 {
        cache.insert(format!("s3://bucket/key{i}"), asset(&format!("s3://bucket/key{i}"), Some("x".repeat(20))));
    }
    assert!(cache.current_bytes() <= 50);
}

#[test]
fn cache_keeps_nothing_larger_than_limit() {
    let mut cache = ContentCache::new(0, 10);
    cache.insert("s3://b/k".to_string(), asset("s3://b/k", Some("y".repeat(40))));
    assert!(cache.is_empty());
    assert_eq!(cache.current_bytes(), 0);
}

#[test]
fn cache_replaces_entry_for_same_uri() {
    let mut cache = ContentCache::new(0, 0);
    cache.insert("u".to_string(), ResolvedContent::LocalMarkdown { body: "one".to_string() });
    cache.insert("u".to_string(), ResolvedContent::LocalMarkdown { body: "two".to_string() });
    assert_eq!(cache.len(), 1);
    assert_eq!(cache.get("u"), Some(&ResolvedContent::LocalMarkdown { body: "two".to_string() }));
}

#[test]
fn example_config_resolves_root_path() {
    let config = MagGraphConfig {
        storage: StorageConfig { mode: StorageMode::Local, root_path: "./knowledge_graph".to_string() },
        lakehouse: None,
        sync: None,
    };
    let resolved = config.into_resolved("../examples/basic/maggraph.toml").expect("load example config");
    assert_eq!(resolved.root_path, "../examples/basic/./knowledge_graph");
}

#[test]
fn reader_cache_mut_changes_the_readers_cache() {
    let resolved = local_config().into_resolved("/tmp/demo/maggraph.toml").expect("load config");
    let mut reader = maggraph::lakehouse::reader::LakehouseReader::from_config(&resolved, Vec::new());
    assert_eq!(reader.cache().max_bytes(), 10485760);
    reader.cache_mut().insert("u".to_string(), ResolvedContent::LocalMarkdown { body: "b".to_string() });
    assert_eq!(reader.cache().len(), 1);
}

#[test]
fn cache_answers_by_entry_age() {
    let mut cache = ContentCache::new(60, 1024);
    let content = asset("s3://bucket/key", None);
    cache.insert("s3://bucket/key".to_string(), content.clone());
    assert_eq!(cache.get_at_age("s3://bucket/key", 0), Some(&content));
    assert_eq!(cache.get_at_age("s3://bucket/key", 60_000_000_000), Some(&content));
    assert_eq!(cache.get_at_age("s3://bucket/key", 60_000_000_001), None);
    assert_eq!(cache.get_at_age("s3://other", 0), None);
    assert_eq!(cache.get("s3://bucket/key"), Some(&content));
    assert_eq!(cache.len(), 1);
}

#[test]
fn expiry_rule() {
    assert!(!expired(0, u128::MAX));
    assert!(!expired(1, 1_000_000_000));
    assert!(expired(1, 1_000_000_001));
    assert!(!expired(300, 299_999_999_999));
}

use maggraph::config::{LakehouseCacheConfig, LakehouseConfig, MagGraphConfig, StorageConfig, StorageMode};
use maggraph::index::GraphIndex;
use maggraph::lakehouse::reader::LakehouseReader;
use maggraph::node::{Node, NodeMetadata};
use maggraph::config::RemoteSource;
use maggraph::error::MagGraphError;
use maggraph::lakehouse::content::{AssetMetadata, ParquetMetadata, ResolvedContent};
use maggraph::lakehouse::resolver::{
    ContentResolver, FileFacts, FileResolver, HttpResolver, RegisteredResolver, ResolverRegistry,
    S3StubResolver,
};
use maggraph::lakehouse::uri::{infer_format, resolve_source_uri, uri_scheme, validate_scheme};

fn parquet_remote() -> RemoteSource {
    RemoteSource { uri: "s3://corp-data/lake".into(), format: "parquet".into() }
}

#[test]
fn s3_stub_returns_metadata() {
    let resolver = S3StubResolver;
    let content = resolver
        .fetch("s3://lake/churn_data.parquet", "parquet", &FileFacts::unread())
        .expect("fetch");

    assert!(matches!(content, ResolvedContent::ExternalAsset { .. }));
    if let ResolvedContent::ExternalAsset { snippet, metadata, .. } = content {
        assert!(snippet.is_some());
        assert!(metadata.parquet.is_some());
    }
}

#[test]
fn registry_selects_matching_resolver() {
    let registry = ResolverRegistry::with_defaults();
    let content = registry
        .fetch("s3://bucket/object.parquet", "parquet", &FileFacts::unread())
        .expect("fetch");
    assert!(matches!(content, ResolvedContent::ExternalAsset { .. }));
}

#[test]
fn absolute_s3_uri_passes_through() {
    let resolved =
        resolve_source_uri("s3://lake/churn_data.parquet", &[parquet_remote()]).expect("resolve");
    assert_eq!(resolved, "s3://lake/churn_data.parquet");
}

#[test]
fn relative_source_joins_remote_base() {
    let resolved = resolve_source_uri("churn_data.parquet", &[parquet_remote()]).expect("resolve");
    assert_eq!(resolved, "s3://corp-data/lake/churn_data.parquet");
}

#[test]
fn rejects_disallowed_scheme() {
    let err = resolve_source_uri("ftp://example/data", &[parquet_remote()]).expect_err("scheme");
    assert!(matches!(err, MagGraphError::DisallowedScheme { .. }));
}

#[test]
fn infers_parquet_from_extension() {
    assert_eq!(infer_format("s3://bucket/a.parquet", &[]), "parquet".to_string());
}

#[test]
fn infers_format_from_remote_prefix() {
    assert_eq!(infer_format("s3://corp-data/lake/table", &[parquet_remote()]), "parquet");
    assert_eq!(infer_format("s3://other/table", &[parquet_remote()]), "unknown");
    assert_eq!(infer_format("https://h/x.csv", &[]), "csv");
    assert_eq!(infer_format("https://h/x.csv?y=1", &[]), "unknown");
}

#[test]
fn uri_scheme_and_validation() {
    assert_eq!(uri_scheme("s3://a/b"), Some("s3".to_string()));
    assert_eq!(uri_scheme("plain/path"), None);
    assert!(validate_scheme("https").is_ok());
    assert!(matches!(
        validate_scheme("ftp"),
        Err(MagGraphError::DisallowedScheme { scheme }) if scheme == "ftp"
    ));
}

#[test]
fn s3_stub_rejects_malformed_uri() {
    let err = S3StubResolver
        .fetch("s3://bucket-only", "unknown", &FileFacts::unread())
        .expect_err("malformed");
    match err {
        MagGraphError::ContentResolve { message, .. } => {
            assert_eq!(message, "s3 URI must be s3://bucket/key")
        }
        other => panic!("unexpected error: {other:?}"),
    }
}

#[test]
fn s3_stub_snippet_names_bucket_and_key() {
    let content =
        S3StubResolver.fetch("s3://lake/t.csv", "unknown", &FileFacts::unread()).expect("fetch");
    match content {
        ResolvedContent::ExternalAsset { format, snippet, metadata, .. } => {
            assert_eq!(format, "csv");
            assert_eq!(snippet.as_deref(), Some("s3://lake/t.csv (stub resolver — metadata only)"));
            assert_eq!(metadata.content_type.as_deref(), Some("application/octet-stream"));
            assert!(metadata.parquet.is_none());
        }
        other => panic!("unexpected: {other:?}"),
    }
}

#[test]
fn http_stub_records_uri() {
    let content =
        HttpResolver.fetch("https://example.com/d", "json", &FileFacts::unread()).expect("fetch");
    match content {
        ResolvedContent::ExternalAsset { uri, format, .. } => {
            assert_eq!(uri, "https://example.com/d");
            assert_eq!(format, "json");
        }
        other => panic!("unexpected: {other:?}"),
    }
}

fn text_facts(path: &str, body: &str) -> FileFacts {
    FileFacts {
        canonical_path: Ok(path.to_string()),
        size_bytes: Ok(body.len() as u64),
        magic_valid: false,
        snippet: Some(body.to_string()),
        text: Ok(body.to_string()),
    }
}

#[test]
fn file_resolver_reads_text() {
    let facts = text_facts("/data/lake/note.txt", "hello lakehouse");
    let resolver = FileResolver::new(vec!["/data/lake".to_string()]);
    let content = resolver.fetch("file:///data/lake/note.txt", "unknown", &facts).expect("fetch");
    match content {
        ResolvedContent::Text { body, .. } => assert_eq!(body, "hello lakehouse"),
        other => panic!("unexpected content: {other:?}"),
    }
}

#[test]
fn file_resolver_parquet_metadata() {
    let facts = FileFacts {
        canonical_path: Ok("/data/lake/data.parquet".to_string()),
        size_bytes: Ok(8),
        magic_valid: true,
        snippet: Some("PAR1xxxx".to_string()),
        text: Err("stream did not contain valid UTF-8".to_string()),
    };
    let resolver = FileResolver::new(vec!["/data/lake".to_string()]);
    let content = resolver.fetch("file:///data/lake/data.parquet", "parquet", &facts).expect("fetch");
    if let ResolvedContent::ExternalAsset { metadata, .. } = content {
        assert!(metadata.parquet.as_ref().unwrap().magic_valid);
        assert_eq!(metadata.size_bytes, Some(8));
    } else {
        panic!("expected external asset");
    }
}

#[test]
fn file_resolver_enforces_allowlist() {
    let facts = text_facts("/etc/passwd", "root");
    let resolver = FileResolver::new(vec!["/data/lake".to_string()]);
    let err = resolver.fetch("file:///etc/passwd", "unknown", &facts).expect_err("outside");
    match err {
        MagGraphError::ContentResolve { message, .. } => {
            assert_eq!(message, "path /etc/passwd is outside configured file allowlist")
        }
        other => panic!("unexpected error: {other:?}"),
    }
    let prefix_only = text_facts("/data/lakehouse/x.txt", "x");
    assert!(resolver.fetch("file:///data/lakehouse/x.txt", "unknown", &prefix_only).is_err());
}

#[test]
fn file_resolver_reports_missing_file() {
    let facts = FileFacts {
        canonical_path: Err("No such file or directory (os error 2)".to_string()),
        size_bytes: Err("not read".to_string()),
        magic_valid: false,
        snippet: None,
        text: Err("not read".to_string()),
    };
    let err = FileResolver::new(Vec::new())
        .fetch("file:///missing.txt", "unknown", &facts)
        .expect_err("missing");
    match err {
        MagGraphError::ContentResolve { message, uri } => {
            assert_eq!(uri, "file:///missing.txt");
            assert_eq!(
                message,
                "failed to read file /missing.txt: No such file or directory (os error 2)"
            );
        }
        other => panic!("unexpected error: {other:?}"),
    }
}

#[test]
fn registry_reports_unknown_scheme() {
    let registry = ResolverRegistry::with_defaults();
    let err = registry.fetch("gs://bucket/x", "unknown", &FileFacts::unread()).expect_err("none");
    match err {
        MagGraphError::ContentResolve { message, .. } => {
            assert_eq!(message, "no resolver registered for URI scheme")
        }
        other => panic!("unexpected error: {other:?}"),
    }
}

#[test]
fn empty_registry_accepts_registered_resolver() {
    let mut registry = ResolverRegistry::new();
    assert!(registry.fetch("s3://a/b", "unknown", &FileFacts::unread()).is_err());
    registry.register(RegisteredResolver::S3(S3StubResolver));
    assert!(registry.fetch("s3://a/b", "unknown", &FileFacts::unread()).is_ok());
}

#[test]
fn content_markdown_and_size() {
    let local = ResolvedContent::LocalMarkdown { body: "# Hello".to_string() };
    assert_eq!(local.to_markdown(), "# Hello");
    assert_eq!(local.approximate_size_bytes(), 7);
    let asset = ResolvedContent::ExternalAsset {
        uri: "s3://b/k".to_string(),
        format: "parquet".to_string(),
        metadata: AssetMetadata {
            size_bytes: Some(42),
            content_type: None,
            parquet: Some(ParquetMetadata { magic_valid: true, row_groups: None }),
        },
        snippet: Some("abc".to_string()),
    };
    assert_eq!(asset.approximate_size_bytes(), 45);
    assert_eq!(
        asset.to_markdown(),
        "## External asset\n\n**URI:** `s3://b/k`\n\n**Format:** `parquet`\n\n**Size:** 42 bytes\n\n**Parquet magic valid:** true\n\n### Snippet\n\nabc"
    );
}

#[test]
fn relative_source_joins_first_matching_remote() {
    let remotes = vec![
        RemoteSource { uri: "lake".to_string(), format: "csv".to_string() },
        RemoteSource { uri: "lake/deep/".to_string(), format: "parquet".to_string() },
    ];
    let resolved = resolve_source_uri("lake/deep/t.csv", &remotes).expect("resolve");
    assert_eq!(resolved, "lake/lake/deep/t.csv");
    let resolved = resolve_source_uri("other/t.csv", &remotes).expect("resolve");
    assert_eq!(resolved, "lake/other/t.csv");
}

#[test]
fn file_allowlist_refuses_without_file_contents() {
    let resolver = FileResolver::new(vec!["/data/lake".to_string()]);
    assert!(!resolver.allows("/etc/passwd"));
    assert!(resolver.allows("/data/lake/a.csv"));
    let facts = FileFacts { canonical_path: Ok("/etc/passwd".to_string()), ..FileFacts::unread() };
    let err = resolver.fetch("file:///etc/passwd", "unknown", &facts).expect_err("outside");
    match err {
        MagGraphError::ContentResolve { message, uri } => {
            assert_eq!(uri, "file:///etc/passwd");
            assert_eq!(message, "path /etc/passwd is outside configured file allowlist");
        }
        other => panic!("unexpected error: {other:?}"),
    }
}

#[test]
fn lakehouse_mode_read_is_served_from_cache() {
    let config = MagGraphConfig {
        storage: StorageConfig { mode: StorageMode::Lakehouse, root_path: "./kg".to_string() },
        lakehouse: Some(LakehouseConfig { remote_sources: vec![parquet_remote()], cache: LakehouseCacheConfig::default() }),
        sync: None,
    };
    let resolved = config.into_resolved("/tmp/demo/maggraph.toml").expect("config");
    let node = Node {
        metadata: NodeMetadata {
            id: "churn".to_string(),
            node_type: "dataset".to_string(),
            source: Some("churn_data.parquet".to_string()),
            links: Vec::new(),
            extra: Vec::new(),
        },
        body: "Churn.\n".to_string(),
        relative_path: "churn.md".to_string(),
    };
    let index = GraphIndex::from_scanned("kg".to_string(), vec![node]).expect("index");
    let mut reader = LakehouseReader::from_config(&resolved, Vec::new());
    let first = reader.read_node(&index, "churn", &FileFacts::unread()).expect("first read");
    match &first.content {
        ResolvedContent::ExternalAsset { uri, .. } => assert_eq!(uri, "s3://corp-data/lake/churn_data.parquet"),
        other => panic!("unexpected content: {other:?}"),
    }
    assert_eq!(reader.cache().len(), 1);
    let second = reader.read_node(&index, "churn", &FileFacts::unread()).expect("second read");
    assert_eq!(second.content, first.content);
    assert_eq!(reader.cache().len(), 1);
}

#[derive(Debug, Clone)]
struct MemoryResolver;

impl ContentResolver for MemoryResolver {
    // The two specification items only matter to verified code; they never run.
    fn scheme_names(&self) -> vstd::seq::Seq<vstd::seq::Seq<char>> {
        unreachable!()
    }

    fn fetch_spec(
        &self,
        _uri: vstd::seq::Seq<char>,
        _format_hint: vstd::seq::Seq<char>,
        _files: FileFacts,
    ) -> Result<maggraph::lakehouse::content::ContentView, maggraph::lakehouse::resolver::FetchFailure> {
        unreachable!()
    }

    fn schemes(&self) -> Vec<&'static str> {
        vec!["mem"]
    }

    fn fetch(&self, uri: &str, _format_hint: &str, _files: &FileFacts) -> maggraph::error::Result<ResolvedContent> {
        Ok(ResolvedContent::Text { uri: uri.to_string(), body: "in memory".to_string() })
    }
}

#[test]
fn custom_resolver_can_be_registered() {
    let mut registry: ResolverRegistry<MemoryResolver> = ResolverRegistry::custom_with_file_allowlist(Vec::new());
    assert!(registry.fetch("mem://notes/a", "unknown", &FileFacts::unread()).is_err());
    registry.register(RegisteredResolver::Custom(MemoryResolver));
    let content = registry.fetch("mem://notes/a", "unknown", &FileFacts::unread()).expect("custom fetch");
    assert_eq!(content, ResolvedContent::Text { uri: "mem://notes/a".to_string(), body: "in memory".to_string() });
    assert!(registry.fetch("s3://bucket/key.csv", "unknown", &FileFacts::unread()).is_ok());
}

#[test]
fn file_uri_local_path() {
    assert_eq!(maggraph::lakehouse::resolver::file_uri_path("file:///data/a.csv").as_deref(), Some("/data/a.csv"));
    assert_eq!(maggraph::lakehouse::resolver::file_uri_path("s3://b/k"), None);
}

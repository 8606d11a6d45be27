use maggraph::ip::ip_literal_blocked_exec;
use maggraph::sync::engine::{pull_result, PullStep};
use maggraph::config::SyncRole;
use maggraph::error::MagGraphError;
use maggraph::security::{assert_path_within_root, http_uri_host, validate_http_uri_host, validate_relative_node_path};
use maggraph::sync::lock::{LockRecord, ReleaseStep, WriteLockGuard};
use maggraph::sync::policy::WritePolicy;
use maggraph::ui::check_loopback;

#[test]
fn follower_rejects_writes() {
    let err = WritePolicy::follower().assert_can_write().expect_err("follower write");
    assert!(matches!(err, MagGraphError::ReadOnlyRole { .. }));
}

#[test]
fn leader_without_lock_rejects_writes() {
    let err = WritePolicy::from_role(SyncRole::Leader).assert_can_write().expect_err("leader without lock");
    assert!(matches!(err, MagGraphError::WriteLockRequired));
}

#[test]
fn leader_with_lock_allows_writes() {
    let lock = WriteLockGuard::acquire("graph", None, "token-1".to_string()).expect("lock");
    WritePolicy::leader_with_lock(&lock).assert_can_write().expect("allowed");
}

#[test]
fn unrestricted_policy_allows_writes() {
    WritePolicy::unrestricted().assert_can_write().expect("no sync");
    assert!(WritePolicy::from_role(SyncRole::Follower).assert_can_write().is_err());
}

#[test]
fn acquire_and_release_lock() {
    let mut guard = WriteLockGuard::acquire("root", None, "tok".to_string()).expect("acquire");
    assert_eq!(guard.lock_path(), "root/.maggraph/lock.toml");
    assert_eq!(guard.release(Some("tok")).expect("release"), ReleaseStep::RemoveFile);
    assert_eq!(guard.release(None).expect("released twice"), ReleaseStep::Nothing);
}

#[test]
fn second_acquire_fails_while_held() {
    let held = LockRecord {
        holder: "leader-1".to_string(),
        acquired_at: "2024-01-01T00:00:00+00:00".to_string(),
        token: "t1".to_string(),
    };
    let err = WriteLockGuard::acquire("root", Some(&held), "t2".to_string()).expect_err("held");
    match err {
        MagGraphError::WriteLockHeld { holder, .. } => assert_eq!(holder, "leader-1"),
        other => panic!("unexpected error {other:?}"),
    }
}

#[test]
fn release_refuses_foreign_token() {
    let mut guard = WriteLockGuard::acquire("root", None, "mine".to_string()).expect("acquire");
    let err = guard.release(Some("theirs")).expect_err("mismatch");
    assert!(matches!(err, MagGraphError::WriteLock { .. }));
    assert_eq!(guard.release(None).expect("file gone"), ReleaseStep::Nothing);
}

#[test]
fn rejects_parent_dir_in_relative_path() {
    let err = validate_relative_node_path("../escape.md").expect_err("err");
    assert!(matches!(err, MagGraphError::Index(_)));
}

#[test]
fn rejects_absolute_relative_path() {
    let err = validate_relative_node_path("/etc/passwd").expect_err("err");
    assert!(matches!(err, MagGraphError::Index(_)));
}

#[test]
fn rejects_maggraph_metadata_path() {
    let err = validate_relative_node_path(".maggraph/secret.md").expect_err("err");
    assert!(matches!(err, MagGraphError::Index(_)));
}

#[test]
fn accepts_nested_relative_path() {
    let path = validate_relative_node_path("notes/topic.md").expect("ok");
    assert_eq!(path, "notes/topic.md");
}

#[test]
fn rejects_empty_relative_path() {
    assert!(validate_relative_node_path("").is_err());
}

#[test]
fn assert_path_within_root_blocks_escape() {
    let err = assert_path_within_root("/tmp/x/graph", "/tmp/x/outside.txt").expect_err("escape");
    assert!(matches!(err, MagGraphError::Index(_)));
    assert!(assert_path_within_root("/tmp/x/graph", "/tmp/x/graph/a.md").is_ok());
}

#[test]
fn blocks_localhost_http_uri() {
    let err = validate_http_uri_host("http://127.0.0.1/data").expect_err("localhost");
    assert!(matches!(err, MagGraphError::Lakehouse(_)));
    let err = validate_http_uri_host("http://LocalHost/data").expect_err("localhost name");
    assert!(matches!(err, MagGraphError::Lakehouse(_)));
}

#[test]
fn blocks_private_http_uri() {
    let err = validate_http_uri_host("https://192.168.1.10/x").expect_err("private");
    assert!(matches!(err, MagGraphError::Lakehouse(_)));
}

#[test]
fn allows_public_http_uri() {
    validate_http_uri_host("https://example.com/data.parquet").expect("public ok");
}

#[test]
fn http_host_extraction() {
    assert_eq!(http_uri_host("https://example.com:8080/x").as_deref(), Some("example.com"));
    // The host is cut at the first colon, so a bracketed IPv6 literal leaves nothing.
    assert_eq!(http_uri_host("http://[::1]/x").as_deref(), Some(""));
    assert!(http_uri_host("ftp://example.com").is_none());
    assert!(validate_http_uri_host("https:///nohost").is_err());
    assert!(validate_http_uri_host("http://printer.local/x").is_err());
}

#[test]
fn http_host_ip_literal_classes() {
    let blocked = [
        "http://10.1.2.3/x",
        "http://172.16.0.1/x",
        "http://172.31.255.255/x",
        "http://169.254.1.1/x",
        "http://0.0.0.0/x",
        "http://0.1.2.3/x",
        "http://255.255.255.255/x",
        "http://127.8.8.8/x",
    ];
    for uri in blocked {
        let err = validate_http_uri_host(uri).expect_err(uri);
        match err {
            MagGraphError::Lakehouse(m) => assert!(m.contains("private or loopback"), "{m}"),
            other => panic!("unexpected {other:?}"),
        }
    }
    for uri in ["http://172.32.0.1/x", "http://8.8.8.8/x", "http://192.169.0.1/x", "http://01.2.3.4/x"] {
        validate_http_uri_host(uri).expect(uri);
    }
}

#[test]
fn ip_literal_parsing_cases() {
    let cases: [(&str, Option<bool>); 27] = [
        ("::1", Some(true)),
        ("::", Some(true)),
        ("fc00::1", Some(true)),
        ("fdff:1::", Some(true)),
        ("fe80::1", Some(true)),
        ("febf::", Some(true)),
        ("fec0::1", Some(false)),
        ("2001:db8::1", Some(false)),
        ("1:2:3:4:5:6:7:8", Some(false)),
        ("1:2:3:4:5:6:1.2.3.4", Some(false)),
        ("::ffff:192.168.1.1", Some(false)),
        ("1::2::3", None),
        (":1::2", None),
        ("1:::2", None),
        ("12345::", None),
        ("1.2.3", None),
        ("1.2.3.4.5", None),
        ("256.1.1.1", None),
        ("1.2.3.04", None),
        ("::2", Some(false)),
        ("a:b:c:d:e:f:0:1", Some(false)),
        ("10.0.0.1", Some(true)),
        ("192.168.0.1", Some(true)),
        ("1:2:3:4:5:6:7::", Some(false)),
        ("1:2:3:4:5:6:7:8::", None),
        ("", None),
        ("localhost", None),
    ];
    for (c, expected) in cases {
        let chars: Vec<char> = c.chars().collect();
        assert_eq!(ip_literal_blocked_exec(&chars), expected, "{c}");
    }
}

#[test]
fn rejects_non_loopback_bind() {
    let err = check_loopback("0.0.0.0", false).expect_err("non-loopback");
    match err {
        MagGraphError::ConfigValidation(m) => {
            assert_eq!(m, "UI server must bind to loopback (127.0.0.1 or ::1); got 0.0.0.0")
        }
        other => panic!("unexpected error {other:?}"),
    }
}

#[test]
fn accepts_ipv4_loopback() {
    check_loopback("127.0.0.1", true).expect("loopback");
}

#[test]
fn pull_result_for_each_step() {
    let r = pull_result(PullStep::UpToDate, None).expect("up to date");
    assert!(!r.merged && !r.fast_forward && r.conflicts.is_empty());
    let r = pull_result(PullStep::FastForward, None).expect("fast-forward");
    assert!(r.merged && r.fast_forward && r.conflicts.is_empty());
    let r = pull_result(PullStep::Merge, None).expect("merge");
    assert!(r.merged && !r.fast_forward && r.conflicts.is_empty());
    let r = pull_result(PullStep::Merge, Some(vec!["shared.md".to_string()])).expect("conflict");
    assert!(!r.merged && !r.fast_forward);
    assert_eq!(r.conflicts, vec!["shared.md".to_string()]);
    match pull_result(PullStep::Unsupported, None) {
        Err(MagGraphError::Git { message }) => assert_eq!(message, "unsupported merge analysis result"),
        other => panic!("unexpected: {other:?}"),
    }
}

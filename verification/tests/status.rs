use shadow::status::status_paths;
use shadow::model::{BlobMetadata, ObjectId, ShadowRef, DEFAULT_CACHE_CONTROL};
use shadow::status::{
    cache_matches, check_findings, content_source, local_state, needs_body_hash, remote_status, render, ContentSource,
    LocalState, RemoteStatus, StatusRecord, CLEAN_MESSAGE,
};

fn record(path: &str, state: LocalState, remote: Option<RemoteStatus>) -> StatusRecord {
    StatusRecord { path: path.to_string(), state, remote }
}

#[test]
fn renders_only_actionable_groups() {
    let records = vec![
        record("published.bin", LocalState::Published, Some(RemoteStatus::Healthy)),
        record("new.bin", LocalState::Unpublished, None),
        record("missing.bin", LocalState::Missing, Some(RemoteStatus::Missing)),
    ];

    let output = render(&records);

    assert!(output.contains("Changes not published:"));
    assert!(output.contains("new.bin"));
    assert!(output.contains("Files missing from the worktree:"));
    assert!(output.contains("Remote object issues:"));
    assert!(!output.contains("published.bin"));
}

#[test]
fn renders_clean_message() {
    let records = vec![record("published.bin", LocalState::Published, None)];
    assert_eq!(render(&records), "Shadow working tree clean.\n");
}

#[test]
fn renders_exact_report_layout() {
    let records = vec![
        record("a.bin", LocalState::Modified, None),
        record("b.bin", LocalState::Orphaned, Some(RemoteStatus::Invalid)),
    ];
    assert_eq!(
        render(&records),
        "Changes not published:\n  (run \"shadow publish\" to publish worktree content)\n\tmodified   a.bin\n\n\
Orphaned references:\n  (remove the corresponding files under .shadow/refs)\n\torphaned   b.bin\n\n\
Remote object issues:\n  (run \"shadow publish\" to repair remote objects)\n\tinvalid    b.bin\n"
    );
}

#[test]
fn clean_report_law_on_values() {
    assert_eq!(render(&vec![]), CLEAN_MESSAGE);
    let quiet = vec![record("a.bin", LocalState::Published, Some(RemoteStatus::Healthy))];
    assert_eq!(render(&quiet), CLEAN_MESSAGE);
    let remote_only = vec![record("a.bin", LocalState::Published, Some(RemoteStatus::Missing))];
    assert_ne!(render(&remote_only), CLEAN_MESSAGE);
}

fn oid(c: &str) -> ObjectId {
    ObjectId::from_sha256_hex(c.repeat(64)).unwrap()
}

#[test]
fn classifies_local_states() {
    let reference = ShadowRef { oid: oid("a"), size: 3, content_type: None };
    let same = oid("a");
    let other = oid("b");
    assert_eq!(local_state(true, None, true, None), Some(LocalState::Unpublished));
    assert_eq!(local_state(false, None, true, None), None);
    assert_eq!(local_state(true, Some(&reference), false, None), Some(LocalState::Orphaned));
    assert_eq!(local_state(false, Some(&reference), true, None), Some(LocalState::Missing));
    assert_eq!(local_state(true, Some(&reference), true, Some((&same, 3))), Some(LocalState::Published));
    assert_eq!(local_state(true, Some(&reference), true, Some((&same, 4))), Some(LocalState::Modified));
    assert_eq!(local_state(true, Some(&reference), true, Some((&other, 3))), Some(LocalState::Modified));
    assert!(needs_body_hash(true, true, true));
    assert!(!needs_body_hash(true, false, true));
    assert!(!needs_body_hash(true, true, false));
}

#[test]
fn judges_remote_objects() {
    let reference = ShadowRef { oid: oid("a"), size: 3, content_type: None };
    let good = BlobMetadata {
        size: 3,
        etag: None,
        content_type: Some("image/png".to_string()),
        cache_control: Some(DEFAULT_CACHE_CONTROL.to_string()),
    };
    assert_eq!(remote_status(None, &reference, "image/png"), RemoteStatus::Missing);
    assert_eq!(remote_status(Some(&good), &reference, "image/png"), RemoteStatus::Healthy);
    assert_eq!(remote_status(Some(&good), &reference, "text/css"), RemoteStatus::Invalid);
    let mut small = good.clone();
    small.size = 2;
    assert_eq!(remote_status(Some(&small), &reference, "image/png"), RemoteStatus::Invalid);
    let mut uncached = good.clone();
    uncached.cache_control = None;
    assert_eq!(remote_status(Some(&uncached), &reference, "image/png"), RemoteStatus::Invalid);
    assert_eq!(RemoteStatus::Healthy.as_str(), "ok");
    assert_eq!(RemoteStatus::Invalid.as_str(), "invalid");
}

#[test]
fn chooses_content_source() {
    assert_eq!(content_source(true, LocalState::Modified), ContentSource::Cache);
    assert_eq!(content_source(false, LocalState::Published), ContentSource::Worktree);
    assert_eq!(content_source(false, LocalState::Modified), ContentSource::Nothing);
}

#[test]
fn lists_check_findings() {
    let records = vec![
        record("a.bin", LocalState::Published, Some(RemoteStatus::Healthy)),
        record("b.bin", LocalState::Modified, Some(RemoteStatus::Missing)),
        record("c.bin", LocalState::Orphaned, None),
    ];
    let findings = check_findings(&records, &vec!["d.bin".to_string()]);
    assert_eq!(
        findings,
        vec![
            "error: worktree file differs from ref: b.bin".to_string(),
            "error: remote object is missing: b.bin".to_string(),
            "error: ref is outside the # shadow rules: c.bin".to_string(),
            "error: cache object is invalid: d.bin".to_string(),
        ]
    );
    assert!(check_findings(&vec![record("a.bin", LocalState::Published, None)], &vec![]).is_empty());
}

#[test]
fn validates_cached_objects() {
    let reference = ShadowRef { oid: oid("a"), size: 3, content_type: None };
    assert!(cache_matches((&oid("a"), 3), &reference));
    assert!(!cache_matches((&oid("a"), 4), &reference));
    assert!(!cache_matches((&oid("b"), 3), &reference));
}

#[test]
fn status_paths_merge_and_order_by_components() {
    let worktree = vec!["a-b".to_string(), "a/b".to_string(), "c.bin".to_string()];
    let refs = vec!["c.bin".to_string(), "a/a".to_string()];
    assert_eq!(
        status_paths(&worktree, &refs),
        vec!["a/a".to_string(), "a/b".to_string(), "a-b".to_string(), "c.bin".to_string()]
    );
    assert!(status_paths(&vec![], &vec![]).is_empty());
}

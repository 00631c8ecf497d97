use shadow::model::{BlobMetadata, ObjectId, ShadowRef, UploadOptions, DEFAULT_CACHE_CONTROL};
use shadow::publish::{
    publish_step, register_content_type, verify_remote, DeclaredTypes, PublishAction, PublishEvent, PublishFailure,
    PublishPhase,
};
use shadow::restore::{batch_outcome, restore_step, BatchOutcome, RestoreAction, RestoreEvent, RestoreFailure, RestorePhase};

fn oid(c: &str) -> ObjectId {
    ObjectId::from_sha256_hex(c.repeat(64)).unwrap()
}

fn metadata(size: u64, content_type: &str) -> BlobMetadata {
    BlobMetadata {
        size,
        etag: None,
        content_type: Some(content_type.to_string()),
        cache_control: Some(DEFAULT_CACHE_CONTROL.to_string()),
    }
}

#[test]
fn publishes_absent_object_by_uploading_then_verifying() {
    let options = UploadOptions::new("application/octet-stream");
    let (phase, action) = publish_step(PublishPhase::Start, PublishEvent::Begin, 5, &options);
    assert_eq!((phase, action), (PublishPhase::Inspecting, PublishAction::Stat));
    let (phase, action) = publish_step(phase, PublishEvent::Stat(None), 5, &options);
    assert_eq!((phase, action), (PublishPhase::Uploading, PublishAction::Upload));
    let (phase, action) = publish_step(phase, PublishEvent::Completed, 5, &options);
    assert_eq!((phase, action), (PublishPhase::Verifying, PublishAction::Stat));
    let (phase, action) =
        publish_step(phase, PublishEvent::Stat(Some(metadata(5, "application/octet-stream"))), 5, &options);
    assert_eq!((phase, action), (PublishPhase::WritingRef, PublishAction::WriteRef));
    let (phase, action) = publish_step(phase, PublishEvent::Completed, 5, &options);
    assert_eq!((phase, action), (PublishPhase::Published, PublishAction::Finish));
}

#[test]
fn repairs_metadata_without_uploading() {
    let options = UploadOptions::new("image/png");
    let (phase, action) =
        publish_step(PublishPhase::Inspecting, PublishEvent::Stat(Some(metadata(5, "application/octet-stream"))), 5, &options);
    assert_eq!((phase, action), (PublishPhase::UpdatingMetadata, PublishAction::UpdateMetadata));
    let (phase, _) = publish_step(phase, PublishEvent::Completed, 5, &options);
    assert_eq!(phase, PublishPhase::Verifying);
    let (_, action) = publish_step(PublishPhase::Inspecting, PublishEvent::Stat(Some(metadata(5, "image/png"))), 5, &options);
    assert_eq!(action, PublishAction::WriteRef);
}

#[test]
fn refuses_size_mismatch_and_unverified_objects() {
    let options = UploadOptions::new("image/png");
    let (phase, action) = publish_step(PublishPhase::Inspecting, PublishEvent::Stat(Some(metadata(6, "image/png"))), 5, &options);
    assert_eq!(phase, PublishPhase::Failed);
    assert_eq!(action, PublishAction::Fail(PublishFailure::RemoteSizeMismatch { found: 6, expected: 5 }));
    let (_, action) = publish_step(PublishPhase::Verifying, PublishEvent::Stat(None), 5, &options);
    assert_eq!(action, PublishAction::Fail(PublishFailure::NotVisible));
    let (_, action) = publish_step(PublishPhase::Start, PublishEvent::Completed, 5, &options);
    assert_eq!(action, PublishAction::Fail(PublishFailure::UnexpectedEvent));
    let (_, action) = publish_step(PublishPhase::Uploading, PublishEvent::Error("boom".to_string()), 5, &options);
    assert_eq!(action, PublishAction::Fail(PublishFailure::Io("boom".to_string())));
}

#[test]
fn verifies_remote_metadata() {
    let options = UploadOptions::new("image/png");
    assert_eq!(verify_remote(None, 5, &options), Err(PublishFailure::NotVisible));
    assert_eq!(verify_remote(Some(&metadata(4, "image/png")), 5, &options), Err(PublishFailure::VerifiedSizeMismatch));
    assert_eq!(verify_remote(Some(&metadata(5, "text/css")), 5, &options), Err(PublishFailure::VerifiedContentTypeMismatch));
    let mut stale = metadata(5, "image/png");
    stale.cache_control = Some("no-cache".to_string());
    assert_eq!(verify_remote(Some(&stale), 5, &options), Err(PublishFailure::VerifiedCacheControlMismatch));
    assert_eq!(verify_remote(Some(&metadata(5, "image/png")), 5, &options), Ok(()));
}

#[test]
fn rejects_conflicting_content_types_for_one_object() {
    let mut declared = DeclaredTypes::new();
    let same = oid("a");
    assert_eq!(register_content_type(&mut declared, &same, "text/css", "a.css"), Ok(()));
    assert_eq!(register_content_type(&mut declared, &same, "text/css", "b.css"), Ok(()));
    let result = register_content_type(&mut declared, &same, "text/plain", "a.txt");
    assert_eq!(
        result,
        Err(PublishFailure::ConflictingContentTypes {
            oid: oid("a"),
            existing: "text/css".to_string(),
            existing_path: "a.css".to_string(),
            content_type: "text/plain".to_string(),
            path: "a.txt".to_string(),
        })
    );
    assert_eq!(register_content_type(&mut declared, &oid("b"), "text/plain", "a.txt"), Ok(()));
}

#[test]
fn restores_missing_file_through_download() {
    let reference = ShadowRef { oid: oid("a"), size: 5, content_type: None };
    let (phase, action) = restore_step(RestorePhase::Start, RestoreEvent::Begin { managed: true }, &reference, false);
    assert_eq!((phase, action), (RestorePhase::CheckingWorktree, RestoreAction::HashWorktree));
    let (phase, action) = restore_step(phase, RestoreEvent::Worktree(None), &reference, false);
    assert_eq!((phase, action), (RestorePhase::CheckingCache { replace: false }, RestoreAction::CheckCache));
    let (phase, action) = restore_step(phase, RestoreEvent::Cache(None), &reference, false);
    assert_eq!((phase, action), (RestorePhase::Downloading { replace: false }, RestoreAction::Download));
    let (phase, action) = restore_step(phase, RestoreEvent::Downloaded(oid("a"), 5), &reference, false);
    assert_eq!((phase, action), (RestorePhase::Promoting { replace: false }, RestoreAction::Promote));
    let (phase, action) = restore_step(phase, RestoreEvent::Completed, &reference, false);
    assert_eq!(action, RestoreAction::Materialize { replace: false });
    let (phase, action) = restore_step(phase, RestoreEvent::Completed, &reference, false);
    assert_eq!((phase, action), (RestorePhase::Restored, RestoreAction::Finish));
}

#[test]
fn refuses_to_replace_without_force() {
    let reference = ShadowRef { oid: oid("a"), size: 5, content_type: None };
    let changed = RestoreEvent::Worktree(Some((oid("b"), 7)));
    let (phase, action) = restore_step(RestorePhase::CheckingWorktree, changed.clone(), &reference, false);
    assert_eq!((phase, action), (RestorePhase::Failed, RestoreAction::Fail(RestoreFailure::WorktreeDiffers)));
    let (phase, action) = restore_step(RestorePhase::CheckingWorktree, changed, &reference, true);
    assert_eq!((phase, action), (RestorePhase::CheckingCache { replace: true }, RestoreAction::CheckCache));
    let (_, action) = restore_step(phase, RestoreEvent::Cache(Some((oid("a"), 5))), &reference, true);
    assert_eq!(action, RestoreAction::Materialize { replace: true });
}

#[test]
fn restore_keeps_matching_files_and_rejects_bad_downloads() {
    let reference = ShadowRef { oid: oid("a"), size: 5, content_type: None };
    let (phase, action) = restore_step(RestorePhase::CheckingWorktree, RestoreEvent::Worktree(Some((oid("a"), 5))), &reference, false);
    assert_eq!((phase, action), (RestorePhase::Present, RestoreAction::Finish));
    let (_, action) =
        restore_step(RestorePhase::Downloading { replace: false }, RestoreEvent::Downloaded(oid("a"), 4), &reference, false);
    assert_eq!(action, RestoreAction::Fail(RestoreFailure::DownloadMismatch));
    let (_, action) = restore_step(RestorePhase::Start, RestoreEvent::Begin { managed: false }, &reference, false);
    assert_eq!(action, RestoreAction::Fail(RestoreFailure::Orphaned));
}

#[test]
fn summarizes_batches() {
    assert_eq!(batch_outcome(0, 0), BatchOutcome::Nothing);
    assert_eq!(batch_outcome(3, 0), BatchOutcome::Succeeded);
    assert_eq!(batch_outcome(3, 2), BatchOutcome::FailedFiles(2));
}

use shadow::backend::{multipart_step, MultipartAction, MultipartEvent, MultipartFailure, MultipartPhase};
use shadow::backend::{
    error_kind_for_status, full_key, header_value, is_not_found, normalize_prefix, plan_parts, reported_size,
    server_error, use_multipart, BackendError, BackendErrorKind, PartPlan, MAX_PARTS, MULTIPART_THRESHOLD, PART_SIZE,
};
use shadow::model::{BlobKey, ObjectId};

#[test]
fn multipart_starts_at_threshold() {
    assert!(!use_multipart(MULTIPART_THRESHOLD - 1));
    assert!(use_multipart(MULTIPART_THRESHOLD));
    assert_eq!(MULTIPART_THRESHOLD, 64 * 1024 * 1024);
}

#[test]
fn plans_parts_of_sixteen_mebibytes() {
    let size = PART_SIZE * 4 + 10;
    let parts = plan_parts(size);
    assert_eq!(parts.len(), 5);
    assert_eq!(parts[0], PartPlan { number: 1, offset: 0, length: PART_SIZE });
    assert_eq!(parts[4], PartPlan { number: 5, offset: PART_SIZE * 4, length: 10 });
    let mut next = 0;
    for part in &parts {
        assert_eq!(part.offset, next);
        next += part.length;
    }
    assert_eq!(next, size);
}

#[test]
fn plans_exact_multiples_and_huge_objects() {
    let parts = plan_parts(PART_SIZE * 4);
    assert_eq!(parts.len(), 4);
    assert_eq!(parts[3].length, PART_SIZE);
    let huge = PART_SIZE * 20_000;
    let parts = plan_parts(huge);
    assert!(parts.len() as u64 <= MAX_PARTS);
    assert_eq!(parts[0].length, PART_SIZE * 2);
    assert_eq!(parts.iter().map(|p| p.length).sum::<u64>(), huge);
    assert!(plan_parts(0).is_empty());
}

#[test]
fn keys_under_prefix() {
    let oid = ObjectId::from_sha256_hex("a".repeat(64)).unwrap();
    let key = BlobKey::for_object("proj", &oid);
    assert_eq!(normalize_prefix("//shadow/data//"), "shadow/data");
    assert_eq!(normalize_prefix("///"), "");
    assert_eq!(full_key("shadow", &key), format!("shadow/proj/objects/sha256/aa/{}", "a".repeat(62)));
    assert_eq!(full_key("", &key), key.as_str());
}

#[test]
fn maps_statuses_to_error_kinds() {
    assert_eq!(error_kind_for_status(401), BackendErrorKind::Unauthorized);
    assert_eq!(error_kind_for_status(403), BackendErrorKind::Forbidden);
    assert_eq!(error_kind_for_status(404), BackendErrorKind::NotFound);
    assert_eq!(error_kind_for_status(408), BackendErrorKind::Timeout);
    assert_eq!(error_kind_for_status(429), BackendErrorKind::RateLimited);
    assert_eq!(error_kind_for_status(503), BackendErrorKind::Unavailable);
    assert_eq!(error_kind_for_status(400), BackendErrorKind::Other);
    assert!(is_not_found(404));
    assert!(!is_not_found(500));
}

#[test]
fn normalizes_server_errors() {
    let error = server_error(503, "ServiceUnavailable", "req-1", "slow down");
    assert_eq!(error.kind, BackendErrorKind::Unavailable);
    assert_eq!(error.message, "TOS status=503 code=ServiceUnavailable request_id=req-1 message=slow down");
    assert_eq!(error.request_id.as_deref(), Some("req-1"));
    let error = server_error(-1, "x", "", "m");
    assert_eq!(error.message, "TOS status=-1 code=x request_id= message=m");
    let plain = BackendError::new(BackendErrorKind::Unsupported, "no inventory".to_string());
    assert_eq!(plain.kind, BackendErrorKind::Unsupported);
    assert!(plain.request_id.is_none());
}

#[test]
fn reads_sizes_and_headers() {
    assert_eq!(reported_size(-5), 0);
    assert_eq!(reported_size(42), 42);
    assert_eq!(header_value(""), None);
    assert_eq!(header_value("image/png"), Some("image/png".to_string()));
}

#[test]
fn multipart_uploads_parts_in_order_then_completes() {
    let (phase, action) = multipart_step(MultipartPhase::Start, MultipartEvent::Begin, 2);
    assert_eq!(action, MultipartAction::Create);
    let (phase, action) = multipart_step(phase, MultipartEvent::Succeeded, 2);
    assert_eq!(action, MultipartAction::UploadPart { index: 0 });
    let (phase, action) = multipart_step(phase, MultipartEvent::Succeeded, 2);
    assert_eq!(action, MultipartAction::UploadPart { index: 1 });
    let (phase, action) = multipart_step(phase, MultipartEvent::Succeeded, 2);
    assert_eq!(action, MultipartAction::Complete);
    let (phase, action) = multipart_step(phase, MultipartEvent::Succeeded, 2);
    assert_eq!((phase, action), (MultipartPhase::Done, MultipartAction::Finish));
}

#[test]
fn multipart_aborts_when_a_part_fails() {
    let error = BackendError::new(BackendErrorKind::Timeout, "part 2".to_string());
    let (phase, action) =
        multipart_step(MultipartPhase::Uploading { index: 1 }, MultipartEvent::Failed(error.clone()), 3);
    assert_eq!(action, MultipartAction::Abort);
    let (phase, action) = multipart_step(phase, MultipartEvent::Succeeded, 3);
    assert_eq!(phase, MultipartPhase::Failed);
    assert_eq!(action, MultipartAction::Fail(MultipartFailure::Backend(error.clone())));
    let (_, action) = multipart_step(MultipartPhase::Creating, MultipartEvent::Failed(error.clone()), 3);
    assert_eq!(action, MultipartAction::Fail(MultipartFailure::Backend(error)));
}

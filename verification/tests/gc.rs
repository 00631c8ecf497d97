use shadow::gc::deletion_batches;
use shadow::gc::{
    canonical_object_id, classify_object, delete_batches, gc_decision, grace_cutoff, plan_gc, remote_object_sizes,
    retain_unreferenced, Candidate, GcError, GcOutcome, InventoryObject, ObjectClass, ObjectSizes, DELETE_BATCH_SIZE,
};
use shadow::history::ref_blobs;
use shadow::model::{BlobKey, ObjectId};

const NANOS: i128 = 1_000_000_000;

fn oid(c: &str) -> ObjectId {
    ObjectId::from_sha256_hex(c.repeat(64)).unwrap()
}

fn listed(name: &str, o: &ObjectId, size: u64, modified_at: Option<i128>) -> InventoryObject {
    InventoryObject { key: BlobKey::for_object(name, o).as_str().to_string(), size, modified_at }
}

fn referenced(entries: &[(&ObjectId, u64)]) -> ObjectSizes {
    let mut sizes = ObjectSizes::new();
    for (o, size) in entries {
        sizes.record((*o).clone(), *size).unwrap();
    }
    sizes
}

#[test]
fn scans_ref_versions_from_reachable_git_history() {
    let first = oid("a");
    let second = oid("b");
    let mut out = Vec::new();
    for record in [
        "1111111111111111111111111111111111111111".as_bytes(),
        "2222222222222222222222222222222222222222 .shadow".as_bytes(),
        "3333333333333333333333333333333333333333 .shadow/refs".as_bytes(),
        "4444444444444444444444444444444444444444 .shadow/refs/a.bin.ref".as_bytes(),
        "5555555555555555555555555555555555555555".as_bytes(),
        "6666666666666666666666666666666666666666 .shadow/refs/a.bin.ref".as_bytes(),
        "4444444444444444444444444444444444444444 .shadow/refs/a.bin.ref".as_bytes(),
    ] {
        out.extend_from_slice(record);
        out.push(0);
    }
    let blobs = ref_blobs(&out).unwrap();
    assert_eq!(
        blobs,
        vec![
            ("4444444444444444444444444444444444444444".to_string(), ".shadow/refs/a.bin.ref".to_string()),
            ("6666666666666666666666666666666666666666".to_string(), ".shadow/refs/a.bin.ref".to_string()),
        ]
    );
    let contents = [(&blobs[0].0, &first), (&blobs[1].0, &second)];
    let mut sizes = ObjectSizes::new();
    for (_, o) in contents {
        sizes.record((*o).clone(), 1).unwrap();
    }
    assert_eq!(sizes.entries().iter().map(|(o, s)| (o.hex().to_string(), *s)).collect::<Vec<_>>(), vec![
        (first.hex().to_string(), 1),
        (second.hex().to_string(), 1)
    ]);
}

#[test]
fn rev_list_path_records_and_errors() {
    let mut out = Vec::new();
    out.extend_from_slice(b"abcdefabcdefabcdefabcdefabcdefabcdefabcd");
    out.push(0);
    out.extend_from_slice(b"path=.shadow/refs/x.ref");
    out.push(0);
    let blobs = ref_blobs(&out).unwrap();
    assert_eq!(blobs, vec![("abcdefabcdefabcdefabcdefabcdefabcdefabcd".to_string(), ".shadow/refs/x.ref".to_string())]);
    assert_eq!(ref_blobs(b".shadow/refs/x.ref"), Err(GcError::RefPathWithoutObjectId));
    let mut bad = vec![0xffu8, 0xfe];
    bad.extend_from_slice(b" .shadow/refs/x.ref");
    assert_eq!(ref_blobs(&bad), Err(GcError::NonUtf8ObjectId));
    assert_eq!(ref_blobs(b"").unwrap(), vec![]);
    assert_eq!(ref_blobs(b"1234 docs/readme.md\0").unwrap(), vec![]);
}

#[test]
fn disagreeing_refs_are_an_error() {
    let mut sizes = ObjectSizes::new();
    assert_eq!(sizes.record(oid("a"), 1), Ok(()));
    assert_eq!(sizes.record(oid("a"), 1), Ok(()));
    assert_eq!(
        sizes.record(oid("a"), 2),
        Err(GcError::SizeDisagreement { oid: oid("a"), first: 1, second: 2 })
    );
    assert_eq!(sizes.find(&oid("a")), Some(1));
    assert_eq!(sizes.find(&oid("b")), None);
}

#[test]
fn reads_only_canonical_keys() {
    let a = oid("a");
    let key = BlobKey::for_object("proj", &a);
    assert_eq!(canonical_object_id("proj", key.as_str()), Some(a.clone()));
    assert_eq!(canonical_object_id("other", key.as_str()), None);
    let upper = key.as_str().replace("aaaa", "AAAA");
    assert_eq!(canonical_object_id("proj", &upper), None);
    assert_eq!(canonical_object_id("proj", &format!("{}x", key.as_str())), None);
    assert_eq!(canonical_object_id("proj", "proj/objects/sha256/aa"), None);
}

#[test]
fn computes_grace_cutoff() {
    let now = 1_700_000_000 * NANOS;
    assert_eq!(grace_cutoff(now, 0), Ok(now));
    assert_eq!(grace_cutoff(now, 30), Ok(now - 30 * 86_400 * NANOS));
    assert_eq!(grace_cutoff(now, u64::MAX), Err(GcError::GraceTooLarge));
    assert_eq!(grace_cutoff(now, u64::MAX / 86_400), Err(GcError::GracePredatesClock));
}

#[test]
fn classifies_remote_objects() {
    let a = oid("a");
    let b = oid("b");
    let refs = referenced(&[(&a, 1)]);
    let cutoff = 100;
    assert!(matches!(classify_object("p", &listed("p", &a, 1, Some(0)), &refs, cutoff), ObjectClass::Referenced));
    assert!(matches!(classify_object("p", &listed("p", &b, 1, Some(101)), &refs, cutoff), ObjectClass::Recent));
    assert!(matches!(classify_object("p", &listed("p", &b, 1, None), &refs, cutoff), ObjectClass::MissingTime));
    assert!(matches!(classify_object("q", &listed("p", &b, 1, Some(0)), &refs, cutoff), ObjectClass::Unknown));
    match classify_object("p", &listed("p", &b, 9, Some(100)), &refs, cutoff) {
        ObjectClass::Candidate(c) => {
            assert_eq!(c.oid, b);
            assert_eq!(c.size, 9);
            assert_eq!(c.key.as_str(), BlobKey::for_object("p", &b).as_str());
        }
        _ => panic!("expected a candidate"),
    }
}

#[test]
fn dry_run_keeps_and_delete_removes_only_unreferenced_objects() {
    let used = oid("a");
    let unused = oid("b");
    let refs = referenced(&[(&used, 1)]);
    let remote = vec![listed("test", &used, 1, Some(0)), listed("test", &unused, 1, Some(0))];
    let plan = plan_gc("test", &refs, &remote, 1);
    assert!(plan.missing_remote.is_empty());
    assert!(plan.invalid_remote.is_empty());
    assert_eq!(plan.candidates.len(), 1);
    assert_eq!(plan.candidates[0].oid, unused);
    assert_eq!(gc_decision(&plan, false), GcOutcome::DryRun);
    assert_eq!(gc_decision(&plan, true), GcOutcome::Delete);
    let kept = retain_unreferenced(&plan.candidates, &refs);
    assert_eq!(kept.len(), 1);
    let now_referenced = referenced(&[(&used, 1), (&unused, 1)]);
    assert!(retain_unreferenced(&plan.candidates, &now_referenced).is_empty());
}

#[test]
fn refuses_deletion_when_a_committed_ref_is_missing_remotely() {
    let used = oid("a");
    let unused = oid("b");
    let refs = referenced(&[(&used, 1)]);
    let remote = vec![listed("test", &unused, 1, Some(0))];
    let plan = plan_gc("test", &refs, &remote, 1);
    assert_eq!(plan.missing_remote, vec![used.clone()]);
    assert_eq!(gc_decision(&plan, true), GcOutcome::Refuse { problems: 1 });
    let wrong_size = vec![listed("test", &used, 2, Some(0))];
    let plan = plan_gc("test", &refs, &wrong_size, 1);
    assert_eq!(plan.invalid_remote, vec![(used, 1, 2)]);
    assert_eq!(gc_decision(&plan, true), GcOutcome::Refuse { problems: 1 });
}

#[test]
fn plan_counts_and_orders() {
    let refs = ObjectSizes::new();
    let c = oid("c");
    let b = oid("b");
    let remote = vec![
        listed("p", &c, 3, Some(0)),
        listed("p", &b, 2, Some(0)),
        listed("p", &oid("d"), 1, Some(500)),
        listed("p", &oid("e"), 1, None),
        InventoryObject { key: "p/readme".to_string(), size: 1, modified_at: Some(0) },
    ];
    let plan = plan_gc("p", &refs, &remote, 10);
    assert_eq!(plan.candidates.iter().map(|x| x.oid.clone()).collect::<Vec<_>>(), vec![b, c]);
    assert_eq!((plan.recent, plan.missing_time, plan.unknown), (1, 1, 1));
    assert_eq!(gc_decision(&plan_gc("p", &refs, &vec![], 10), true), GcOutcome::NothingToDelete);
    let sizes = remote_object_sizes("p", &vec![listed("p", &oid("c"), 3, None), listed("p", &oid("c"), 4, None)]);
    assert_eq!(sizes.find(&oid("c")), Some(4));
}

#[test]
fn batches_deletions_by_thousand() {
    let one = oid("a");
    let candidates: Vec<Candidate> = (0..2500)
        .map(|i| Candidate { key: BlobKey(format!("k{i}")), oid: one.clone(), size: i as u64 })
        .collect();
    let batches = delete_batches(&candidates);
    assert_eq!(batches.len(), 3);
    assert_eq!(batches[0].len(), DELETE_BATCH_SIZE);
    assert_eq!(batches[2].len(), 500);
    assert_eq!(batches[1][0].size, 1000);
    assert!(delete_batches(&vec![]).is_empty());
}

#[test]
fn deletion_batches_skip_objects_referenced_again() {
    let used = oid("a");
    let unused = oid("b");
    let late = oid("c");
    let refs = referenced(&[(&used, 1)]);
    let remote = vec![listed("test", &used, 1, Some(0)), listed("test", &unused, 1, Some(0)), listed("test", &late, 1, Some(0))];
    let plan = plan_gc("test", &refs, &remote, 1);
    assert_eq!(plan.candidates.len(), 2);
    let fresh = referenced(&[(&used, 1), (&late, 1)]);
    let batches = deletion_batches(&plan, &fresh);
    assert_eq!(batches.len(), 1);
    assert_eq!(batches[0].len(), 1);
    assert_eq!(batches[0][0].oid, unused);
    let all_referenced = referenced(&[(&used, 1), (&late, 1), (&unused, 1)]);
    assert!(deletion_batches(&plan, &all_referenced).is_empty());
}

//! The decisions of `publish`: content type consistency, what to do with
//! each remote object, and when a ref may be written.

use vstd::prelude::*;
use crate::model::{BlobMetadata, ObjectId, UploadOptions, opt_text};
use crate::text::{copy_str, same_text};

verus! {

/// Why publishing one file failed.
#[derive(Debug, Clone, PartialEq, Eq)]
pub enum PublishFailure {
    /// The same content was detected with two different content types.
    ConflictingContentTypes { oid: ObjectId, existing: String, existing_path: String, content_type: String, path: String },
    /// The remote object exists with another size.
    RemoteSizeMismatch { found: u64, expected: u64 },
    /// After publishing, the object is not visible remotely.
    NotVisible,
    /// After publishing, the remote size differs from the ref.
    VerifiedSizeMismatch,
    /// After publishing, the remote content type differs.
    VerifiedContentTypeMismatch,
    /// After publishing, the remote cache control differs.
    VerifiedCacheControlMismatch,
    /// The backend or the file system failed.
    Io(String),
    /// An event arrived that the current step does not expect.
    UnexpectedEvent,
}

/// Whether remote metadata carries exactly the content type and cache
/// control to publish with.
pub open spec fn metadata_current(m: BlobMetadata, o: UploadOptions) -> bool {
    opt_text(m.content_type) == Some(o.content_type@) && opt_text(m.cache_control) == Some(o.cache_control@)
}

/// What verifying a published object finds.
pub open spec fn verify_outcome(stat: Option<BlobMetadata>, size: u64, o: UploadOptions) -> Result<(), PublishFailure> {
    match stat {
        None => Err(PublishFailure::NotVisible),
        Some(m) => if m.size != size {
            Err(PublishFailure::VerifiedSizeMismatch)
        } else if opt_text(m.content_type) != Some(o.content_type@) {
            Err(PublishFailure::VerifiedContentTypeMismatch)
        } else if opt_text(m.cache_control) != Some(o.cache_control@) {
            Err(PublishFailure::VerifiedCacheControlMismatch)
        } else {
            Ok(())
        },
    }
}

fn opt_is(o: &Option<String>, expected: &String) -> (r: bool)
    ensures
        r == (opt_text(*o) == Some(expected@)),
{
    match o {
        Some(v) => same_text(v.as_str(), expected.as_str()),
        None => false,
    }
}

/// Checks that a published object is visible with the ref's size and the
/// expected metadata.
pub fn verify_remote(stat: Option<&BlobMetadata>, size: u64, options: &UploadOptions) -> (r: Result<(), PublishFailure>)
    ensures
        r == verify_outcome(
            match stat {
                Some(m) => Some(*m),
                None => None,
            },
            size,
            *options,
        ),
{
    match stat {
        None => Err(PublishFailure::NotVisible),
        Some(metadata) => {
            if metadata.size != size {
                Err(PublishFailure::VerifiedSizeMismatch)
            } else if !opt_is(&metadata.content_type, &options.content_type) {
                Err(PublishFailure::VerifiedContentTypeMismatch)
            } else if !opt_is(&metadata.cache_control, &options.cache_control) {
                Err(PublishFailure::VerifiedCacheControlMismatch)
            } else {
                Ok(())
            }
        },
    }
}

/// Where publishing one file stands.
#[derive(Clone, Copy, Debug, Eq, PartialEq, Structural)]
pub enum PublishPhase {
    /// Nothing done yet.
    Start,
    /// Waiting for the first look at the remote object.
    Inspecting,
    /// Waiting for the remote metadata to be repaired.
    UpdatingMetadata,
    /// Waiting for the upload to finish.
    Uploading,
    /// Waiting for the second look at the remote object.
    Verifying,
    /// Waiting for the ref to be written.
    WritingRef,
    /// The ref is written.
    Published,
    /// Publishing this file failed.
    Failed,
}

/// What happened since the last step.
#[derive(Debug, Clone, PartialEq, Eq)]
pub enum PublishEvent {
    /// Publishing starts.
    Begin,
    /// The backend reported the object's metadata, or that it is absent.
    Stat(Option<BlobMetadata>),
    /// The requested operation completed.
    Completed,
    /// The requested operation failed.
    Error(String),
}

/// What to do next.
#[derive(Debug, Clone, PartialEq, Eq)]
pub enum PublishAction {
    /// Look up the remote object's metadata.
    Stat,
    /// Replace the remote object's metadata with the upload options.
    UpdateMetadata,
    /// Upload the cached object with the upload options.
    Upload,
    /// Write the ref atomically.
    WriteRef,
    /// The file is published.
    Finish,
    /// The file could not be published.
    Fail(PublishFailure),
}

/// One step of publishing a file whose ref records `size` bytes, with
/// `options` as the metadata its object must carry.
pub open spec fn spec_publish_step(phase: PublishPhase, event: PublishEvent, size: u64, o: UploadOptions) -> (PublishPhase, PublishAction) {
    match event {
        PublishEvent::Error(message) => (PublishPhase::Failed, PublishAction::Fail(PublishFailure::Io(message))),
        PublishEvent::Begin => if phase == PublishPhase::Start {
            (PublishPhase::Inspecting, PublishAction::Stat)
        } else {
            (PublishPhase::Failed, PublishAction::Fail(PublishFailure::UnexpectedEvent))
        },
        PublishEvent::Stat(stat) => if phase == PublishPhase::Inspecting {
            match stat {
                None => (PublishPhase::Uploading, PublishAction::Upload),
                Some(m) => if m.size != size {
                    (PublishPhase::Failed, PublishAction::Fail(PublishFailure::RemoteSizeMismatch { found: m.size, expected: size }))
                } else if metadata_current(m, o) {
                    (PublishPhase::WritingRef, PublishAction::WriteRef)
                } else {
                    (PublishPhase::UpdatingMetadata, PublishAction::UpdateMetadata)
                },
            }
        } else if phase == PublishPhase::Verifying {
            match verify_outcome(stat, size, o) {
                Ok(()) => (PublishPhase::WritingRef, PublishAction::WriteRef),
                Err(f) => (PublishPhase::Failed, PublishAction::Fail(f)),
            }
        } else {
            (PublishPhase::Failed, PublishAction::Fail(PublishFailure::UnexpectedEvent))
        },
        PublishEvent::Completed => if phase == PublishPhase::UpdatingMetadata || phase == PublishPhase::Uploading {
            (PublishPhase::Verifying, PublishAction::Stat)
        } else if phase == PublishPhase::WritingRef {
            (PublishPhase::Published, PublishAction::Finish)
        } else {
            (PublishPhase::Failed, PublishAction::Fail(PublishFailure::UnexpectedEvent))
        },
    }
}

/// Advances the publication of one file: look at the remote object; upload
/// it when absent, repair its metadata when stale, refuse it when its size
/// differs; verify it after any change; and only then write the ref.
pub fn publish_step(phase: PublishPhase, event: PublishEvent, size: u64, options: &UploadOptions) -> (r: (PublishPhase, PublishAction))
    ensures
        r == spec_publish_step(phase, event, size, *options),
{
    match event {
        PublishEvent::Error(message) => (PublishPhase::Failed, PublishAction::Fail(PublishFailure::Io(message))),
        PublishEvent::Begin => if phase == PublishPhase::Start {
            (PublishPhase::Inspecting, PublishAction::Stat)
        } else {
            (PublishPhase::Failed, PublishAction::Fail(PublishFailure::UnexpectedEvent))
        },
        PublishEvent::Stat(stat) => if phase == PublishPhase::Inspecting {
            match stat {
                None => (PublishPhase::Uploading, PublishAction::Upload),
                Some(m) => if m.size != size {
                    (PublishPhase::Failed, PublishAction::Fail(PublishFailure::RemoteSizeMismatch { found: m.size, expected: size }))
                } else if opt_is(&m.content_type, &options.content_type) && opt_is(&m.cache_control, &options.cache_control) {
                    (PublishPhase::WritingRef, PublishAction::WriteRef)
                } else {
                    (PublishPhase::UpdatingMetadata, PublishAction::UpdateMetadata)
                },
            }
        } else if phase == PublishPhase::Verifying {
            let checked = match &stat {
                Some(m) => verify_remote(Some(m), size, options),
                None => verify_remote(None, size, options),
            };
            match checked {
                Ok(()) => (PublishPhase::WritingRef, PublishAction::WriteRef),
                Err(f) => (PublishPhase::Failed, PublishAction::Fail(f)),
            }
        } else {
            (PublishPhase::Failed, PublishAction::Fail(PublishFailure::UnexpectedEvent))
        },
        PublishEvent::Completed => if phase == PublishPhase::UpdatingMetadata || phase == PublishPhase::Uploading {
            (PublishPhase::Verifying, PublishAction::Stat)
        } else if phase == PublishPhase::WritingRef {
            (PublishPhase::Published, PublishAction::Finish)
        } else {
            (PublishPhase::Failed, PublishAction::Fail(PublishFailure::UnexpectedEvent))
        },
    }
}

/// Safety of publishing: a ref is written only right after the backend
/// reported the object with the ref's size, the expected content type and
/// the expected cache control.
pub proof fn law_ref_written_only_when_confirmed(phase: PublishPhase, event: PublishEvent, size: u64, o: UploadOptions)
    requires
        spec_publish_step(phase, event, size, o).1 == PublishAction::WriteRef,
    ensures
        event matches PublishEvent::Stat(Some(m)) && m.size == size && metadata_current(m, o),
{
}

/// Deduplication: content is uploaded only when the backend reported that
/// no object exists under its key.
pub proof fn law_upload_only_when_absent(phase: PublishPhase, event: PublishEvent, size: u64, o: UploadOptions)
    requires
        spec_publish_step(phase, event, size, o).1 == PublishAction::Upload,
    ensures
        phase == PublishPhase::Inspecting,
        event == PublishEvent::Stat(None),
{
}

/// A remote object of another size ends publishing at once: nothing is
/// uploaded, no metadata is changed and no ref is written for it.
pub proof fn law_size_mismatch_fails(m: BlobMetadata, size: u64, o: UploadOptions)
    requires
        m.size != size,
    ensures
        spec_publish_step(PublishPhase::Inspecting, PublishEvent::Stat(Some(m)), size, o)
            == (PublishPhase::Failed, PublishAction::Fail(PublishFailure::RemoteSizeMismatch { found: m.size, expected: size })),
{
}

/// Content types declared so far for each object, with the path that
/// declared them.
pub struct DeclaredTypes {
    entries: Vec<(ObjectId, String, String)>,
}

impl View for DeclaredTypes {
    type V = Map<Seq<char>, (Seq<char>, Seq<char>)>;

    closed spec fn view(&self) -> Map<Seq<char>, (Seq<char>, Seq<char>)> {
        Map::new(
            |k: Seq<char>| exists|i: int| 0 <= i < self.entries@.len() && #[trigger] self.entries@[i].0@ == k,
            |k: Seq<char>| {
                let i = choose|i: int| 0 <= i < self.entries@.len() && #[trigger] self.entries@[i].0@ == k;
                (self.entries@[i].1@, self.entries@[i].2@)
            },
        )
    }
}

impl DeclaredTypes {
    /// No object is declared twice.
    pub closed spec fn wf(&self) -> bool {
        forall|i: int, j: int|
            0 <= i < self.entries@.len() && 0 <= j < self.entries@.len() && i != j ==> #[trigger] self.entries@[i].0@
                != #[trigger] self.entries@[j].0@
    }

    /// Nothing declared.
    pub fn new() -> (d: DeclaredTypes)
        ensures
            d.wf(),
            d@ == Map::<Seq<char>, (Seq<char>, Seq<char>)>::empty(),
    {
        let d = DeclaredTypes { entries: Vec::new() };
        assert(d@ =~= Map::<Seq<char>, (Seq<char>, Seq<char>)>::empty());
        d
    }
}

/// Records that `path` holds object `oid` with `content_type`. The same
/// content must always be published with one content type: a second path
/// with a different type for the same object is refused.
pub fn register_content_type(declared: &mut DeclaredTypes, oid: &ObjectId, content_type: &str, path: &str) -> (r: Result<(), PublishFailure>)
    requires
        old(declared).wf(),
    ensures
        final(declared).wf(),
        old(declared)@.contains_key(oid@) ==> final(declared)@ == old(declared)@,
        old(declared)@.contains_key(oid@) ==> (r is Ok <==> old(declared)@[oid@].0 == content_type@),
        old(declared)@.contains_key(oid@) && r is Err ==> (r matches Err(PublishFailure::ConflictingContentTypes { oid: o, existing, existing_path, content_type: t, path: p })
            && o@ == oid@ && existing@ == old(declared)@[oid@].0 && existing_path@ == old(declared)@[oid@].1
            && t@ == content_type@ && p@ == path@),
        !old(declared)@.contains_key(oid@) ==> r is Ok && final(declared)@ == old(declared)@.insert(oid@, (content_type@, path@)),
{
    let n = declared.entries.len();
    for i in 0..n
        invariant
            n == declared.entries@.len(),
            declared.wf(),
            *declared == *old(declared),
            forall|j: int| 0 <= j < i ==> declared.entries@[j].0@ != oid@,
    {
        if declared.entries[i].0.same_as(oid) {
            proof {
                let m = declared@;
                assert(m.contains_key(oid@));
                let k = choose|k: int| 0 <= k < declared.entries@.len() && #[trigger] declared.entries@[k].0@ == oid@;
                assert(k == i as int);
            }
            if same_text(declared.entries[i].1.as_str(), content_type) {
                return Ok(());
            }
            return Err(PublishFailure::ConflictingContentTypes {
                oid: oid.duplicate(),
                existing: copy_str(declared.entries[i].1.as_str()),
                existing_path: copy_str(declared.entries[i].2.as_str()),
                content_type: copy_str(content_type),
                path: copy_str(path),
            });
        }
    }
    let ghost before = declared@;
    let ghost old_entries = declared.entries@;
    assert(!before.contains_key(oid@));
    declared.entries.push((oid.duplicate(), copy_str(content_type), copy_str(path)));
    proof {
        let e = declared.entries@;
        assert forall|k: Seq<char>| #[trigger] declared@.contains_key(k) == before.insert(oid@, (content_type@, path@)).contains_key(k) by {
            if k == oid@ {
                assert(e[n as int].0@ == k);
            } else if before.contains_key(k) {
                let j = choose|j: int| 0 <= j < old_entries.len() && #[trigger] old_entries[j].0@ == k;
                assert(e[j].0@ == k);
            }
        }
        assert forall|k: Seq<char>| #[trigger] declared@.contains_key(k) implies declared@[k] == before.insert(oid@, (content_type@, path@))[k] by {
            let i = choose|i: int| 0 <= i < e.len() && #[trigger] e[i].0@ == k;
            if k == oid@ {
                assert(i == n as int);
            } else {
                let j = choose|j: int| 0 <= j < old_entries.len() && #[trigger] old_entries[j].0@ == k;
                assert(i == j);
            }
        }
        assert(declared@ =~= before.insert(oid@, (content_type@, path@)));
    }
    Ok(())
}

} // verus!

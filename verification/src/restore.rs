//! The decisions of `restore`: refs are authoritative, modified files are
//! only replaced on request, and only verified content reaches the
//! worktree.

use vstd::prelude::*;
use crate::model::{ObjectId, ShadowRef};

verus! {

/// Why restoring one file failed.
#[derive(Debug, Clone, PartialEq, Eq)]
pub enum RestoreFailure {
    /// The ref's path is no longer managed by the rules.
    Orphaned,
    /// The worktree file differs from the ref and replacing was not forced.
    WorktreeDiffers,
    /// The downloaded object's digest or size differs from the ref.
    DownloadMismatch,
    /// The backend or the file system failed.
    Io(String),
    /// An event arrived that the current step does not expect.
    UnexpectedEvent,
}

/// Where restoring one file stands; `replace` records whether a worktree
/// file will be replaced.
#[derive(Clone, Copy, Debug, Eq, PartialEq, Structural)]
pub enum RestorePhase {
    /// Nothing done yet.
    Start,
    /// Waiting for the worktree file's digest (or its absence).
    CheckingWorktree,
    /// Waiting for the cached object's digest (or its absence).
    CheckingCache { replace: bool },
    /// Waiting for the download into a temporary file.
    Downloading { replace: bool },
    /// Waiting for the download to be moved into the cache.
    Promoting { replace: bool },
    /// Waiting for the worktree file to be written from the cache.
    Materializing { replace: bool },
    /// The worktree file already matched the ref.
    Present,
    /// The worktree file was written.
    Restored,
    /// Restoring this file failed.
    Failed,
}

/// What happened since the last step; digests are an object ID and a size.
#[derive(Debug, Clone, PartialEq, Eq)]
pub enum RestoreEvent {
    /// Restoring starts; `managed` tells whether the rules manage the path.
    Begin { managed: bool },
    /// The worktree file's digest, or none when there is no file.
    Worktree(Option<(ObjectId, u64)>),
    /// The cached object's digest, or none when it is not cached.
    Cache(Option<(ObjectId, u64)>),
    /// The digest of the downloaded temporary file.
    Downloaded(ObjectId, u64),
    /// The requested operation completed.
    Completed,
    /// The requested operation failed.
    Error(String),
}

/// What to do next.
#[derive(Debug, Clone, PartialEq, Eq)]
pub enum RestoreAction {
    /// Hash the worktree file, if it exists.
    HashWorktree,
    /// Hash the cached object, if it is cached.
    CheckCache,
    /// Drop any stale cache file and download the object to a temporary file.
    Download,
    /// Move the verified download into the cache.
    Promote,
    /// Copy the cached object into the worktree, replacing an existing file
    /// only when `replace`.
    Materialize { replace: bool },
    /// The file is in place.
    Finish,
    /// The file could not be restored.
    Fail(RestoreFailure),
}

/// Whether a digest is the ref's.
pub open spec fn matches_ref(oid: ObjectId, size: u64, r: ShadowRef) -> bool {
    oid@ == r.oid@ && size == r.size
}

/// One step of restoring the file of ref `r`.
pub open spec fn spec_restore_step(phase: RestorePhase, event: RestoreEvent, r: ShadowRef, force: bool) -> (RestorePhase, RestoreAction) {
    let unexpected = (RestorePhase::Failed, RestoreAction::Fail(RestoreFailure::UnexpectedEvent));
    match event {
        RestoreEvent::Error(message) => (RestorePhase::Failed, RestoreAction::Fail(RestoreFailure::Io(message))),
        RestoreEvent::Begin { managed } => if phase != RestorePhase::Start {
            unexpected
        } else if !managed {
            (RestorePhase::Failed, RestoreAction::Fail(RestoreFailure::Orphaned))
        } else {
            (RestorePhase::CheckingWorktree, RestoreAction::HashWorktree)
        },
        RestoreEvent::Worktree(digest) => if phase != RestorePhase::CheckingWorktree {
            unexpected
        } else {
            match digest {
                None => (RestorePhase::CheckingCache { replace: false }, RestoreAction::CheckCache),
                Some((oid, size)) => if matches_ref(oid, size, r) {
                    (RestorePhase::Present, RestoreAction::Finish)
                } else if !force {
                    (RestorePhase::Failed, RestoreAction::Fail(RestoreFailure::WorktreeDiffers))
                } else {
                    (RestorePhase::CheckingCache { replace: true }, RestoreAction::CheckCache)
                },
            }
        },
        RestoreEvent::Cache(digest) => match phase {
            RestorePhase::CheckingCache { replace } => match digest {
                Some((oid, size)) => if matches_ref(oid, size, r) {
                    (RestorePhase::Materializing { replace }, RestoreAction::Materialize { replace })
                } else {
                    (RestorePhase::Downloading { replace }, RestoreAction::Download)
                },
                None => (RestorePhase::Downloading { replace }, RestoreAction::Download),
            },
            _ => unexpected,
        },
        RestoreEvent::Downloaded(oid, size) => match phase {
            RestorePhase::Downloading { replace } => if matches_ref(oid, size, r) {
                (RestorePhase::Promoting { replace }, RestoreAction::Promote)
            } else {
                (RestorePhase::Failed, RestoreAction::Fail(RestoreFailure::DownloadMismatch))
            },
            _ => unexpected,
        },
        RestoreEvent::Completed => match phase {
            RestorePhase::Promoting { replace } => (RestorePhase::Materializing { replace }, RestoreAction::Materialize { replace }),
            RestorePhase::Materializing { replace } => (RestorePhase::Restored, RestoreAction::Finish),
            _ => unexpected,
        },
    }
}

fn digest_matches(oid: &ObjectId, size: u64, r: &ShadowRef) -> (b: bool)
    ensures
        b == matches_ref(*oid, size, *r),
{
    oid.same_as(&r.oid) && size == r.size
}

/// Advances the restoration of the file of ref `reference`: an orphaned ref
/// is refused; a matching worktree file is left alone; a differing one is
/// replaced only with `force`; the object comes from the cache when its
/// digest matches, otherwise from a download that must match before it
/// enters the cache; then the worktree file is written from the cache.
pub fn restore_step(phase: RestorePhase, event: RestoreEvent, reference: &ShadowRef, force: bool) -> (out: (RestorePhase, RestoreAction))
    ensures
        out == spec_restore_step(phase, event, *reference, force),
{
    let unexpected = (RestorePhase::Failed, RestoreAction::Fail(RestoreFailure::UnexpectedEvent));
    match event {
        RestoreEvent::Error(message) => (RestorePhase::Failed, RestoreAction::Fail(RestoreFailure::Io(message))),
        RestoreEvent::Begin { managed } => if phase != RestorePhase::Start {
            unexpected
        } else if !managed {
            (RestorePhase::Failed, RestoreAction::Fail(RestoreFailure::Orphaned))
        } else {
            (RestorePhase::CheckingWorktree, RestoreAction::HashWorktree)
        },
        RestoreEvent::Worktree(digest) => if phase != RestorePhase::CheckingWorktree {
            unexpected
        } else {
            match digest {
                None => (RestorePhase::CheckingCache { replace: false }, RestoreAction::CheckCache),
                Some((oid, size)) => if digest_matches(&oid, size, reference) {
                    (RestorePhase::Present, RestoreAction::Finish)
                } else if !force {
                    (RestorePhase::Failed, RestoreAction::Fail(RestoreFailure::WorktreeDiffers))
                } else {
                    (RestorePhase::CheckingCache { replace: true }, RestoreAction::CheckCache)
                },
            }
        },
        RestoreEvent::Cache(digest) => match phase {
            RestorePhase::CheckingCache { replace } => match digest {
                Some((oid, size)) => if digest_matches(&oid, size, reference) {
                    (RestorePhase::Materializing { replace }, RestoreAction::Materialize { replace })
                } else {
                    (RestorePhase::Downloading { replace }, RestoreAction::Download)
                },
                None => (RestorePhase::Downloading { replace }, RestoreAction::Download),
            },
            _ => unexpected,
        },
        RestoreEvent::Downloaded(oid, size) => match phase {
            RestorePhase::Downloading { replace } => if digest_matches(&oid, size, reference) {
                (RestorePhase::Promoting { replace }, RestoreAction::Promote)
            } else {
                (RestorePhase::Failed, RestoreAction::Fail(RestoreFailure::DownloadMismatch))
            },
            _ => unexpected,
        },
        RestoreEvent::Completed => match phase {
            RestorePhase::Promoting { replace } => (RestorePhase::Materializing { replace }, RestoreAction::Materialize { replace }),
            RestorePhase::Materializing { replace: _ } => (RestorePhase::Restored, RestoreAction::Finish),
            _ => unexpected,
        },
    }
}

/// Whether the `replace` flag a phase carries is backed by `force`: a phase
/// may say that the worktree file is to be replaced only when `force` holds.
pub open spec fn replace_justified(phase: RestorePhase, force: bool) -> bool {
    match phase {
        RestorePhase::CheckingCache { replace } => replace ==> force,
        RestorePhase::Downloading { replace } => replace ==> force,
        RestorePhase::Promoting { replace } => replace ==> force,
        RestorePhase::Materializing { replace } => replace ==> force,
        _ => true,
    }
}

/// Restore never replaces a file without `--force`: every step keeps the
/// `replace` flag justified, so a `Materialize { replace: true }` is only
/// ever asked for when `force` is set.
pub proof fn law_replace_requires_force(phase: RestorePhase, event: RestoreEvent, r: ShadowRef, force: bool)
    requires
        replace_justified(phase, force),
    ensures
        replace_justified(spec_restore_step(phase, event, r, force).0, force),
        spec_restore_step(phase, event, r, force).1 == (RestoreAction::Materialize { replace: true }) ==> force,
{
}

/// Only verified content is promoted: the download moves into the cache
/// only right after its digest and size were found equal to the ref's.
pub proof fn law_promote_only_verified(phase: RestorePhase, event: RestoreEvent, r: ShadowRef, force: bool)
    requires
        spec_restore_step(phase, event, r, force).1 == RestoreAction::Promote,
    ensures
        event matches RestoreEvent::Downloaded(oid, size) && matches_ref(oid, size, r),
{
}

/// Only verified content is materialized: the worktree is written only right
/// after the cached object matched the ref, or after a verified download was
/// promoted.
pub proof fn law_materialize_only_verified(phase: RestorePhase, event: RestoreEvent, r: ShadowRef, force: bool)
    requires
        spec_restore_step(phase, event, r, force).1 matches RestoreAction::Materialize { .. },
    ensures
        (event matches RestoreEvent::Cache(Some((oid, size))) && matches_ref(oid, size, r)) || (phase
            matches RestorePhase::Promoting { .. } && event == RestoreEvent::Completed),
{
}

/// The object is downloaded only when neither the worktree file nor the
/// cache holds it: a download is asked for right after the cache was found
/// without the object, and a worktree file that matches the ref ends the
/// restoration at once.
pub proof fn law_download_only_when_needed(phase: RestorePhase, event: RestoreEvent, r: ShadowRef, force: bool)
    ensures
        spec_restore_step(phase, event, r, force).1 == RestoreAction::Download ==> (phase is CheckingCache
            && (event == RestoreEvent::Cache(None) || (event matches RestoreEvent::Cache(Some((oid, size))) && !matches_ref(oid, size, r)))),
        phase == RestorePhase::CheckingWorktree && (event matches RestoreEvent::Worktree(Some((oid, size))) && matches_ref(oid, size, r))
            ==> spec_restore_step(phase, event, r, force) == (RestorePhase::Present, RestoreAction::Finish),
{
}

/// The decision to replace travels with the object: promoting a verified
/// download leads to materializing with the same `replace` flag that the
/// worktree check set, and a completed write ends the restoration.
pub proof fn law_promotion_keeps_replace(replace: bool, r: ShadowRef, force: bool)
    ensures
        spec_restore_step(RestorePhase::Promoting { replace }, RestoreEvent::Completed, r, force) == (
            RestorePhase::Materializing { replace },
            RestoreAction::Materialize { replace },
        ),
        spec_restore_step(RestorePhase::Materializing { replace }, RestoreEvent::Completed, r, force) == (
            RestorePhase::Restored,
            RestoreAction::Finish,
        ),
{
}

/// A file restored from a verified object is written over the existing
/// worktree file exactly when there was one (which, differing from the ref,
/// is only replaced with `force`), whether the object came from the cache
/// or from a download.
pub proof fn law_existing_file_replaced_on_either_path(
    r: ShadowRef,
    force: bool,
    worktree: Option<(ObjectId, u64)>,
    cached: Option<(ObjectId, u64)>,
    downloaded_oid: ObjectId,
    downloaded_size: u64,
)
    requires
        match worktree {
            Some((oid, size)) => force && !matches_ref(oid, size, r),
            None => true,
        },
        matches_ref(downloaded_oid, downloaded_size, r),
    ensures
        ({
            let replace = worktree is Some;
            let (p1, a1) = spec_restore_step(RestorePhase::CheckingWorktree, RestoreEvent::Worktree(worktree), r, force);
            let (p2, a2) = spec_restore_step(p1, RestoreEvent::Cache(cached), r, force);
            let (p3, a3) = spec_restore_step(p2, RestoreEvent::Downloaded(downloaded_oid, downloaded_size), r, force);
            let (p4, a4) = spec_restore_step(p3, RestoreEvent::Completed, r, force);
            &&& a1 == RestoreAction::CheckCache
            &&& if cached matches Some((oid, size)) && matches_ref(oid, size, r) {
                a2 == (RestoreAction::Materialize { replace })
            } else {
                &&& a2 == RestoreAction::Download
                &&& a3 == RestoreAction::Promote
                &&& a4 == (RestoreAction::Materialize { replace })
                &&& spec_restore_step(p4, RestoreEvent::Completed, r, force) == (RestorePhase::Restored, RestoreAction::Finish)
            }
        }),
{
}

/// How a batch of files went.
#[derive(Clone, Copy, Debug, Eq, PartialEq, Structural)]
pub enum BatchOutcome {
    /// There was nothing to do.
    Nothing,
    /// Every file succeeded.
    Succeeded,
    /// This many files failed.
    FailedFiles(usize),
}

/// Summarizes a batch: failures win; otherwise an empty batch did nothing.
pub fn batch_outcome(processed: usize, failed: usize) -> (r: BatchOutcome)
    ensures
        r == if failed > 0 {
            BatchOutcome::FailedFiles(failed)
        } else if processed == 0 {
            BatchOutcome::Nothing
        } else {
            BatchOutcome::Succeeded
        },
{
    if failed > 0 {
        BatchOutcome::FailedFiles(failed)
    } else if processed == 0 {
        BatchOutcome::Nothing
    } else {
        BatchOutcome::Succeeded
    }
}

} // verus!

//! The backend-neutral error model, backend selection, and the decisions
//! of the Volcengine TOS backend (object keys, multipart plans, errors).

use vstd::prelude::*;
use crate::config::{BackendConfig, Config, VOLCENGINE_TOS};
use crate::model::BlobKey;
use crate::text::{chars_of, copy_str, decimal, push_char, push_decimal, push_str, same_text, string_of_range};

verus! {

/// Stable categories of backend failures.
#[derive(Clone, Copy, Debug, Eq, PartialEq, Structural)]
pub enum BackendErrorKind {
    NotFound,
    Unauthorized,
    Forbidden,
    RateLimited,
    Timeout,
    IntegrityMismatch,
    Unavailable,
    Unsupported,
    Other,
}

/// A backend failure, normalized.
#[derive(Debug, Clone, PartialEq, Eq)]
pub struct BackendError {
    pub kind: BackendErrorKind,
    pub message: String,
    pub request_id: Option<String>,
}

impl BackendError {
    /// An error of the given kind with no request ID.
    pub fn new(kind: BackendErrorKind, message: String) -> (e: BackendError)
        ensures
            e.kind == kind,
            e.message == message,
            e.request_id is None,
    {
        BackendError { kind, message, request_id: None }
    }
}

impl BackendConfig {
    /// A copy of these settings.
    pub fn duplicate(&self) -> (r: BackendConfig)
        ensures
            r == *self,
    {
        BackendConfig {
            kind: self.kind.clone(),
            endpoint: self.endpoint.clone(),
            region: self.region.clone(),
            bucket: self.bucket.clone(),
            prefix: self.prefix.clone(),
        }
    }
}

/// Why no backend could be opened.
#[derive(Debug, Clone, PartialEq, Eq)]
pub enum OpenError {
    /// `shadow.toml` has no `[backend]` table.
    NotConfigured,
    /// The backend type is not supported.
    UnsupportedBackend(String),
}

/// Chooses the backend described by the configuration: the TOS settings
/// when the backend type is `volcengine_tos`.
pub fn open(config: &Config) -> (r: Result<BackendConfig, OpenError>)
    ensures
        match config.backend {
            None => r == Err::<BackendConfig, OpenError>(OpenError::NotConfigured),
            Some(b) => if b.kind@ == VOLCENGINE_TOS@ {
                r matches Ok(c) && c == b
            } else {
                r matches Err(OpenError::UnsupportedBackend(k)) && k@ == b.kind@
            },
        },
{
    match &config.backend {
        None => Err(OpenError::NotConfigured),
        Some(backend) => {
            if same_text(backend.kind.as_str(), VOLCENGINE_TOS) {
                Ok(backend.duplicate())
            } else {
                Err(OpenError::UnsupportedBackend(copy_str(backend.kind.as_str())))
            }
        },
    }
}

/// Objects at least this large are uploaded in parts.
pub const MULTIPART_THRESHOLD: u64 = 67108864;

/// The smallest part of a multipart upload.
pub const PART_SIZE: u64 = 16777216;

/// TOS accepts at most this many parts in one upload.
pub const MAX_PARTS: u64 = 10000;

/// Whether an object of `size` bytes is uploaded in parts.
pub fn use_multipart(size: u64) -> (r: bool)
    ensures
        r == (size >= MULTIPART_THRESHOLD),
{
    size >= MULTIPART_THRESHOLD
}

/// The part size for an object of `size` bytes: 16 MiB, or more when that
/// would need more than 10 000 parts.
pub open spec fn part_size_for(size: u64) -> u64 {
    let needed: int = if size % MAX_PARTS == 0 { (size / MAX_PARTS) as int } else { size / MAX_PARTS + 1 };
    if needed > PART_SIZE { needed as u64 } else { PART_SIZE }
}

/// One part of a multipart upload: its number (from 1) and byte range.
#[derive(Clone, Copy, Debug, Eq, PartialEq, Structural)]
pub struct PartPlan {
    pub number: u64,
    pub offset: u64,
    pub length: u64,
}

/// The number of parts of `part_size` bytes needed for `size` bytes.
pub open spec fn part_count(size: nat, part_size: nat) -> nat {
    if size % part_size == 0 { size / part_size } else { size / part_size + 1 }
}

/// Part `i` of an upload of `size` bytes in parts of `part_size` bytes:
/// number `i + 1`, starting at `i * part_size`, full length except the last.
pub open spec fn part_at(i: nat, size: nat, part_size: nat) -> PartPlan {
    let offset = i * part_size;
    PartPlan {
        number: (i + 1) as u64,
        offset: offset as u64,
        length: (if part_size <= size - offset { part_size as int } else { size - offset }) as u64,
    }
}

proof fn lemma_part_count(size: nat, part_size: nat)
    requires
        part_size > 0,
    ensures
        part_count(size, part_size) * part_size >= size,
        part_count(size, part_size) > 0 ==> (part_count(size, part_size) - 1) * part_size < size,
        size > 0 ==> part_count(size, part_size) > 0,
{
    let q = size / part_size;
    let r = size % part_size;
    vstd::arithmetic::div_mod::lemma_fundamental_div_mod(size as int, part_size as int);
    assert(size == q * part_size + r);
    if r == 0 {
        assert((q - 1) * part_size == q * part_size - part_size) by (nonlinear_arith);
    } else {
        assert((q + 1) * part_size == q * part_size + part_size) by (nonlinear_arith);
    }
}

/// A multipart upload never needs more than 10 000 parts.
pub proof fn law_part_count_within_limit(size: u64)
    ensures
        part_size_for(size) > 0,
        part_count(size as nat, part_size_for(size) as nat) <= MAX_PARTS,
{
    let ps = part_size_for(size) as nat;
    lemma_part_count(size as nat, MAX_PARTS as nat);
    let needed = part_count(size as nat, MAX_PARTS as nat);
    assert(ps >= needed);
    assert(ps * MAX_PARTS >= size) by (nonlinear_arith)
        requires
            ps >= needed,
            needed * MAX_PARTS >= size,
    ;
    lemma_part_count(size as nat, ps);
    let n = part_count(size as nat, ps);
    if n > MAX_PARTS {
        assert((n - 1) * ps >= MAX_PARTS * ps) by (nonlinear_arith)
            requires
                n - 1 >= MAX_PARTS,
        ;
    }
}

/// Consecutive parts touch, and the last one ends at the end of the object.
pub proof fn law_parts_tile(size: u64, i: nat)
    requires
        size > 0,
        i < part_count(size as nat, part_size_for(size) as nat),
    ensures
        part_at(i, size as nat, part_size_for(size) as nat).length > 0,
        i + 1 < part_count(size as nat, part_size_for(size) as nat) ==> part_at(i + 1, size as nat, part_size_for(size) as nat).offset
            == part_at(i, size as nat, part_size_for(size) as nat).offset + part_at(i, size as nat, part_size_for(size) as nat).length,
        i + 1 == part_count(size as nat, part_size_for(size) as nat) ==> part_at(i, size as nat, part_size_for(size) as nat).offset
            + part_at(i, size as nat, part_size_for(size) as nat).length == size,
{
    let ps = part_size_for(size) as nat;
    let n = part_count(size as nat, ps);
    lemma_part_count(size as nat, ps);
    assert(i * ps <= (n - 1) * ps) by (nonlinear_arith)
        requires
            i <= n - 1,
    ;
    assert((i + 1) * ps == i * ps + ps) by (nonlinear_arith);
    if i + 1 < n {
        assert((i + 1) * ps <= (n - 1) * ps) by (nonlinear_arith)
            requires
                i + 1 <= n - 1,
        ;
    } else {
        assert(n * ps == (n - 1) * ps + ps) by (nonlinear_arith);
    }
}

/// Plans the parts of a multipart upload of `size` bytes: consecutive
/// ranges of `part_size_for(size)` bytes covering the object.
pub fn plan_parts(size: u64) -> (parts: Vec<PartPlan>)
    ensures
        parts@.len() == part_count(size as nat, part_size_for(size) as nat),
        forall|i: int| 0 <= i < parts@.len() ==> #[trigger] parts@[i] == part_at(i as nat, size as nat, part_size_for(size) as nat),
{
    let needed = if size % MAX_PARTS == 0 { size / MAX_PARTS } else { size / MAX_PARTS + 1 };
    let part_size = if needed > PART_SIZE { needed } else { PART_SIZE };
    assert(size / part_size < 0xffff_ffff_ffff_ffffu64) by (nonlinear_arith)
        requires
            part_size >= 2,
    ;
    let count = if size % part_size == 0 { size / part_size } else { size / part_size + 1 };
    proof {
        lemma_part_count(size as nat, part_size as nat);
    }
    let mut parts: Vec<PartPlan> = Vec::new();
    let mut i: u64 = 0;
    while i < count
        invariant
            part_size == part_size_for(size),
            part_size > 0,
            count == part_count(size as nat, part_size as nat),
            count > 0 ==> (count - 1) * part_size < size,
            i <= count,
            parts@.len() == i,
            forall|j: int| 0 <= j < i ==> #[trigger] parts@[j] == part_at(j as nat, size as nat, part_size as nat),
        decreases count - i,
    {
        assert(i * part_size < size) by (nonlinear_arith)
            requires
                i <= count - 1,
                (count - 1) * part_size < size,
                part_size > 0,
        ;
        let offset = i * part_size;
        let length = if part_size <= size - offset { part_size } else { size - offset };
        parts.push(PartPlan { number: i + 1, offset, length });
        i = i + 1;
    }
    parts
}

/// `s` without leading or trailing `/` (`str::trim_matches('/')`).
pub open spec fn trim_slashes(s: Seq<char>) -> Seq<char>
    decreases s.len(),
{
    if s.len() > 0 && s[0] == '/' {
        trim_slashes(s.skip(1))
    } else if s.len() > 0 && s[s.len() - 1] == '/' {
        trim_slashes(s.drop_last())
    } else {
        s
    }
}

/// The bucket prefix with surrounding slashes removed, as the TOS backend
/// keeps it.
pub fn normalize_prefix(prefix: &str) -> (r: String)
    ensures
        r@ == trim_slashes(prefix@),
{
    let cs = chars_of(prefix);
    let mut lo: usize = 0;
    let mut hi: usize = cs.len();
    assert(cs@.subrange(0, cs@.len() as int) =~= cs@);
    while lo < hi && cs[lo] == '/'
        invariant
            cs@ == prefix@,
            lo <= hi == cs.len(),
            trim_slashes(cs@.subrange(lo as int, hi as int)) == trim_slashes(prefix@),
        decreases hi - lo,
    {
        assert(cs@.subrange(lo as int, hi as int).skip(1) =~= cs@.subrange(lo + 1, hi as int));
        lo = lo + 1;
    }
    while lo < hi && cs[hi - 1] == '/'
        invariant
            cs@ == prefix@,
            lo <= hi <= cs.len(),
            lo < hi ==> cs@[lo as int] != '/',
            trim_slashes(cs@.subrange(lo as int, hi as int)) == trim_slashes(prefix@),
        decreases hi - lo,
    {
        assert(cs@.subrange(lo as int, hi as int).drop_last() =~= cs@.subrange(lo as int, hi - 1));
        hi = hi - 1;
    }
    string_of_range(&cs, lo, hi)
}

/// The full object key under a (normalized) prefix.
pub open spec fn prefixed_key(prefix: Seq<char>, key: Seq<char>) -> Seq<char> {
    if prefix.len() == 0 { key } else { prefix + seq!['/'] + key }
}

/// The bucket key of a blob: the key itself, or `<prefix>/<key>`.
pub fn full_key(prefix: &str, key: &BlobKey) -> (r: String)
    ensures
        r@ == prefixed_key(prefix@, key@),
{
    let cs = chars_of(prefix);
    if cs.len() == 0 {
        copy_str(key.as_str())
    } else {
        let mut out = copy_str(prefix);
        push_char(&mut out, '/');
        push_str(&mut out, key.as_str());
        out
    }
}

/// The error kind for an HTTP status returned by TOS.
pub open spec fn kind_for_status(status: int) -> BackendErrorKind {
    if status == 401 {
        BackendErrorKind::Unauthorized
    } else if status == 403 {
        BackendErrorKind::Forbidden
    } else if status == 404 {
        BackendErrorKind::NotFound
    } else if status == 408 {
        BackendErrorKind::Timeout
    } else if status == 429 {
        BackendErrorKind::RateLimited
    } else if 500 <= status <= 599 {
        BackendErrorKind::Unavailable
    } else {
        BackendErrorKind::Other
    }
}

/// Classifies an HTTP status returned by TOS.
pub fn error_kind_for_status(status: isize) -> (k: BackendErrorKind)
    ensures
        k == kind_for_status(status as int),
{
    if status == 401 {
        BackendErrorKind::Unauthorized
    } else if status == 403 {
        BackendErrorKind::Forbidden
    } else if status == 404 {
        BackendErrorKind::NotFound
    } else if status == 408 {
        BackendErrorKind::Timeout
    } else if status == 429 {
        BackendErrorKind::RateLimited
    } else if 500 <= status && status <= 599 {
        BackendErrorKind::Unavailable
    } else {
        BackendErrorKind::Other
    }
}

/// Whether a TOS error status means the object does not exist.
pub fn is_not_found(status: isize) -> (r: bool)
    ensures
        r == (status == 404),
{
    status == 404
}

/// A signed integer in decimal.
pub open spec fn signed_decimal(n: int) -> Seq<char> {
    if n < 0 { seq!['-'] + decimal((-n) as nat) } else { decimal(n as nat) }
}

fn push_signed_decimal(s: &mut String, n: isize)
    ensures
        final(s)@ == old(s)@ + signed_decimal(n as int),
{
    if n < 0 {
        push_char(s, '-');
        let magnitude: u64 = (0i128 - (n as i128)) as u64;
        push_decimal(s, magnitude);
        assert(old(s)@.push('-') + decimal(magnitude as nat) =~= old(s)@ + (seq!['-'] + decimal(magnitude as nat)));
    } else {
        push_decimal(s, n as u64);
    }
}

/// The message recorded for an error the TOS server returned.
pub open spec fn server_error_message(status: int, code: Seq<char>, request_id: Seq<char>, message: Seq<char>) -> Seq<char> {
    "TOS status="@ + signed_decimal(status) + " code="@ + code + " request_id="@ + request_id
        + " message="@ + message
}

/// Normalizes an error the TOS server returned: its kind from the HTTP
/// status, a message with every detail, and the request ID.
pub fn server_error(status: isize, code: &str, request_id: &str, message: &str) -> (e: BackendError)
    ensures
        e.kind == kind_for_status(status as int),
        e.message@ == server_error_message(status as int, code@, request_id@, message@),
        e.request_id matches Some(id) && id@ == request_id@,
{
    let mut text = copy_str("TOS status=");
    push_signed_decimal(&mut text, status);
    push_str(&mut text, " code=");
    push_str(&mut text, code);
    push_str(&mut text, " request_id=");
    push_str(&mut text, request_id);
    push_str(&mut text, " message=");
    push_str(&mut text, message);
    BackendError { kind: error_kind_for_status(status), message: text, request_id: Some(copy_str(request_id)) }
}

/// The size TOS reports, with a negative length read as zero.
pub fn reported_size(content_length: i64) -> (r: u64)
    ensures
        r == if content_length < 0 { 0 } else { content_length as u64 },
{
    if content_length < 0 { 0 } else { content_length as u64 }
}

/// A response header value, absent when empty.
pub fn header_value(value: &str) -> (r: Option<String>)
    ensures
        match r {
            Some(v) => v@ == value@ && value@.len() > 0,
            None => value@.len() == 0,
        },
{
    let cs = chars_of(value);
    if cs.len() == 0 {
        None
    } else {
        Some(copy_str(value))
    }
}

/// Where a multipart upload of `parts` parts stands.
#[derive(Debug, Clone, PartialEq, Eq)]
pub enum MultipartPhase {
    /// Nothing done yet.
    Start,
    /// Waiting for the upload to be created.
    Creating,
    /// Waiting for part `index` (from 0) to be uploaded.
    Uploading { index: u64 },
    /// Waiting for the upload to be aborted after a part failed with `error`.
    Aborting { error: BackendError },
    /// Waiting for the upload to be completed.
    Completing,
    /// The object is stored.
    Done,
    /// The upload failed.
    Failed,
}

/// What happened since the last step.
#[derive(Debug, Clone, PartialEq, Eq)]
pub enum MultipartEvent {
    /// The upload starts.
    Begin,
    /// The requested operation (create, upload a part, abort, complete)
    /// succeeded.
    Succeeded,
    /// The requested operation failed with this error.
    Failed(BackendError),
}

/// Why a multipart upload failed.
#[derive(Debug, Clone, PartialEq, Eq)]
pub enum MultipartFailure {
    /// The backend failed with this error.
    Backend(BackendError),
    /// An event arrived that the current step does not expect.
    UnexpectedEvent,
}

/// What to do next.
#[derive(Debug, Clone, PartialEq, Eq)]
pub enum MultipartAction {
    /// Create the multipart upload.
    Create,
    /// Upload part `index` (from 0) of the part plan.
    UploadPart { index: u64 },
    /// Abort the upload; its outcome does not matter.
    Abort,
    /// Complete the upload with every uploaded part.
    Complete,
    /// The object is stored.
    Finish,
    /// The upload failed.
    Fail(MultipartFailure),
}

/// One step of a multipart upload of `parts` parts: create the upload,
/// upload the parts in order, complete it after the last one; when a part
/// fails, abort the upload and fail with that part's error.
pub open spec fn spec_multipart_step(phase: MultipartPhase, event: MultipartEvent, parts: u64) -> (MultipartPhase, MultipartAction) {
    let unexpected = (MultipartPhase::Failed, MultipartAction::Fail(MultipartFailure::UnexpectedEvent));
    match phase {
        MultipartPhase::Start => match event {
            MultipartEvent::Begin => (MultipartPhase::Creating, MultipartAction::Create),
            _ => unexpected,
        },
        MultipartPhase::Creating => match event {
            MultipartEvent::Succeeded => if parts == 0 {
                (MultipartPhase::Completing, MultipartAction::Complete)
            } else {
                (MultipartPhase::Uploading { index: 0 }, MultipartAction::UploadPart { index: 0 })
            },
            MultipartEvent::Failed(m) => (MultipartPhase::Failed, MultipartAction::Fail(MultipartFailure::Backend(m))),
            _ => unexpected,
        },
        MultipartPhase::Uploading { index } => match event {
            MultipartEvent::Succeeded => if index + 1 < parts {
                (MultipartPhase::Uploading { index: (index + 1) as u64 }, MultipartAction::UploadPart { index: (index + 1) as u64 })
            } else {
                (MultipartPhase::Completing, MultipartAction::Complete)
            },
            MultipartEvent::Failed(m) => (MultipartPhase::Aborting { error: m }, MultipartAction::Abort),
            _ => unexpected,
        },
        MultipartPhase::Aborting { error } => match event {
            MultipartEvent::Begin => unexpected,
            _ => (MultipartPhase::Failed, MultipartAction::Fail(MultipartFailure::Backend(error))),
        },
        MultipartPhase::Completing => match event {
            MultipartEvent::Succeeded => (MultipartPhase::Done, MultipartAction::Finish),
            MultipartEvent::Failed(m) => (MultipartPhase::Failed, MultipartAction::Fail(MultipartFailure::Backend(m))),
            _ => unexpected,
        },
        _ => unexpected,
    }
}

/// Advances a multipart upload of `parts` parts.
pub fn multipart_step(phase: MultipartPhase, event: MultipartEvent, parts: u64) -> (r: (MultipartPhase, MultipartAction))
    ensures
        r == spec_multipart_step(phase, event, parts),
{
    let unexpected = (MultipartPhase::Failed, MultipartAction::Fail(MultipartFailure::UnexpectedEvent));
    match phase {
        MultipartPhase::Start => match event {
            MultipartEvent::Begin => (MultipartPhase::Creating, MultipartAction::Create),
            _ => unexpected,
        },
        MultipartPhase::Creating => match event {
            MultipartEvent::Succeeded => if parts == 0 {
                (MultipartPhase::Completing, MultipartAction::Complete)
            } else {
                (MultipartPhase::Uploading { index: 0 }, MultipartAction::UploadPart { index: 0 })
            },
            MultipartEvent::Failed(m) => (MultipartPhase::Failed, MultipartAction::Fail(MultipartFailure::Backend(m))),
            _ => unexpected,
        },
        MultipartPhase::Uploading { index } => match event {
            MultipartEvent::Succeeded => if parts > 0 && index < parts - 1 {
                (MultipartPhase::Uploading { index: index + 1 }, MultipartAction::UploadPart { index: index + 1 })
            } else {
                (MultipartPhase::Completing, MultipartAction::Complete)
            },
            MultipartEvent::Failed(m) => (MultipartPhase::Aborting { error: m }, MultipartAction::Abort),
            _ => unexpected,
        },
        MultipartPhase::Aborting { error } => match event {
            MultipartEvent::Begin => unexpected,
            _ => (MultipartPhase::Failed, MultipartAction::Fail(MultipartFailure::Backend(error))),
        },
        MultipartPhase::Completing => match event {
            MultipartEvent::Succeeded => (MultipartPhase::Done, MultipartAction::Finish),
            MultipartEvent::Failed(m) => (MultipartPhase::Failed, MultipartAction::Fail(MultipartFailure::Backend(m))),
            _ => unexpected,
        },
        _ => unexpected,
    }
}

/// The upload is completed only after its last part was uploaded (or, with
/// no parts, right after it was created), and parts are uploaded in order.
pub proof fn law_multipart_complete_after_all_parts(phase: MultipartPhase, event: MultipartEvent, parts: u64)
    ensures
        spec_multipart_step(phase, event, parts).1 == MultipartAction::Complete ==> event == MultipartEvent::Succeeded
            && ((phase == MultipartPhase::Creating && parts == 0)
                || (phase matches MultipartPhase::Uploading { index } && index + 1 >= parts)),
        spec_multipart_step(phase, event, parts).1 matches MultipartAction::UploadPart { index } ==> index < parts
            && event == MultipartEvent::Succeeded
            && (if index == 0 { phase == MultipartPhase::Creating } else { phase == (MultipartPhase::Uploading { index: (index - 1) as u64 }) }),
{
}

/// A failed part aborts the upload, and the upload then fails with that
/// part's error; nothing else aborts it.
pub proof fn law_multipart_abort_on_part_failure(phase: MultipartPhase, event: MultipartEvent, parts: u64)
    ensures
        spec_multipart_step(phase, event, parts).1 == MultipartAction::Abort <==> (phase is Uploading && event is Failed),
        phase is Aborting && !(event is Begin)
            ==> spec_multipart_step(phase, event, parts).1 == MultipartAction::Fail(MultipartFailure::Backend(phase->error)),
{
}

} // verus!

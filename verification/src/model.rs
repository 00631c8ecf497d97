//! Object identities, refs and blob keys.

use vstd::prelude::*;
use crate::text::{chars_of, copy_str, has_prefix, push_char, push_chars, push_str, same_text, starts_with_chars, string_of, string_of_range};

verus! {

/// Whether `c` is an ASCII hexadecimal digit of either case.
pub open spec fn is_hex_digit(c: char) -> bool {
    ('0' <= c && c <= '9') || ('a' <= c && c <= 'f') || ('A' <= c && c <= 'F')
}

/// Whether `c` is a lowercase hexadecimal digit.
pub open spec fn is_lower_hex_digit(c: char) -> bool {
    ('0' <= c && c <= '9') || ('a' <= c && c <= 'f')
}

/// ASCII lowercase of a character.
pub open spec fn lower_char(c: char) -> char {
    if 'A' <= c && c <= 'Z' {
        ((c as u32) + 32) as char
    } else {
        c
    }
}

/// ASCII lowercase of a string.
pub open spec fn lower_text(s: Seq<char>) -> Seq<char> {
    s.map_values(|c: char| lower_char(c))
}

/// A SHA-256 digest written as hexadecimal: exactly 64 hex digits.
pub open spec fn is_sha256_hex(s: Seq<char>) -> bool {
    s.len() == 64 && forall|i: int| 0 <= i < s.len() ==> is_hex_digit(#[trigger] s[i])
}

/// The canonical form of an object ID's digest: 64 lowercase hex digits.
pub open spec fn is_canonical_hex(s: Seq<char>) -> bool {
    s.len() == 64 && forall|i: int| 0 <= i < s.len() ==> is_lower_hex_digit(#[trigger] s[i])
}

/// The algorithm tag that starts every object ID value: `sha256:`.
pub open spec fn sha256_tag() -> Seq<char> {
    seq!['s', 'h', 'a', '2', '5', '6', ':']
}

/// The characters of the `sha256:` tag.
pub fn sha256_tag_chars() -> (out: Vec<char>)
    ensures
        out@ == sha256_tag(),
{
    let mut out = Vec::new();
    out.push('s');
    out.push('h');
    out.push('a');
    out.push('2');
    out.push('5');
    out.push('6');
    out.push(':');
    assert(out@ =~= sha256_tag());
    out
}

/// Errors of the object and ref model.
#[derive(Debug, Clone, PartialEq, Eq)]
pub enum ModelError {
    /// The digest is not 64 hexadecimal digits.
    InvalidDigest,
    /// The object ID value does not start with `sha256:`.
    MissingAlgorithmTag,
    /// The ref document has a version other than 1.
    UnsupportedRefVersion(u32),
    /// The ref's content type is not a valid media type.
    InvalidContentType(String),
}

/// A content object identity: the lowercase hex SHA-256 digest of its bytes.
#[derive(Debug, PartialEq, Eq, Hash, PartialOrd, Ord)]
pub struct ObjectId {
    hex: String,
}

impl View for ObjectId {
    type V = Seq<char>;

    open spec fn view(&self) -> Seq<char> {
        self.hex_view()
    }
}

impl Clone for ObjectId {
    fn clone(&self) -> (r: Self)
        ensures
            r@ == self@,
    {
        self.duplicate()
    }
}

impl ObjectId {
    /// The digest's hex digits.
    pub closed spec fn hex_view(&self) -> Seq<char> {
        self.hex@
    }

    #[verifier::type_invariant]
    spec fn canonical(self) -> bool {
        is_canonical_hex(self.hex@)
    }

    /// Builds an object ID from a hex digest, lowercasing it; fails unless the
    /// digest is exactly 64 hex digits.
    pub fn from_sha256_hex(hex: String) -> (r: Result<ObjectId, ModelError>)
        ensures
            r is Ok <==> is_sha256_hex(hex@),
            r matches Ok(oid) ==> oid@ == lower_text(hex@),
            r matches Err(e) ==> e == ModelError::InvalidDigest,
    {
        let cs = chars_of(hex.as_str());
        if cs.len() != 64 {
            return Err(ModelError::InvalidDigest);
        }
        let mut out = String::new();
        for i in 0..cs.len()
            invariant
                cs@ == hex@,
                cs.len() == 64,
                forall|j: int| 0 <= j < i ==> is_hex_digit(#[trigger] cs@[j]),
                out@ == lower_text(cs@.take(i as int)),
        {
            let c = cs[i];
            if !(('0' <= c && c <= '9') || ('a' <= c && c <= 'f') || ('A' <= c && c <= 'F')) {
                return Err(ModelError::InvalidDigest);
            }
            let lc = if 'A' <= c && c <= 'F' {
                ((c as u8) + 32) as char
            } else {
                c
            };
            push_char(&mut out, lc);
            assert(lower_text(cs@.take(i + 1)) =~= lower_text(cs@.take(i as int)).push(lower_char(c)));
        }
        assert(cs@.take(64) =~= cs@);
        assert(is_canonical_hex(out@)) by {
            assert forall|j: int| 0 <= j < out@.len() implies is_lower_hex_digit(#[trigger] out@[j]) by {
                assert(is_hex_digit(cs@[j]));
            }
        }
        Ok(ObjectId { hex: out })
    }

    /// Parses an object ID value of the form `sha256:<hex>`.
    pub fn parse(value: &str) -> (r: Result<ObjectId, ModelError>)
        ensures
            r is Ok <==> (has_prefix(value@, sha256_tag()) && is_sha256_hex(value@.skip(7))),
            r matches Ok(oid) ==> oid@ == lower_text(value@.skip(7)),
            r matches Err(e) ==> (e == if has_prefix(value@, sha256_tag()) {
                ModelError::InvalidDigest
            } else {
                ModelError::MissingAlgorithmTag
            }),
    {
        let cs = chars_of(value);
        let tag = sha256_tag_chars();
        if !starts_with_chars(&cs, &tag) {
            return Err(ModelError::MissingAlgorithmTag);
        }
        let hex = string_of_range(&cs, 7, cs.len());
        assert(hex@ =~= value@.skip(7));
        Self::from_sha256_hex(hex)
    }

    /// The digest as 64 lowercase hex digits.
    pub fn hex(&self) -> (r: &str)
        ensures
            r@ == self@,
            is_canonical_hex(self@),
    {
        proof { use_type_invariant(self); }
        self.hex.as_str()
    }

    /// The value written in refs: `sha256:<hex>`.
    pub fn as_ref_value(&self) -> (r: String)
        ensures
            r@ == sha256_tag() + self@,
            is_canonical_hex(self@),
    {
        proof { use_type_invariant(self); }
        let mut out = string_of(&sha256_tag_chars());
        push_str(&mut out, self.hex.as_str());
        out
    }

    /// The display form, identical to the ref value: `sha256:<hex>`.
    pub fn to_string(&self) -> (r: String)
        ensures
            r@ == sha256_tag() + self@,
    {
        self.as_ref_value()
    }

    /// A copy of this object ID.
    pub fn duplicate(&self) -> (r: ObjectId)
        ensures
            r@ == self@,
            is_canonical_hex(self@),
    {
        proof { use_type_invariant(self); }
        ObjectId { hex: self.hex.clone() }
    }

    /// Whether two object IDs name the same object.
    pub fn same_as(&self, other: &ObjectId) -> (r: bool)
        ensures
            r == (self@ == other@),
    {
        self.hex == other.hex
    }
}

} // verus!

verus! {

/// Whether the `mime` crate accepts `s` as a media type (`s.parse::<mime::Mime>()`).
pub uninterp spec fn parses_as_media_type(s: Seq<char>) -> bool;

/// Calls `str::parse::<mime::Mime>` (the `FromStr` impl of `mime::Mime`) and
/// reports whether it succeeded; the contract names that outcome
/// `parses_as_media_type`, a function of the text alone.
#[verifier::external_body]
fn media_type_parses(value: &str) -> (r: bool)
    ensures
        r == parses_as_media_type(value@),
{
    value.parse::<mime::Mime>().is_ok()
}

/// Accepts a content type only when it parses as a media type.
pub fn validate_content_type(value: String) -> (r: Result<String, ModelError>)
    ensures
        parses_as_media_type(value@) ==> r == Ok::<String, ModelError>(value),
        !parses_as_media_type(value@) ==> r == Err::<String, ModelError>(
            ModelError::InvalidContentType(value),
        ),
{
    if media_type_parses(value.as_str()) {
        Ok(value)
    } else {
        Err(ModelError::InvalidContentType(value))
    }
}

/// The view of an optional string.
pub open spec fn opt_text(o: Option<String>) -> Option<Seq<char>> {
    match o {
        Some(s) => Some(s@),
        None => None,
    }
}

fn copy_opt(o: &Option<String>) -> (r: Option<String>)
    ensures
        opt_text(r) == opt_text(*o),
{
    match o {
        Some(s) => Some(copy_str(s.as_str())),
        None => None,
    }
}

/// The fields of a ref file as its TOML document holds them.
#[derive(Debug, Clone, PartialEq, Eq)]
pub struct RefDocument {
    pub version: u32,
    pub oid: String,
    pub size: u64,
    pub content_type: Option<String>,
}

/// The mathematical value of a ref document.
pub struct RefDocumentView {
    pub version: u32,
    pub oid: Seq<char>,
    pub size: u64,
    pub content_type: Option<Seq<char>>,
}

impl View for RefDocument {
    type V = RefDocumentView;

    open spec fn view(&self) -> RefDocumentView {
        RefDocumentView {
            version: self.version,
            oid: self.oid@,
            size: self.size,
            content_type: opt_text(self.content_type),
        }
    }
}

/// A published reference from a worktree path to a content object.
#[derive(Debug, Clone, PartialEq, Eq)]
pub struct ShadowRef {
    pub oid: ObjectId,
    pub size: u64,
    pub content_type: Option<String>,
}

/// The mathematical value of a ref.
pub struct RefView {
    pub oid: Seq<char>,
    pub size: u64,
    pub content_type: Option<Seq<char>>,
}

impl View for ShadowRef {
    type V = RefView;

    open spec fn view(&self) -> RefView {
        RefView { oid: self.oid@, size: self.size, content_type: opt_text(self.content_type) }
    }
}

/// What parsing a ref document yields.
pub open spec fn parse_ref_document(d: RefDocumentView) -> Result<RefView, ModelError> {
    if d.version != 1 {
        Err(ModelError::UnsupportedRefVersion(d.version))
    } else if d.content_type is Some && !parses_as_media_type(d.content_type->0) {
        Err(ModelError::InvalidContentType(arbitrary()))
    } else if !has_prefix(d.oid, sha256_tag()) {
        Err(ModelError::MissingAlgorithmTag)
    } else if !is_sha256_hex(d.oid.skip(7)) {
        Err(ModelError::InvalidDigest)
    } else {
        Ok(RefView { oid: lower_text(d.oid.skip(7)), size: d.size, content_type: d.content_type })
    }
}

/// Whether two parse outcomes agree, comparing error variants by kind and
/// the invalid content type by its text.
pub open spec fn same_outcome(r: Result<ShadowRef, ModelError>, expected: Result<RefView, ModelError>, d: RefDocumentView) -> bool {
    match (r, expected) {
        (Ok(x), Ok(y)) => x@ == y,
        (Err(ModelError::InvalidContentType(t)), Err(ModelError::InvalidContentType(_))) =>
            Some(t@) == d.content_type,
        (Err(e), Err(f)) => e == f,
        _ => false,
    }
}

/// The document a ref is written as.
pub open spec fn ref_document_of(r: RefView) -> RefDocumentView {
    RefDocumentView { version: 1, oid: sha256_tag() + r.oid, size: r.size, content_type: r.content_type }
}

impl ShadowRef {
    /// Validates a ref document: version 1, a valid content type if one is
    /// given, and a `sha256:` object ID.
    pub fn parse(document: &RefDocument) -> (r: Result<ShadowRef, ModelError>)
        ensures
            same_outcome(r, parse_ref_document(document@), document@),
    {
        if document.version != 1 {
            return Err(ModelError::UnsupportedRefVersion(document.version));
        }
        let content_type = match &document.content_type {
            Some(value) => match validate_content_type(copy_str(value.as_str())) {
                Ok(v) => Some(v),
                Err(e) => return Err(e),
            },
            None => None,
        };
        match ObjectId::parse(document.oid.as_str()) {
            Ok(oid) => Ok(ShadowRef { oid, size: document.size, content_type }),
            Err(e) => Err(e),
        }
    }

    /// The document this ref is written as: version 1, `sha256:<hex>`, the
    /// size and the content type when there is one.
    pub fn serialize(&self) -> (d: RefDocument)
        ensures
            d@ == ref_document_of(self@),
            is_canonical_hex(self.oid@),
    {
        RefDocument {
            version: 1,
            oid: self.oid.as_ref_value(),
            size: self.size,
            content_type: copy_opt(&self.content_type),
        }
    }

    /// A copy of this ref.
    pub fn duplicate(&self) -> (r: ShadowRef)
        ensures
            r@ == self@,
    {
        ShadowRef { oid: self.oid.duplicate(), size: self.size, content_type: copy_opt(&self.content_type) }
    }

    /// Whether two refs record the same object, size and content type.
    pub fn same_as(&self, other: &ShadowRef) -> (r: bool)
        ensures
            r == (self@ == other@),
    {
        if !self.oid.same_as(&other.oid) || self.size != other.size {
            return false;
        }
        match (&self.content_type, &other.content_type) {
            (Some(a), Some(b)) => same_text(a.as_str(), b.as_str()),
            (None, None) => true,
            _ => false,
        }
    }
}

/// Lowercasing text that is already lowercase hex leaves it unchanged.
pub proof fn lemma_lower_canonical(s: Seq<char>)
    requires
        is_canonical_hex(s),
    ensures
        lower_text(s) == s,
        is_sha256_hex(s),
{
    assert(lower_text(s) =~= s) by {
        assert forall|i: int| 0 <= i < s.len() implies lower_text(s)[i] == s[i] by {
            assert(is_lower_hex_digit(s[i]));
        }
    }
}

/// A canonical digest has 64 characters, so its two-character head exists.
pub proof fn lemma_canonical_len(s: Seq<char>)
    requires
        is_canonical_hex(s),
    ensures
        s.len() == 64,
{
}

/// Round trip: parsing the document a ref is written as gives the ref back,
/// for every ref with a canonical object ID whose content type, if any, is
/// a valid media type.
pub proof fn law_ref_round_trip(r: RefView)
    requires
        is_canonical_hex(r.oid),
        r.content_type is Some ==> parses_as_media_type(r.content_type->0),
    ensures
        parse_ref_document(ref_document_of(r)) == Ok::<RefView, ModelError>(r),
{
    let d = ref_document_of(r);
    assert(d.oid.take(7) =~= sha256_tag());
    assert(d.oid.skip(7) =~= r.oid);
    lemma_lower_canonical(r.oid);
}

/// The `Cache-Control` every published object carries: cached for a year and
/// never revalidated, since a content-addressed URL never changes.
pub const DEFAULT_CACHE_CONTROL: &'static str = "max-age=31536000, immutable";

/// The default cache control, as text.
pub open spec fn default_cache_control() -> Seq<char> {
    DEFAULT_CACHE_CONTROL@
}

/// Metadata a backend reports for a stored object.
#[derive(Debug, Clone, PartialEq, Eq)]
pub struct BlobMetadata {
    pub size: u64,
    pub etag: Option<String>,
    pub content_type: Option<String>,
    pub cache_control: Option<String>,
}

/// Object metadata set on upload.
#[derive(Debug, Clone, PartialEq, Eq)]
pub struct UploadOptions {
    pub content_type: String,
    pub cache_control: String,
}

impl UploadOptions {
    /// Options for an object of the given content type, with the default
    /// cache control.
    pub fn new(content_type: &str) -> (r: UploadOptions)
        ensures
            r.content_type@ == content_type@,
            r.cache_control@ == default_cache_control(),
    {
        UploadOptions { content_type: copy_str(content_type), cache_control: copy_str(DEFAULT_CACHE_CONTROL) }
    }
}

/// The text of the objects path segment between a project name and a digest.
pub open spec fn objects_segment() -> Seq<char> {
    seq!['/', 'o', 'b', 'j', 'e', 'c', 't', 's', '/', 's', 'h', 'a', '2', '5', '6', '/']
}

/// The remote key of an object: `<name>/objects/sha256/<hex[..2]>/<hex[2..]>`.
pub open spec fn blob_key_text(name: Seq<char>, hex: Seq<char>) -> Seq<char> {
    name + objects_segment() + hex.take(2) + seq!['/'] + hex.skip(2)
}

pub fn objects_segment_chars() -> (out: Vec<char>)
    ensures
        out@ == objects_segment(),
{
    let mut out = Vec::new();
    out.push('/');
    out.push('o');
    out.push('b');
    out.push('j');
    out.push('e');
    out.push('c');
    out.push('t');
    out.push('s');
    out.push('/');
    out.push('s');
    out.push('h');
    out.push('a');
    out.push('2');
    out.push('5');
    out.push('6');
    out.push('/');
    assert(out@ =~= objects_segment());
    out
}

/// The key of an object in remote storage, scoped by project.
#[derive(Debug, Clone, PartialEq, Eq, Hash, PartialOrd, Ord)]
pub struct BlobKey(pub String);

impl View for BlobKey {
    type V = Seq<char>;

    open spec fn view(&self) -> Seq<char> {
        self.0@
    }
}

impl BlobKey {
    /// The key of object `oid` in project `name`.
    pub fn for_object(name: &str, oid: &ObjectId) -> (k: BlobKey)
        ensures
            k@ == blob_key_text(name@, oid@),
            is_canonical_hex(oid@),
    {
        let hex = chars_of(oid.hex());
        let mut out = copy_str(name);
        push_chars(&mut out, &objects_segment_chars());
        let head = string_of_range(&hex, 0, 2);
        push_str(&mut out, head.as_str());
        push_char(&mut out, '/');
        let tail = string_of_range(&hex, 2, 64);
        push_str(&mut out, tail.as_str());
        assert(hex@.subrange(0, 2) == hex@.take(2));
        assert(hex@.subrange(2, 64) == hex@.skip(2));
        assert(out@ =~= blob_key_text(name@, oid@));
        BlobKey(out)
    }

    /// The key as text.
    pub fn as_str(&self) -> (r: &str)
        ensures
            r@ == self@,
    {
        self.0.as_str()
    }

    /// A copy of this key.
    pub fn duplicate(&self) -> (r: BlobKey)
        ensures
            r@ == self@,
    {
        BlobKey(copy_str(self.0.as_str()))
    }
}

} // verus!

//! Media type detection for published objects.

use vstd::prelude::*;
use crate::text::{copy_str, same_text};

verus! {

/// The media type used when neither content nor file name tell anything.
pub const DEFAULT_CONTENT_TYPE: &'static str = "application/octet-stream";

/// How many leading bytes of content are inspected for a signature.
pub const CONTENT_SNIFF_LIMIT: usize = 8192;

/// The media type `infer::get` recognises from the leading bytes `head`.
pub uninterp spec fn content_media_type(head: Seq<u8>) -> Option<Seq<char>>;

/// The first media type `mime_guess::from_path` maps the extension of `path` to.
pub uninterp spec fn extension_media_type(path: Seq<char>) -> Option<Seq<char>>;

/// Calls `infer::get` on the leading bytes of some content and keeps the
/// media type of the kind it recognises; the contract names the outcome
/// `content_media_type`, a function of the bytes alone.
#[verifier::external_body]
fn infer_media_type(head: &[u8]) -> (r: Option<String>)
    ensures
        match r {
            Some(t) => content_media_type(head@) == Some(t@),
            None => content_media_type(head@) is None,
        },
{
    match infer::get(head) {
        Some(kind) => Some(kind.mime_type().to_string()),
        None => None,
    }
}

/// Calls `mime_guess::from_path(path).first_raw()`; the contract names the
/// outcome `extension_media_type`, a function of the path text alone.
#[verifier::external_body]
fn guess_media_type(path: &str) -> (r: Option<String>)
    ensures
        match r {
            Some(t) => extension_media_type(path@) == Some(t@),
            None => extension_media_type(path@) is None,
        },
{
    match mime_guess::from_path(path).first_raw() {
        Some(raw) => Some(raw.to_string()),
        None => None,
    }
}

/// Media types that say only "some container" and yield to the extension.
pub open spec fn is_generic(t: Seq<char>) -> bool {
    t == "application/octet-stream"@ || t == "application/zip"@ || t == "application/xml"@
        || t == "text/plain"@ || t == "text/xml"@
}

/// Whether a detected content type is too generic to beat the extension.
pub fn is_generic_container(content_type: &str) -> (r: bool)
    ensures
        r == is_generic(content_type@),
{
    same_text(content_type, "application/octet-stream") || same_text(content_type, "application/zip")
        || same_text(content_type, "application/xml") || same_text(content_type, "text/plain")
        || same_text(content_type, "text/xml")
}

/// The media type chosen from a content signature and a file extension: a
/// specific signature wins; a generic one yields to the extension; without
/// either, `application/octet-stream`.
pub open spec fn choose_media_type(by_content: Option<Seq<char>>, by_extension: Option<Seq<char>>) -> Seq<char> {
    match by_content {
        Some(detected) => match by_extension {
            Some(extension) => if is_generic(detected) { extension } else { detected },
            None => detected,
        },
        None => match by_extension {
            Some(extension) => extension,
            None => DEFAULT_CONTENT_TYPE@,
        },
    }
}

/// The media type detected for content named `path_hint` whose leading
/// bytes are `content_head` (none when the content is not available).
pub open spec fn detected_media_type(path_hint: Seq<char>, content_head: Option<Seq<u8>>) -> Seq<char> {
    let by_content = match content_head {
        Some(head) => content_media_type(head),
        None => None,
    };
    choose_media_type(by_content, extension_media_type(path_hint))
}

/// Content recognised only as one of the generic containers
/// (`application/octet-stream`, `application/zip`, `application/xml`,
/// `text/plain`, `text/xml`) yields to the media type of the file extension
/// whenever the extension maps to one; so an SVG file that sniffs as
/// `text/xml` is published as `image/svg+xml`.
pub proof fn law_generic_content_yields_to_extension(
    path_hint: Seq<char>,
    head: Seq<u8>,
    sniffed: Seq<char>,
    by_extension: Seq<char>,
)
    requires
        content_media_type(head) == Some(sniffed),
        extension_media_type(path_hint) == Some(by_extension),
        sniffed == "application/octet-stream"@ || sniffed == "application/zip"@
            || sniffed == "application/xml"@ || sniffed == "text/plain"@ || sniffed == "text/xml"@,
    ensures
        detected_media_type(path_hint, Some(head)) == by_extension,
        is_generic("text/xml"@),
{
}

/// Content recognised as any media type other than the generic containers
/// keeps that type, whatever the file extension says.
pub proof fn law_specific_content_wins(path_hint: Seq<char>, head: Seq<u8>, sniffed: Seq<char>)
    requires
        content_media_type(head) == Some(sniffed),
        sniffed != "application/octet-stream"@,
        sniffed != "application/zip"@,
        sniffed != "application/xml"@,
        sniffed != "text/plain"@,
        sniffed != "text/xml"@,
    ensures
        detected_media_type(path_hint, Some(head)) == sniffed,
{
}

/// Without a recognised content signature the extension decides, and
/// without either the content is `application/octet-stream`.
pub proof fn law_unrecognised_content_falls_back(path_hint: Seq<char>, content_head: Option<Seq<u8>>)
    requires
        match content_head {
            Some(head) => content_media_type(head) is None,
            None => true,
        },
    ensures
        detected_media_type(path_hint, content_head) == match extension_media_type(path_hint) {
            Some(e) => e,
            None => "application/octet-stream"@,
        },
{
}

/// Detects the media type of content from its leading bytes (at most
/// `CONTENT_SNIFF_LIMIT` of them) and the worktree path it is published for.
pub fn detect(path_hint: &str, content_head: Option<&[u8]>) -> (r: String)
    ensures
        r@ == detected_media_type(
            path_hint@,
            match content_head {
                Some(h) => Some(h@),
                None => None,
            },
        ),
{
    let by_extension = guess_media_type(path_hint);
    let by_content = match content_head {
        Some(head) => infer_media_type(head),
        None => None,
    };
    match (by_content, by_extension) {
        (Some(detected), Some(extension)) => {
            if is_generic_container(detected.as_str()) {
                extension
            } else {
                detected
            }
        },
        (Some(detected), None) => detected,
        (None, Some(extension)) => extension,
        (None, None) => copy_str(DEFAULT_CONTENT_TYPE),
    }
}

} // verus!

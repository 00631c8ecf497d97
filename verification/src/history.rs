//! Reading `git rev-list --objects --all -z -- .shadow/refs` output: which
//! committed blobs are Shadow refs, in any version that Git history reaches.

use vstd::prelude::*;
use crate::gc::GcError;
use crate::model::opt_text;
use crate::order::{text_less, chars_less, lemma_less_transitive, lemma_less_total};
use crate::text::{chars_of, same_text};

verus! {

/// What `std::str::from_utf8` makes of `bytes`: the text, or `None` where
/// they are not UTF-8.
pub uninterp spec fn utf8_decoding(bytes: Seq<u8>) -> Option<Seq<char>>;

/// What `String::from_utf8_lossy` makes of `bytes`.
pub uninterp spec fn utf8_lossy(bytes: Seq<u8>) -> Seq<char>;

/// ASCII bytes read as characters.
pub open spec fn ascii_chars(bytes: Seq<u8>) -> Seq<char> {
    bytes.map_values(|b: u8| b as char)
}

/// Whether every byte is ASCII.
pub open spec fn is_ascii(bytes: Seq<u8>) -> bool {
    forall|i: int| 0 <= i < bytes.len() ==> #[trigger] bytes[i] < 128
}

/// Calls `std::str::from_utf8`. Its documentation promises text exactly for
/// valid UTF-8, of which ASCII is a part, each byte one character; of other
/// input nothing is stated beyond the name of the result.
#[verifier::external_body]
fn decode_utf8(bytes: &[u8]) -> (r: Option<String>)
    ensures
        utf8_decoding(bytes@) == opt_text(r),
        is_ascii(bytes@) ==> opt_text(r) == Some(ascii_chars(bytes@)),
{
    match std::str::from_utf8(bytes) {
        Ok(s) => Some(s.to_string()),
        Err(_) => None,
    }
}

/// Calls `String::from_utf8_lossy`, which gives valid UTF-8 back unchanged
/// and replaces what is not UTF-8.
#[verifier::external_body]
fn decode_utf8_lossy(bytes: &[u8]) -> (r: String)
    ensures
        r@ == utf8_lossy(bytes@),
        utf8_decoding(bytes@) matches Some(t) ==> r@ == t,
{
    String::from_utf8_lossy(bytes).into_owned()
}

/// `.shadow/refs/` as bytes.
pub open spec fn ref_dir_bytes() -> Seq<u8> {
    seq![46u8, 115u8, 104u8, 97u8, 100u8, 111u8, 119u8, 47u8, 114u8, 101u8, 102u8, 115u8, 47u8]
}

/// `.ref` as bytes.
pub open spec fn ref_ext_bytes() -> Seq<u8> {
    seq![46u8, 114u8, 101u8, 102u8]
}

/// `path=` as bytes.
pub open spec fn path_field_bytes() -> Seq<u8> {
    seq![112u8, 97u8, 116u8, 104u8, 61u8]
}

/// Whether a path names a ref file under `.shadow/refs/`.
pub open spec fn is_ref_path(path: Seq<u8>) -> bool {
    &&& path.len() >= ref_dir_bytes().len()
    &&& path.take(ref_dir_bytes().len() as int) == ref_dir_bytes()
    &&& path.len() >= ref_ext_bytes().len()
    &&& path.skip(path.len() - ref_ext_bytes().len()) == ref_ext_bytes()
}

/// Whether a byte is an ASCII hexadecimal digit.
pub open spec fn is_hex_byte(b: u8) -> bool {
    (48 <= b && b <= 57) || (97 <= b && b <= 102) || (65 <= b && b <= 70)
}

/// Whether a record is a bare Git object ID: at least 40 hex digits.
pub open spec fn is_oid_record(record: Seq<u8>) -> bool {
    record.len() >= 40 && forall|i: int| 0 <= i < record.len() ==> is_hex_byte(#[trigger] record[i])
}

/// The first space in a record.
pub open spec fn first_space(record: Seq<u8>) -> Option<int>
    decreases record.len(),
{
    if record.len() == 0 {
        None
    } else if record[0] == 32 {
        Some(0)
    } else {
        match first_space(record.skip(1)) {
            Some(i) => Some(i + 1),
            None => None,
        }
    }
}

/// A ref blob Git reports: its Git object ID and its path.
pub type RefBlob = (Seq<char>, Seq<char>);

/// Takes one NUL-separated record into account, given the object ID of a
/// bare ID record still waiting for its path, and the ref blobs found so far.
pub open spec fn record_step(pending: Option<Seq<char>>, found: Seq<RefBlob>, record: Seq<u8>) -> Result<(Option<Seq<char>>, Seq<RefBlob>), GcError> {
    if record.len() == 0 {
        Ok((pending, found))
    } else {
        match first_space(record) {
            Some(sep) => {
                let path = record.skip(sep + 1);
                if is_ref_path(path) {
                    match utf8_decoding(record.take(sep)) {
                        None => Err(GcError::NonUtf8ObjectId),
                        Some(oid) => Ok((pending, found.push((oid, utf8_lossy(path))))),
                    }
                } else {
                    Ok((pending, found))
                }
            },
            None => if is_oid_record(record) {
                Ok((Some(ascii_chars(record)), found))
            } else {
                let path = if record.len() >= 5 && record.take(5) == path_field_bytes() { record.skip(5) } else { record };
                if is_ref_path(path) {
                    match pending {
                        None => Err(GcError::RefPathWithoutObjectId),
                        Some(oid) => Ok((None, found.push((oid, utf8_lossy(path))))),
                    }
                } else {
                    Ok((pending, found))
                }
            },
        }
    }
}

/// The state after reading `out` up to its end: the pending object ID, the
/// ref blobs found and the bytes of the record not yet ended.
pub open spec fn scan_prefix(out: Seq<u8>) -> Result<(Option<Seq<char>>, Seq<RefBlob>, Seq<u8>), GcError>
    decreases out.len(),
{
    if out.len() == 0 {
        Ok((None, Seq::empty(), Seq::empty()))
    } else {
        match scan_prefix(out.drop_last()) {
            Err(e) => Err(e),
            Ok((pending, found, current)) => if out.last() == 0 {
                match record_step(pending, found, current) {
                    Err(e) => Err(e),
                    Ok((p, f)) => Ok((p, f, Seq::empty())),
                }
            } else {
                Ok((pending, found, current.push(out.last())))
            },
        }
    }
}

/// The ref blobs that rev-list output `out` reports, in order of report
/// (with repeats), or the first error.
pub open spec fn rev_list_blobs(out: Seq<u8>) -> Result<Seq<RefBlob>, GcError> {
    match scan_prefix(out) {
        Err(e) => Err(e),
        Ok((pending, found, current)) => match record_step(pending, found, current) {
            Err(e) => Err(e),
            Ok((_, f)) => Ok(f),
        },
    }
}

/// The views of found ref blobs.
pub open spec fn blobs_view(s: Seq<(String, String)>) -> Seq<RefBlob> {
    s.map_values(|p: (String, String)| (p.0@, p.1@))
}

fn ref_dir() -> (r: Vec<u8>)
    ensures
        r@ == ref_dir_bytes(),
{
    let r = vec![46u8, 115u8, 104u8, 97u8, 100u8, 111u8, 119u8, 47u8, 114u8, 101u8, 102u8, 115u8, 47u8];
    assert(r@ =~= ref_dir_bytes());
    r
}

fn ref_ext() -> (r: Vec<u8>)
    ensures
        r@ == ref_ext_bytes(),
{
    let r = vec![46u8, 114u8, 101u8, 102u8];
    assert(r@ =~= ref_ext_bytes());
    r
}

fn path_field() -> (r: Vec<u8>)
    ensures
        r@ == path_field_bytes(),
{
    let r = vec![112u8, 97u8, 116u8, 104u8, 61u8];
    assert(r@ =~= path_field_bytes());
    r
}

/// Whether `s` starts with `prefix`.
fn bytes_start_with(s: &[u8], prefix: &[u8]) -> (r: bool)
    ensures
        r == (s@.len() >= prefix@.len() && s@.take(prefix@.len() as int) == prefix@),
{
    if prefix.len() > s.len() {
        return false;
    }
    let mut i: usize = 0;
    while i < prefix.len()
        invariant
            prefix@.len() <= s@.len(),
            i <= prefix@.len(),
            forall|j: int| 0 <= j < i ==> s@[j] == prefix@[j],
        decreases prefix.len() - i,
    {
        if s[i] != prefix[i] {
            assert(s@.take(prefix@.len() as int)[i as int] != prefix@[i as int]);
            return false;
        }
        i = i + 1;
    }
    assert(s@.take(prefix@.len() as int) =~= prefix@);
    true
}

/// Whether `s` ends with `suffix`.
fn bytes_end_with(s: &[u8], suffix: &[u8]) -> (r: bool)
    ensures
        r == (s@.len() >= suffix@.len() && s@.skip(s@.len() - suffix@.len()) == suffix@),
{
    if suffix.len() > s.len() {
        return false;
    }
    let start = s.len() - suffix.len();
    let mut i: usize = 0;
    while i < suffix.len()
        invariant
            suffix@.len() <= s@.len(),
            s@.len() == s.len(),
            start + suffix@.len() == s@.len(),
            i <= suffix@.len(),
            forall|j: int| 0 <= j < i ==> s@[start + j] == suffix@[j],
        decreases suffix.len() - i,
    {
        if s[start + i] != suffix[i] {
            assert(s@.skip(start as int)[i as int] != suffix@[i as int]);
            return false;
        }
        i = i + 1;
    }
    assert(s@.skip(start as int) =~= suffix@);
    true
}

/// Whether `path` names a ref file under `.shadow/refs/`.
fn ref_path_bytes(path: &[u8]) -> (r: bool)
    ensures
        r == is_ref_path(path@),
{
    bytes_start_with(path, ref_dir().as_slice()) && bytes_end_with(path, ref_ext().as_slice())
}

/// The first space in `record`.
fn find_space(record: &[u8]) -> (r: Option<usize>)
    ensures
        r is None <==> first_space(record@) is None,
        r matches Some(i) ==> first_space(record@) == Some(i as int) && i < record@.len(),
{
    let mut i: usize = 0;
    while i < record.len()
        invariant
            i <= record@.len(),
            forall|j: int| 0 <= j < i ==> record@[j] != 32,
        decreases record.len() - i,
    {
        if record[i] == 32 {
            proof { lemma_first_space_at(record@, i as int); }
            return Some(i);
        }
        i = i + 1;
    }
    proof { lemma_no_space(record@); }
    None
}

proof fn lemma_first_space_at(record: Seq<u8>, i: int)
    requires
        0 <= i < record.len(),
        record[i] == 32,
        forall|j: int| 0 <= j < i ==> record[j] != 32,
    ensures
        first_space(record) == Some(i),
    decreases i,
{
    if i > 0 {
        lemma_first_space_at(record.skip(1), i - 1);
    }
}

proof fn lemma_no_space(record: Seq<u8>)
    requires
        forall|j: int| 0 <= j < record.len() ==> record[j] != 32,
    ensures
        first_space(record) is None,
    decreases record.len(),
{
    if record.len() > 0 {
        lemma_no_space(record.skip(1));
    }
}

/// Whether `record` is a bare Git object ID.
fn oid_record(record: &[u8]) -> (r: bool)
    ensures
        r == is_oid_record(record@),
{
    if record.len() < 40 {
        return false;
    }
    let mut i: usize = 0;
    while i < record.len()
        invariant
            i <= record@.len(),
            forall|j: int| 0 <= j < i ==> is_hex_byte(#[trigger] record@[j]),
        decreases record.len() - i,
    {
        let b = record[i];
        if !((48 <= b && b <= 57) || (97 <= b && b <= 102) || (65 <= b && b <= 70)) {
            return false;
        }
        i = i + 1;
    }
    true
}

/// Takes one record of rev-list output into account.
fn take_record(record: &[u8], pending: &mut Option<String>, found: &mut Vec<(String, String)>) -> (r: Result<(), GcError>)
    ensures
        match record_step(opt_text(*old(pending)), blobs_view(old(found)@), record@) {
            Ok((p, f)) => r is Ok && opt_text(*final(pending)) == p && blobs_view(final(found)@) == f,
            Err(e) => r == Err::<(), GcError>(e),
        },
{
    if record.len() == 0 {
        return Ok(());
    }
    match find_space(record) {
        Some(sep) => {
            assert(first_space(record@) == Some(sep as int));
            let path = vstd::slice::slice_subrange(record, sep + 1, record.len());
            assert(path@ =~= record@.skip(sep + 1));
            if ref_path_bytes(path) {
                let head = vstd::slice::slice_subrange(record, 0, sep);
                assert(head@ =~= record@.take(sep as int));
                match decode_utf8(head) {
                    None => Err(GcError::NonUtf8ObjectId),
                    Some(oid) => {
                        let ghost before = found@;
                        found.push((oid, decode_utf8_lossy(path)));
                        assert(blobs_view(found@) =~= blobs_view(before).push((oid@, utf8_lossy(path@))));
                        Ok(())
                    },
                }
            } else {
                Ok(())
            }
        },
        None => {
            assert(first_space(record@) is None);
            if oid_record(record) {
                proof {
                    assert(is_ascii(record@));
                }
                *pending = decode_utf8(record);
                return Ok(());
            }
            let field = path_field();
            let path = if bytes_start_with(record, field.as_slice()) {
                let p = vstd::slice::slice_subrange(record, 5, record.len());
                assert(p@ =~= record@.skip(5));
                p
            } else {
                record
            };
            if ref_path_bytes(path) {
                match pending.take() {
                    None => Err(GcError::RefPathWithoutObjectId),
                    Some(oid) => {
                        let ghost before = found@;
                        found.push((oid, decode_utf8_lossy(path)));
                        assert(blobs_view(found@) =~= blobs_view(before).push((oid@, utf8_lossy(path@))));
                        Ok(())
                    },
                }
            } else {
                Ok(())
            }
        },
    }
}

/// Reads rev-list output: the ref blobs it reports, in order of report
/// with repeats, or the first error.
pub fn scan_rev_list(out: &[u8]) -> (r: Result<Vec<(String, String)>, GcError>)
    ensures
        match rev_list_blobs(out@) {
            Ok(f) => r matches Ok(v) && blobs_view(v@) == f,
            Err(e) => r == Err::<Vec<(String, String)>, GcError>(e),
        },
{
    let mut pending: Option<String> = None;
    let mut found: Vec<(String, String)> = Vec::new();
    let mut current: Vec<u8> = Vec::new();
    let mut i: usize = 0;
    assert(out@.take(0) =~= Seq::<u8>::empty());
    assert(blobs_view(found@) =~= Seq::<RefBlob>::empty());
    while i < out.len()
        invariant
            i <= out@.len(),
            scan_prefix(out@.take(i as int)) == Ok::<(Option<Seq<char>>, Seq<RefBlob>, Seq<u8>), GcError>((opt_text(pending), blobs_view(found@), current@)),
        decreases out.len() - i,
    {
        assert(out@.take(i + 1).drop_last() =~= out@.take(i as int));
        assert(out@.take(i + 1).last() == out@[i as int]);
        if out[i] == 0 {
            match take_record(current.as_slice(), &mut pending, &mut found) {
                Ok(()) => {},
                Err(e) => {
                    proof {
                        lemma_scan_error_sticks(out@, i as int + 1);
                    }
                    return Err(e);
                },
            }
            current = Vec::new();
            assert(current@ =~= Seq::<u8>::empty());
        } else {
            current.push(out[i]);
        }
        i = i + 1;
    }
    assert(out@.take(out@.len() as int) =~= out@);
    match take_record(current.as_slice(), &mut pending, &mut found) {
        Ok(()) => Ok(found),
        Err(e) => Err(e),
    }
}

/// Once reading fails, reading more keeps the first error.
proof fn lemma_scan_error_sticks(out: Seq<u8>, n: int)
    requires
        0 <= n <= out.len(),
        scan_prefix(out.take(n)) is Err,
    ensures
        rev_list_blobs(out) == Err::<Seq<RefBlob>, GcError>(scan_prefix(out.take(n))->Err_0),
    decreases out.len() - n,
{
    if n == out.len() {
        assert(out.take(n) =~= out);
    } else {
        assert(out.take(n + 1).drop_last() =~= out.take(n));
        lemma_scan_error_sticks(out, n + 1);
    }
}

/// Whether `name` is what lossy UTF-8 decoding makes of the bytes of a path
/// that starts with `.shadow/refs/` and ends with `.ref`.
pub open spec fn decodes_ref_file(name: Seq<char>) -> bool {
    exists|path: Seq<u8>|
        #[trigger] utf8_lossy(path) == name
        && path.len() >= 13
        && path.take(13) == seq![46u8, 115u8, 104u8, 97u8, 100u8, 111u8, 119u8, 47u8, 114u8, 101u8, 102u8, 115u8, 47u8]
        && path.len() >= 4
        && path.skip(path.len() - 4) == seq![46u8, 114u8, 101u8, 102u8]
}

/// Whether every found ref blob names a ref file.
pub open spec fn all_ref_files(found: Seq<RefBlob>) -> bool {
    forall|i: int| 0 <= i < found.len() ==> decodes_ref_file(#[trigger] found[i].1)
}

proof fn lemma_record_step_ref_files(pending: Option<Seq<char>>, found: Seq<RefBlob>, record: Seq<u8>)
    requires
        all_ref_files(found),
    ensures
        record_step(pending, found, record) matches Ok((_, f)) ==> all_ref_files(f),
{
    if let Ok((_, f)) = record_step(pending, found, record) {
        if f.len() > found.len() {
            let path: Seq<u8> = match first_space(record) {
                Some(sep) => record.skip(sep + 1),
                None => if record.len() >= 5 && record.take(5) == path_field_bytes() { record.skip(5) } else { record },
            };
            assert(is_ref_path(path));
            assert(f == found.push((f.last().0, utf8_lossy(path))));
            assert(decodes_ref_file(f.last().1));
            assert forall|i: int| 0 <= i < f.len() implies decodes_ref_file(#[trigger] f[i].1) by {
                if i < found.len() {
                    assert(f[i] == found[i]);
                }
            }
        } else {
            assert(f == found);
        }
    }
}

proof fn lemma_scan_ref_files(out: Seq<u8>)
    ensures
        scan_prefix(out) matches Ok((_, f, _)) ==> all_ref_files(f),
    decreases out.len(),
{
    if out.len() > 0 {
        lemma_scan_ref_files(out.drop_last());
        if let Ok((pending, found, current)) = scan_prefix(out.drop_last()) {
            if out.last() == 0 {
                lemma_record_step_ref_files(pending, found, current);
            }
        }
    }
}

/// Every blob that rev-list output reports as a ref has a path, as Git
/// wrote it, that starts with `.shadow/refs/` and ends with `.ref`: trees
/// of directories under `.shadow/refs/` and other files are passed over.
pub proof fn law_reported_blobs_are_ref_files(out: Seq<u8>)
    ensures
        rev_list_blobs(out) matches Ok(f) ==> forall|i: int| #![trigger f[i]] 0 <= i < f.len() ==> exists|path: Seq<u8>|
            #[trigger] utf8_lossy(path) == f[i].1
            && path.len() >= 13
            && path.take(13) == seq![46u8, 115u8, 104u8, 97u8, 100u8, 111u8, 119u8, 47u8, 114u8, 101u8, 102u8, 115u8, 47u8]
            && path.len() >= 4
            && path.skip(path.len() - 4) == seq![46u8, 114u8, 101u8, 102u8],
{
    lemma_scan_ref_files(out);
    if let Ok((pending, found, current)) = scan_prefix(out) {
        lemma_record_step_ref_files(pending, found, current);
    }
    if let Ok(f) = rev_list_blobs(out) {
        assert(all_ref_files(f));
        assert forall|i: int| 0 <= i < f.len() implies decodes_ref_file(f[i].1) by {
            assert(decodes_ref_file(f[i].1));
        }
    }
}

/// The order of ref blobs: by Git object ID, then by path.
pub open spec fn blob_less(a: RefBlob, b: RefBlob) -> bool {
    text_less(a.0, b.0) || (a.0 == b.0 && text_less(a.1, b.1))
}

/// Whether ref blobs come strictly ascending, so each once.
pub open spec fn blobs_ascending(s: Seq<RefBlob>) -> bool {
    forall|i: int, j: int| 0 <= i < j < s.len() ==> blob_less(#[trigger] s[i], #[trigger] s[j])
}

proof fn lemma_blob_less_transitive(a: RefBlob, b: RefBlob, c: RefBlob)
    requires
        blob_less(a, b),
        blob_less(b, c),
    ensures
        blob_less(a, c),
{
    if text_less(a.0, b.0) && text_less(b.0, c.0) {
        lemma_less_transitive(a.0, b.0, c.0);
    } else if text_less(a.1, b.1) && text_less(b.1, c.1) && a.0 == b.0 && b.0 == c.0 {
        lemma_less_transitive(a.1, b.1, c.1);
    }
}

proof fn lemma_blob_less_total(a: RefBlob, b: RefBlob)
    requires
        a != b,
    ensures
        blob_less(a, b) || blob_less(b, a),
{
    if a.0 != b.0 {
        lemma_less_total(a.0, b.0);
    } else {
        lemma_less_total(a.1, b.1);
    }
}

/// Compares two ref blobs.
fn blob_before(a: &(String, String), b: &(String, String)) -> (r: bool)
    ensures
        r == blob_less((a.0@, a.1@), (b.0@, b.1@)),
{
    let a0 = chars_of(a.0.as_str());
    let b0 = chars_of(b.0.as_str());
    if chars_less(&a0, &b0) {
        return true;
    }
    if !same_text(a.0.as_str(), b.0.as_str()) {
        return false;
    }
    let a1 = chars_of(a.1.as_str());
    let b1 = chars_of(b.1.as_str());
    chars_less(&a1, &b1)
}

/// Adds a ref blob to an ascending list unless it is there already.
fn insert_blob(blobs: &mut Vec<(String, String)>, x: (String, String))
    requires
        blobs_ascending(blobs_view(old(blobs)@)),
    ensures
        blobs_ascending(blobs_view(final(blobs)@)),
        forall|p: RefBlob| blobs_view(final(blobs)@).contains(p) <==> (blobs_view(old(blobs)@).contains(p) || p == (x.0@, x.1@)),
{
    let ghost before = blobs_view(blobs@);
    let ghost xv = (x.0@, x.1@);
    let mut p: usize = 0;
    while p < blobs.len()
        invariant
            p <= blobs.len(),
            blobs_view(blobs@) == before,
            blobs_ascending(before),
            xv == (x.0@, x.1@),
            forall|k: int| 0 <= k < p ==> blob_less(#[trigger] before[k], xv),
        ensures
            p <= blobs.len(),
            forall|k: int| 0 <= k < p ==> blob_less(#[trigger] before[k], xv),
            p < blobs.len() ==> !blob_less(before[p as int], xv),
        decreases blobs.len() - p,
    {
        assert(before[p as int] == (blobs@[p as int].0@, blobs@[p as int].1@));
        if !blob_before(&blobs[p], &x) {
            break;
        }
        p = p + 1;
    }
    if p < blobs.len() {
        assert(before[p as int] == (blobs@[p as int].0@, blobs@[p as int].1@));
        if !blob_before(&x, &blobs[p]) {
            proof {
                if before[p as int] != xv {
                    lemma_blob_less_total(before[p as int], xv);
                }
                assert forall|q: RefBlob| before.contains(q) || q == xv implies before.contains(q) by {
                    if q == xv {
                        assert(before[p as int] == q);
                    }
                }
            }
            return;
        }
    }
    blobs.insert(p, x);
    proof {
        let after = blobs_view(blobs@);
        assert(after =~= before.insert(p as int, xv));
        assert forall|i: int, j: int| 0 <= i < j < after.len() implies blob_less(#[trigger] after[i], #[trigger] after[j]) by {
            if i == p {
                if j - 1 > p {
                    lemma_blob_less_transitive(xv, before[p as int], before[j - 1]);
                }
            } else if j == p {
            } else if i < p && j > p {
                assert(after[j] == before[j - 1]);
            }
        }
        assert forall|q: RefBlob| after.contains(q) <==> (before.contains(q) || q == xv) by {
            if after.contains(q) {
                let k = choose|k: int| 0 <= k < after.len() && after[k] == q;
                if k < p {
                    assert(before[k] == q);
                } else if k > p {
                    assert(before[k - 1] == q);
                }
            }
            if before.contains(q) {
                let k = choose|k: int| 0 <= k < before.len() && before[k] == q;
                if k < p {
                    assert(after[k] == q);
                } else {
                    assert(after[k + 1] == q);
                }
            }
            if q == xv {
                assert(after[p as int] == q);
            }
        }
    }
}

/// The distinct ref blobs that rev-list output `out` reports, ascending by
/// Git object ID and path, or the first error reading it.
pub fn ref_blobs(out: &[u8]) -> (r: Result<Vec<(String, String)>, GcError>)
    ensures
        match rev_list_blobs(out@) {
            Ok(f) => r matches Ok(v) && blobs_ascending(blobs_view(v@))
                && forall|p: RefBlob| blobs_view(v@).contains(p) <==> f.contains(p),
            Err(e) => r == Err::<Vec<(String, String)>, GcError>(e),
        },
{
    let found = match scan_rev_list(out) {
        Ok(found) => found,
        Err(e) => return Err(e),
    };
    let ghost all = blobs_view(found@);
    let mut blobs: Vec<(String, String)> = Vec::new();
    let mut i: usize = 0;
    while i < found.len()
        invariant
            i <= found.len(),
            all == blobs_view(found@),
            blobs_ascending(blobs_view(blobs@)),
            forall|p: RefBlob| blobs_view(blobs@).contains(p) <==> all.take(i as int).contains(p),
        decreases found.len() - i,
    {
        let ghost before = blobs_view(blobs@);
        let x = (copy_string(&found[i].0), copy_string(&found[i].1));
        insert_blob(&mut blobs, x);
        proof {
            assert(all.take(i + 1) =~= all.take(i as int).push(all[i as int]));
            let prev = all.take(i as int);
            let next = all.take(i + 1);
            assert forall|p: RefBlob| blobs_view(blobs@).contains(p) <==> next.contains(p) by {
                if prev.contains(p) {
                    let k = choose|k: int| 0 <= k < prev.len() && prev[k] == p;
                    assert(next[k] == p);
                }
                if next.contains(p) {
                    let k = choose|k: int| 0 <= k < next.len() && next[k] == p;
                    if k < i {
                        assert(prev[k] == p);
                    }
                }
                if p == all[i as int] {
                    assert(next[i as int] == p);
                }
            }
        }
        i = i + 1;
    }
    assert(all.take(all.len() as int) =~= all);
    Ok(blobs)
}

fn copy_string(s: &String) -> (r: String)
    ensures
        r@ == s@,
{
    crate::text::copy_str(s.as_str())
}

} // verus!

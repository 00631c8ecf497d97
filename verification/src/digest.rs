//! SHA-256 object digests.

use vstd::prelude::*;
use crate::model::{ModelError, ObjectId, is_canonical_hex, is_hex_digit, is_lower_hex_digit};
use crate::text::push_char;

verus! {

/// Holds a `sha2::Sha256` hasher. Verus refuses a declaration of that type
/// (an alias of a deeply generic wrapper), so the hasher is kept opaque here;
/// `Sha256State` tracks what it has absorbed.
#[verifier::external_body]
struct HasherCell {
    hasher: sha2::Sha256,
}

/// The SHA-256 digest of `data`, as computed by the `sha2` crate.
pub uninterp spec fn sha256_digest(data: Seq<u8>) -> Seq<u8>;

/// A streaming SHA-256 computation over the bytes fed to it so far.
pub struct Sha256State {
    cell: HasherCell,
    fed: Ghost<Seq<u8>>,
}

impl Sha256State {
    /// The bytes fed so far.
    pub closed spec fn fed(&self) -> Seq<u8> {
        self.fed@
    }

    /// Starts a computation (`sha2::Sha256::new`); nothing has been fed.
    #[verifier::external_body]
    pub(crate) fn new() -> (r: Sha256State)
        ensures
            r.fed() == Seq::<u8>::empty(),
    {
        Sha256State { cell: HasherCell { hasher: <sha2::Sha256 as sha2::Digest>::new() }, fed: Ghost(Seq::empty()) }
    }

    /// Feeds `data` (`sha2::Digest::update`): the fed bytes grow by `data`.
    #[verifier::external_body]
    pub(crate) fn update(&mut self, data: &[u8])
        ensures
            final(self).fed() == old(self).fed() + data@,
    {
        sha2::Digest::update(&mut self.cell.hasher, data);
    }

    /// Finishes the computation (`sha2::Digest::finalize`): the 32-byte
    /// digest of everything fed.
    #[verifier::external_body]
    pub(crate) fn finalize(self) -> (r: Vec<u8>)
        ensures
            r@ == sha256_digest(self.fed()),
            r@.len() == 32,
    {
        sha2::Digest::finalize(self.cell.hasher).to_vec()
    }
}

} // verus!

verus! {

/// The lowercase hex digit for a value below 16.
pub open spec fn hex_digit_char(n: u8) -> char {
    if n < 10 {
        ((48 + n) as u8) as char
    } else {
        ((87 + n) as u8) as char
    }
}

/// Bytes written as lowercase hex, two digits per byte, high nibble first.
pub open spec fn hex_text(bytes: Seq<u8>) -> Seq<char>
    decreases bytes.len(),
{
    if bytes.len() == 0 {
        Seq::empty()
    } else {
        hex_text(bytes.drop_last()) + seq![
            hex_digit_char(bytes.last() / 16),
            hex_digit_char(bytes.last() % 16),
        ]
    }
}

/// The object ID digits of content `data`: its SHA-256 digest in lowercase hex.
pub open spec fn object_hex_of(data: Seq<u8>) -> Seq<char> {
    hex_text(sha256_digest(data))
}

fn hex_digit(n: u8) -> (c: char)
    requires
        n < 16,
    ensures
        c == hex_digit_char(n),
        is_lower_hex_digit(c),
{
    if n < 10 {
        (48 + n) as char
    } else {
        (87 + n) as char
    }
}

proof fn lemma_hex_text_len(bytes: Seq<u8>)
    ensures
        hex_text(bytes).len() == 2 * bytes.len(),
    decreases bytes.len(),
{
    if bytes.len() > 0 {
        lemma_hex_text_len(bytes.drop_last());
    }
}

proof fn lemma_hex_text_lower(bytes: Seq<u8>)
    ensures
        forall|i: int| 0 <= i < hex_text(bytes).len() ==> is_lower_hex_digit(#[trigger] hex_text(bytes)[i]),
    decreases bytes.len(),
{
    if bytes.len() > 0 {
        lemma_hex_text_lower(bytes.drop_last());
        lemma_hex_text_len(bytes.drop_last());
        let prev = hex_text(bytes.drop_last());
        let b = bytes.last();
        assert(b / 16 < 16 && b % 16 < 16);
        assert forall|i: int| 0 <= i < hex_text(bytes).len() implies is_lower_hex_digit(#[trigger] hex_text(bytes)[i]) by {
            if i < prev.len() {
                assert(hex_text(bytes)[i] == prev[i]);
            } else if i == prev.len() {
                assert(hex_text(bytes)[i] == hex_digit_char(b / 16));
            } else {
                assert(hex_text(bytes)[i] == hex_digit_char(b % 16));
            }
        }
    }
}

/// Hex text of 32 bytes is a canonical object digest.
pub proof fn lemma_digest_hex_canonical(bytes: Seq<u8>)
    requires
        bytes.len() == 32,
    ensures
        is_canonical_hex(hex_text(bytes)),
{
    lemma_hex_text_len(bytes);
    lemma_hex_text_lower(bytes);
}

/// Writes bytes as lowercase hex, two digits per byte.
pub fn to_hex(bytes: &Vec<u8>) -> (out: String)
    ensures
        out@ == hex_text(bytes@),
{
    let mut out = String::new();
    for i in 0..bytes.len()
        invariant
            out@ == hex_text(bytes@.take(i as int)),
    {
        let b = bytes[i];
        push_char(&mut out, hex_digit(b / 16));
        push_char(&mut out, hex_digit(b % 16));
        assert(bytes@.take(i + 1).drop_last() =~= bytes@.take(i as int));
    }
    assert(bytes@.take(bytes.len() as int) =~= bytes@);
    out
}

/// Completes a digest into an object ID: the hex of the SHA-256 of every
/// byte fed to `hasher`. Never fails.
pub fn finalize_sha256(hasher: Sha256State) -> (r: Result<ObjectId, ModelError>)
    ensures
        r matches Ok(oid) && oid@ == object_hex_of(hasher.fed()),
{
    let ghost fed = hasher.fed();
    let digest = hasher.finalize();
    let hex = to_hex(&digest);
    proof {
        lemma_digest_hex_canonical(digest@);
        assert forall|i: int| 0 <= i < hex@.len() implies is_hex_digit(#[trigger] hex@[i]) by {
            assert(is_lower_hex_digit(hex@[i]));
        }
        crate::model::lemma_lower_canonical(hex@);
    }
    ObjectId::from_sha256_hex(hex)
}

/// Hashes content as it streams by, counting its bytes.
pub struct ContentHasher {
    state: Sha256State,
    size: u64,
}

impl ContentHasher {
    /// All bytes fed so far.
    pub closed spec fn fed(&self) -> Seq<u8> {
        self.state.fed()
    }

    /// The number of bytes fed so far.
    pub closed spec fn size(&self) -> u64 {
        self.size
    }

    /// The hasher's invariant: the count is the number of bytes fed.
    pub closed spec fn wf(&self) -> bool {
        self.size == self.state.fed().len()
    }

    /// A hasher that has seen nothing.
    pub fn new() -> (r: ContentHasher)
        ensures
            r.wf(),
            r.fed() == Seq::<u8>::empty(),
    {
        ContentHasher { state: Sha256State::new(), size: 0 }
    }

    /// Feeds the next chunk of content.
    pub fn update(&mut self, chunk: &[u8])
        requires
            old(self).wf(),
            old(self).size() + chunk@.len() <= u64::MAX,
        ensures
            final(self).wf(),
            final(self).fed() == old(self).fed() + chunk@,
            final(self).size() == old(self).size() + chunk@.len(),
    {
        self.state.update(chunk);
        self.size = self.size + chunk.len() as u64;
    }

    /// The object ID and size of everything fed.
    pub fn finish(self) -> (r: (ObjectId, u64))
        requires
            self.wf(),
        ensures
            r.0@ == object_hex_of(self.fed()),
            r.1 == self.fed().len(),
    {
        let size = self.size;
        match finalize_sha256(self.state) {
            Ok(oid) => (oid, size),
            Err(_) => {
                assert(false);
                (ObjectId::from_sha256_hex(String::new()).unwrap(), size)
            }
        }
    }
}

} // verus!

//! The decisions of remote garbage collection: which stored objects no
//! Git-reachable ref uses, and when deleting them is safe.

use vstd::prelude::*;
use crate::model::{BlobKey, ObjectId, blob_key_text, is_canonical_hex, is_lower_hex_digit, objects_segment};
use crate::order::{chars_less, lemma_less_asymmetric, lemma_less_irreflexive, lemma_less_total, lemma_less_transitive, text_less};
use crate::text::{chars_of, copy_str, starts_with_chars, string_of};

verus! {

/// Whether a sequence of objects is strictly ascending by object ID.
pub open spec fn ascending(s: Seq<(ObjectId, u64)>) -> bool {
    forall|i: int, j: int| 0 <= i < j < s.len() ==> text_less(#[trigger] s[i].0@, #[trigger] s[j].0@)
}

/// The object-to-size map a sequence of entries describes.
pub open spec fn entries_map(s: Seq<(ObjectId, u64)>) -> Map<Seq<char>, u64> {
    Map::new(
        |k: Seq<char>| exists|i: int| 0 <= i < s.len() && #[trigger] s[i].0@ == k,
        |k: Seq<char>| s[choose|i: int| 0 <= i < s.len() && #[trigger] s[i].0@ == k].1,
    )
}

/// Object sizes keyed by object ID, kept in ascending ID order, each ID once.
pub struct ObjectSizes {
    entries: Vec<(ObjectId, u64)>,
}

impl View for ObjectSizes {
    type V = Map<Seq<char>, u64>;

    closed spec fn view(&self) -> Map<Seq<char>, u64> {
        entries_map(self.entries@)
    }
}

proof fn lemma_ascending_distinct(s: Seq<(ObjectId, u64)>, i: int, j: int)
    requires
        ascending(s),
        0 <= i < s.len(),
        0 <= j < s.len(),
        s[i].0@ == s[j].0@,
    ensures
        i == j,
{
    if i < j {
        lemma_less_irreflexive(s[i].0@);
    } else if j < i {
        lemma_less_irreflexive(s[i].0@);
    }
}

impl ObjectSizes {
    /// The entries in ascending ID order.
    pub closed spec fn seq(&self) -> Seq<(ObjectId, u64)> {
        self.entries@
    }

    /// Entries are strictly ascending by ID.
    pub closed spec fn wf(&self) -> bool {
        ascending(self.entries@)
    }

    /// No objects.
    pub fn new() -> (r: ObjectSizes)
        ensures
            r.wf(),
            r@ == Map::<Seq<char>, u64>::empty(),
            r.seq() == Seq::<(ObjectId, u64)>::empty(),
    {
        let r = ObjectSizes { entries: Vec::new() };
        assert(r@ =~= Map::<Seq<char>, u64>::empty());
        r
    }

    /// The entries, ascending by ID; they describe the map exactly.
    pub fn entries(&self) -> (r: &Vec<(ObjectId, u64)>)
        requires
            self.wf(),
        ensures
            r@ == self.seq(),
            ascending(r@),
            entries_map(r@) == self@,
    {
        &self.entries
    }

    /// Where `oid` is or would go: the first position whose ID does not sort
    /// before it.
    fn position(&self, oid: &ObjectId) -> (r: usize)
        requires
            self.wf(),
        ensures
            r <= self.entries@.len(),
            forall|j: int| 0 <= j < r ==> text_less(#[trigger] self.entries@[j].0@, oid@),
            forall|j: int| r <= j < self.entries@.len() ==> !text_less(#[trigger] self.entries@[j].0@, oid@),
    {
        let target = chars_of(oid.hex());
        let mut lo: usize = 0;
        let mut hi: usize = self.entries.len();
        while lo < hi
            invariant
                self.wf(),
                target@ == oid@,
                lo <= hi <= self.entries@.len(),
                forall|j: int| 0 <= j < lo ==> text_less(#[trigger] self.entries@[j].0@, oid@),
                forall|j: int| hi <= j < self.entries@.len() ==> !text_less(#[trigger] self.entries@[j].0@, oid@),
            decreases hi - lo,
        {
            let mid = lo + (hi - lo) / 2;
            let here = chars_of(self.entries[mid].0.hex());
            if chars_less(&here, &target) {
                proof {
                    assert forall|j: int| 0 <= j <= mid implies text_less(#[trigger] self.entries@[j].0@, oid@) by {
                        if j < mid {
                            lemma_less_transitive(self.entries@[j].0@, self.entries@[mid as int].0@, oid@);
                        }
                    }
                }
                lo = mid + 1;
            } else {
                proof {
                    assert forall|j: int| mid <= j < self.entries@.len() implies !text_less(#[trigger] self.entries@[j].0@, oid@) by {
                        if j > mid && text_less(self.entries@[j].0@, oid@) {
                            lemma_less_transitive(self.entries@[mid as int].0@, self.entries@[j].0@, oid@);
                        }
                    }
                }
                hi = mid;
            }
        }
        lo
    }

    /// The size recorded for `oid`, if any.
    pub fn find(&self, oid: &ObjectId) -> (r: Option<u64>)
        requires
            self.wf(),
        ensures
            match r {
                Some(size) => self@.contains_key(oid@) && self@[oid@] == size,
                None => !self@.contains_key(oid@),
            },
    {
        let at = self.position(oid);
        if at < self.entries.len() && self.entries[at].0.same_as(oid) {
            proof {
                let k = choose|i: int| 0 <= i < self.entries@.len() && #[trigger] self.entries@[i].0@ == oid@;
                lemma_ascending_distinct(self.entries@, k, at as int);
            }
            Some(self.entries[at].1)
        } else {
            proof {
                if self@.contains_key(oid@) {
                    let k = choose|i: int| 0 <= i < self.entries@.len() && #[trigger] self.entries@[i].0@ == oid@;
                    lemma_less_irreflexive(oid@);
                    if k > at as int {
                        lemma_less_total(self.entries@[at as int].0@, oid@);
                        lemma_less_transitive(oid@, self.entries@[at as int].0@, self.entries@[k].0@);
                    }
                }
            }
            None
        }
    }

    /// Whether `oid` is recorded.
    pub fn contains(&self, oid: &ObjectId) -> (r: bool)
        requires
            self.wf(),
        ensures
            r == self@.contains_key(oid@),
    {
        self.find(oid).is_some()
    }

    /// Records `oid` with `size`, replacing a size recorded earlier.
    pub fn set(&mut self, oid: ObjectId, size: u64)
        requires
            old(self).wf(),
        ensures
            final(self).wf(),
            final(self)@ == old(self)@.insert(oid@, size),
    {
        let at = self.position(&oid);
        let ghost before = self.entries@;
        if at < self.entries.len() && self.entries[at].0.same_as(&oid) {
            let ghost key = oid@;
            self.entries.set(at, (oid, size));
            proof {
                let e = self.entries@;
                assert(ascending(e)) by {
                    assert forall|i: int, j: int| 0 <= i < j < e.len() implies text_less(#[trigger] e[i].0@, #[trigger] e[j].0@) by {
                        assert(before[i].0@ == e[i].0@);
                        assert(before[j].0@ == e[j].0@);
                    }
                }
                assert(e =~= before.update(at as int, e[at as int]));
                self.lemma_insert_view(before, at as int, key, size, false);
            }
        } else {
            let ghost key = oid@;
            self.entries.insert(at, (oid, size));
            proof {
                let e = self.entries@;
                if at < before.len() {
                    lemma_less_total(before[at as int].0@, key);
                }
                assert(ascending(e)) by {
                    assert forall|i: int, j: int| 0 <= i < j < e.len() implies text_less(#[trigger] e[i].0@, #[trigger] e[j].0@) by {
                        if j < at {
                        } else if j == at {
                        } else if i == at {
                            if j > at + 1 {
                                lemma_less_transitive(key, before[at as int].0@, before[j - 1].0@);
                            }
                        } else if i < at {
                            assert(text_less(key, before[j - 1].0@)) by {
                                if j - 1 > at {
                                    lemma_less_transitive(key, before[at as int].0@, before[j - 1].0@);
                                }
                            }
                            lemma_less_transitive(before[i].0@, key, before[j - 1].0@);
                        }
                    }
                }
                assert forall|j: int| 0 <= j < before.len() implies before[j].0@ != key by {
                    lemma_less_irreflexive(key);
                    if j > at {
                        lemma_less_transitive(key, before[at as int].0@, before[j].0@);
                    }
                }
                assert(e =~= before.insert(at as int, e[at as int]));
                self.lemma_insert_view(before, at as int, key, size, true);
            }
        }
    }

    proof fn lemma_insert_view(&self, before: Seq<(ObjectId, u64)>, at: int, key: Seq<char>, size: u64, inserted: bool)
        requires
            ascending(before),
            ascending(self.entries@),
            0 <= at <= before.len(),
            inserted ==> self.entries@ == before.insert(at, self.entries@[at]),
            !inserted ==> at < before.len() && before[at].0@ == key && self.entries@ == before.update(at, self.entries@[at]),
            self.entries@[at].0@ == key,
            self.entries@[at].1 == size,
            inserted ==> forall|j: int| 0 <= j < before.len() ==> before[j].0@ != key,
        ensures
            self@ == entries_map(before).insert(key, size),
    {
        let e = self.entries@;
        let m = entries_map(before).insert(key, size);
        assert forall|k: Seq<char>| #[trigger] self@.contains_key(k) == m.contains_key(k) by {
            if k != key {
                if entries_map(before).contains_key(k) {
                    let j = choose|j: int| 0 <= j < before.len() && #[trigger] before[j].0@ == k;
                    if inserted {
                        if j < at { assert(e[j].0@ == k); } else { assert(e[j + 1].0@ == k); }
                    } else {
                        assert(j != at);
                        assert(e[j].0@ == k);
                    }
                }
                if self@.contains_key(k) {
                    let i = choose|i: int| 0 <= i < e.len() && #[trigger] e[i].0@ == k;
                    if inserted {
                        if i < at { assert(before[i].0@ == k); } else { assert(i != at); assert(before[i - 1].0@ == k); }
                    } else {
                        assert(before[i].0@ == k);
                    }
                }
            } else {
                assert(e[at].0@ == k);
            }
        }
        assert forall|k: Seq<char>| #[trigger] self@.contains_key(k) implies self@[k] == m[k] by {
            let i = choose|i: int| 0 <= i < e.len() && #[trigger] e[i].0@ == k;
            if k == key {
                lemma_ascending_distinct(e, i, at);
            } else {
                let j = choose|j: int| 0 <= j < before.len() && #[trigger] before[j].0@ == k;
                if inserted {
                    if j < at {
                        lemma_ascending_distinct(e, i, j);
                    } else {
                        lemma_ascending_distinct(e, i, j + 1);
                    }
                } else {
                    assert(j != at);
                    lemma_ascending_distinct(e, i, j);
                }
            }
        }
        assert(self@ =~= m);
    }
}

} // verus!

verus! {

/// Why garbage collection stopped.
#[derive(Debug, Clone, PartialEq, Eq)]
pub enum GcError {
    /// The grace period in seconds does not fit in 64 bits.
    GraceTooLarge,
    /// Subtracting the grace period leaves the range of the system clock.
    GracePredatesClock,
    /// Two committed refs give one object two sizes.
    SizeDisagreement { oid: ObjectId, first: u64, second: u64 },
    /// Git printed an object ID that is not UTF-8.
    NonUtf8ObjectId,
    /// Git printed a ref path with no object ID before it.
    RefPathWithoutObjectId,
}

impl ObjectSizes {
    /// Records that a committed ref gives `oid` the size `size`; a second
    /// ref giving it another size is an error and changes nothing.
    pub fn record(&mut self, oid: ObjectId, size: u64) -> (r: Result<(), GcError>)
        requires
            old(self).wf(),
        ensures
            final(self).wf(),
            old(self)@.contains_key(oid@) ==> final(self)@ == old(self)@,
            old(self)@.contains_key(oid@) ==> (r is Ok <==> old(self)@[oid@] == size),
            old(self)@.contains_key(oid@) && r is Err ==> (r matches Err(GcError::SizeDisagreement { oid: o, first, second })
                && o@ == oid@ && first == old(self)@[oid@] && second == size),
            !old(self)@.contains_key(oid@) ==> r is Ok && final(self)@ == old(self)@.insert(oid@, size),
    {
        match self.find(&oid) {
            Some(existing) => {
                if existing != size {
                    Err(GcError::SizeDisagreement { oid, first: existing, second: size })
                } else {
                    Ok(())
                }
            },
            None => {
                self.set(oid, size);
                Ok(())
            },
        }
    }
}

/// The object whose canonical key in project `name` is `key`, if any.
pub open spec fn key_object(name: Seq<char>, key: Seq<char>) -> Option<Seq<char>> {
    if exists|h: Seq<char>| is_canonical_hex(h) && key == #[trigger] blob_key_text(name, h) {
        Some(choose|h: Seq<char>| is_canonical_hex(h) && key == #[trigger] blob_key_text(name, h))
    } else {
        None
    }
}

proof fn lemma_key_parts(name: Seq<char>, h: Seq<char>)
    requires
        h.len() == 64,
    ensures
        blob_key_text(name, h).len() == name.len() + 81,
        blob_key_text(name, h).take(name.len() as int + 16) == name + objects_segment(),
        blob_key_text(name, h)[name.len() as int + 18] == '/',
        blob_key_text(name, h).subrange(name.len() as int + 16, name.len() as int + 18) == h.take(2),
        blob_key_text(name, h).subrange(name.len() as int + 19, name.len() as int + 81) == h.skip(2),
{
    let t = blob_key_text(name, h);
    let n = name.len() as int;
    assert(t.take(n + 16) =~= name + objects_segment());
    assert(t.subrange(n + 16, n + 18) =~= h.take(2));
    assert(t.subrange(n + 19, n + 81) =~= h.skip(2));
}

proof fn lemma_key_injective(name: Seq<char>, h1: Seq<char>, h2: Seq<char>)
    requires
        h1.len() == 64,
        h2.len() == 64,
        blob_key_text(name, h1) == blob_key_text(name, h2),
    ensures
        h1 == h2,
{
    lemma_key_parts(name, h1);
    lemma_key_parts(name, h2);
    assert(h1 =~= h1.take(2) + h1.skip(2));
    assert(h2 =~= h2.take(2) + h2.skip(2));
}

/// The canonical key of an object names that object and no other: reading
/// the key of object `h` in project `name` gives back `h`.
pub proof fn law_key_names_its_object(name: Seq<char>, h: Seq<char>)
    requires
        is_canonical_hex(h),
    ensures
        key_object(name, blob_key_text(name, h)) == Some(h),
{
    let key = blob_key_text(name, h);
    assert(is_canonical_hex(h) && key == blob_key_text(name, h));
    let k = choose|k: Seq<char>| is_canonical_hex(k) && key == #[trigger] blob_key_text(name, k);
    lemma_key_injective(name, h, k);
}

/// The object a remote key names in project `name`: the key must be
/// exactly `<name>/objects/sha256/<2 hex>/<62 hex>` in lowercase.
pub fn canonical_object_id(name: &str, key: &str) -> (r: Option<ObjectId>)
    ensures
        match r {
            Some(o) => key_object(name@, key@) == Some(o@) && key@ == blob_key_text(name@, o@),
            None => key_object(name@, key@) is None,
        },
{
    let cs = chars_of(key);
    let mut prefix = chars_of(name);
    let segment = crate::model::objects_segment_chars();
    let mut i: usize = 0;
    while i < segment.len()
        invariant
            prefix@ == name@ + segment@.take(i as int),
            i <= segment.len(),
        decreases segment.len() - i,
    {
        prefix.push(segment[i]);
        assert(segment@.take(i + 1) =~= segment@.take(i as int).push(segment@[i as int]));
        i = i + 1;
    }
    assert(segment@.take(16) =~= objects_segment());
    let n = prefix.len();
    proof {
        if exists|h: Seq<char>| is_canonical_hex(h) && key@ == #[trigger] blob_key_text(name@, h) {
            let h = choose|h: Seq<char>| is_canonical_hex(h) && key@ == #[trigger] blob_key_text(name@, h);
            lemma_key_parts(name@, h);
        }
    }
    if !starts_with_chars(&cs, &prefix) || cs.len() - n != 65 || cs[n + 2] != '/' {
        return None;
    }
    let mut hex: Vec<char> = Vec::new();
    let mut j: usize = n;
    while j < n + 65
        invariant
            n + 65 == cs.len(),
            cs@ == key@,
            n == name@.len() + 16,
            n <= j <= n + 65,
            j != n + 2 ==> hex@ == if j <= n + 2 { cs@.subrange(n as int, j as int) } else { cs@.subrange(n as int, n + 2) + cs@.subrange(n + 3, j as int) },
            j == n + 2 ==> hex@ == cs@.subrange(n as int, n + 2),
            forall|k: int| 0 <= k < hex@.len() ==> is_lower_hex_digit(#[trigger] hex@[k]),
        decreases n + 65 - j,
    {
        if j != n + 2 {
            let c = cs[j];
            if !(('0' <= c && c <= '9') || ('a' <= c && c <= 'f')) {
                proof {
                    if exists|h: Seq<char>| is_canonical_hex(h) && key@ == #[trigger] blob_key_text(name@, h) {
                        let h = choose|h: Seq<char>| is_canonical_hex(h) && key@ == #[trigger] blob_key_text(name@, h);
                        lemma_key_parts(name@, h);
                        if j < n + 2 {
                            assert(cs@.subrange(n as int, n + 2)[j - n] == c);
                            assert(is_lower_hex_digit(h[j - n]));
                        } else {
                            assert(cs@.subrange(n + 3, n + 65)[j - n - 3] == c);
                            assert(h.skip(2)[j - n - 3] == h[j - n - 1]);
                            assert(is_lower_hex_digit(h[j - n - 1]));
                        }
                    }
                }
                return None;
            }
            hex.push(c);
            proof {
                if j < n + 2 {
                    assert(cs@.subrange(n as int, j + 1) =~= cs@.subrange(n as int, j as int).push(c));
                } else if j == n + 3 {
                    assert(cs@.subrange(n + 3, j + 1) =~= seq![c]);
                    assert(cs@.subrange(n as int, n + 2) + cs@.subrange(n + 3, j + 1) =~= cs@.subrange(n as int, n + 2).push(c));
                } else {
                    assert(cs@.subrange(n + 3, j + 1) =~= cs@.subrange(n + 3, j as int).push(c));
                    assert(cs@.subrange(n as int, n + 2) + cs@.subrange(n + 3, j + 1) =~= (cs@.subrange(n as int, n + 2) + cs@.subrange(n + 3, j as int)).push(c));
                }
            }
        } else {
            assert(cs@.subrange(n + 3, n + 3) =~= Seq::<char>::empty());
            assert(cs@.subrange(n as int, n + 2) + cs@.subrange(n + 3, n + 3) =~= cs@.subrange(n as int, n + 2));
        }
        j = j + 1;
    }
    let ghost h = hex@;
    assert(h.len() == 64);
    assert(is_canonical_hex(h));
    assert(key@ == blob_key_text(name@, h)) by {
        assert(h.take(2) =~= cs@.subrange(n as int, n + 2));
        assert(h.skip(2) =~= cs@.subrange(n + 3, n + 65));
        assert(cs@.take(n as int) == name@ + objects_segment());
        assert(cs@ =~= blob_key_text(name@, h));
    }
    let text = string_of(&hex);
    proof {
        crate::model::lemma_lower_canonical(h);
        let k = choose|k: Seq<char>| is_canonical_hex(k) && key@ == #[trigger] blob_key_text(name@, k);
        lemma_key_injective(name@, h, k);
    }
    match ObjectId::from_sha256_hex(text) {
        Ok(oid) => Some(oid),
        Err(_) => None,
    }
}

} // verus!

verus! {

/// A remote object as an inventory lists it; `modified_at` counts
/// nanoseconds since the Unix epoch.
pub struct InventoryObject {
    pub key: String,
    pub size: u64,
    pub modified_at: Option<i128>,
}

/// An unreferenced remote object old enough to delete.
pub struct Candidate {
    pub key: BlobKey,
    pub oid: ObjectId,
    pub size: u64,
}

impl View for Candidate {
    type V = (Seq<char>, Seq<char>, u64);

    open spec fn view(&self) -> (Seq<char>, Seq<char>, u64) {
        (self.key@, self.oid@, self.size)
    }
}

impl Candidate {
    /// A copy of this candidate.
    pub fn duplicate(&self) -> (r: Candidate)
        ensures
            r@ == self@,
    {
        Candidate { key: self.key.duplicate(), oid: self.oid.duplicate(), size: self.size }
    }
}

/// What garbage collection makes of one remote object.
pub enum ObjectClass {
    /// Unreferenced and last modified no later than the cutoff.
    Candidate(Candidate),
    /// A committed ref names it.
    Referenced,
    /// Modified after the cutoff.
    Recent,
    /// Its key is not a canonical object key of this project.
    Unknown,
    /// The inventory gave no modification time.
    MissingTime,
}

/// The class of a remote object, without its payload.
#[derive(PartialEq, Eq, Structural, Clone, Copy, Debug)]
pub enum ObjectKind {
    Candidate,
    Referenced,
    Recent,
    Unknown,
    MissingTime,
}

/// How garbage collection classifies a remote object with key `key` and
/// modification time `modified_at`, given the referenced objects and the
/// cutoff time.
pub open spec fn kind_of(name: Seq<char>, referenced: Map<Seq<char>, u64>, cutoff: i128, key: Seq<char>, modified_at: Option<i128>) -> ObjectKind {
    match key_object(name, key) {
        None => ObjectKind::Unknown,
        Some(h) => if referenced.contains_key(h) {
            ObjectKind::Referenced
        } else {
            match modified_at {
                None => ObjectKind::MissingTime,
                Some(t) => if t > cutoff { ObjectKind::Recent } else { ObjectKind::Candidate },
            }
        },
    }
}

impl ObjectClass {
    /// The kind of this class.
    pub open spec fn kind(&self) -> ObjectKind {
        match self {
            ObjectClass::Candidate(_) => ObjectKind::Candidate,
            ObjectClass::Referenced => ObjectKind::Referenced,
            ObjectClass::Recent => ObjectKind::Recent,
            ObjectClass::Unknown => ObjectKind::Unknown,
            ObjectClass::MissingTime => ObjectKind::MissingTime,
        }
    }
}

/// Classifies one remote object of project `name`.
pub fn classify_object(name: &str, object: &InventoryObject, referenced: &ObjectSizes, cutoff: i128) -> (r: ObjectClass)
    requires
        referenced.wf(),
    ensures
        r.kind() == kind_of(name@, referenced@, cutoff, object.key@, object.modified_at),
        r matches ObjectClass::Candidate(c) ==> c@ == (object.key@, key_object(name@, object.key@)->0, object.size),
{
    let oid = match canonical_object_id(name, object.key.as_str()) {
        Some(oid) => oid,
        None => return ObjectClass::Unknown,
    };
    if referenced.contains(&oid) {
        return ObjectClass::Referenced;
    }
    match object.modified_at {
        None => ObjectClass::MissingTime,
        Some(t) => if t > cutoff {
            ObjectClass::Recent
        } else {
            ObjectClass::Candidate(Candidate { key: BlobKey(copy_str(object.key.as_str())), oid, size: object.size })
        },
    }
}

} // verus!

verus! {

/// The sizes of the canonical remote objects, by object ID; where a listing
/// names one object twice, the later entry counts.
pub open spec fn remote_sizes(name: Seq<char>, objects: Seq<InventoryObject>) -> Map<Seq<char>, u64>
    decreases objects.len(),
{
    if objects.len() == 0 {
        Map::empty()
    } else {
        let m = remote_sizes(name, objects.drop_last());
        match key_object(name, objects.last().key@) {
            Some(h) => m.insert(h, objects.last().size),
            None => m,
        }
    }
}

/// The referenced objects, in order, that the remote store lacks.
pub open spec fn missing_ids(refs: Seq<(ObjectId, u64)>, remote: Map<Seq<char>, u64>) -> Seq<Seq<char>>
    decreases refs.len(),
{
    if refs.len() == 0 {
        Seq::empty()
    } else {
        let rest = missing_ids(refs.drop_last(), remote);
        if remote.contains_key(refs.last().0@) {
            rest
        } else {
            rest.push(refs.last().0@)
        }
    }
}

/// The referenced objects, in order, stored remotely with another size:
/// each with the size the refs give and the size stored.
pub open spec fn size_mismatches(refs: Seq<(ObjectId, u64)>, remote: Map<Seq<char>, u64>) -> Seq<(Seq<char>, u64, u64)>
    decreases refs.len(),
{
    if refs.len() == 0 {
        Seq::empty()
    } else {
        let rest = size_mismatches(refs.drop_last(), remote);
        let (oid, expected) = refs.last();
        if remote.contains_key(oid@) && remote[oid@] != expected {
            rest.push((oid@, expected, remote[oid@]))
        } else {
            rest
        }
    }
}

/// How many of `objects` are of kind `kind`.
pub open spec fn count_kind(name: Seq<char>, referenced: Map<Seq<char>, u64>, cutoff: i128, objects: Seq<InventoryObject>, kind: ObjectKind) -> nat
    decreases objects.len(),
{
    if objects.len() == 0 {
        0
    } else {
        let rest = count_kind(name, referenced, cutoff, objects.drop_last(), kind);
        let o = objects.last();
        if kind_of(name, referenced, cutoff, o.key@, o.modified_at) == kind {
            rest + 1
        } else {
            rest
        }
    }
}

/// The deletion candidates among `objects`, in listing order.
pub open spec fn candidates_of(name: Seq<char>, referenced: Map<Seq<char>, u64>, cutoff: i128, objects: Seq<InventoryObject>) -> Seq<(Seq<char>, Seq<char>, u64)>
    decreases objects.len(),
{
    if objects.len() == 0 {
        Seq::empty()
    } else {
        let rest = candidates_of(name, referenced, cutoff, objects.drop_last());
        let o = objects.last();
        if kind_of(name, referenced, cutoff, o.key@, o.modified_at) == ObjectKind::Candidate {
            rest.push((o.key@, key_object(name, o.key@)->0, o.size))
        } else {
            rest
        }
    }
}

/// The views of a sequence of object IDs.
pub open spec fn ids_view(s: Seq<ObjectId>) -> Seq<Seq<char>> {
    s.map_values(|o: ObjectId| o@)
}

/// The views of a sequence of size mismatches.
pub open spec fn mismatches_view(s: Seq<(ObjectId, u64, u64)>) -> Seq<(Seq<char>, u64, u64)> {
    s.map_values(|t: (ObjectId, u64, u64)| (t.0@, t.1, t.2))
}

/// The views of a sequence of candidates.
pub open spec fn candidates_view(s: Seq<Candidate>) -> Seq<(Seq<char>, Seq<char>, u64)> {
    s.map_values(|c: Candidate| c@)
}

/// Whether candidates come in ascending key order.
pub open spec fn sorted_by_key(s: Seq<(Seq<char>, Seq<char>, u64)>) -> bool {
    forall|i: int, j: int| 0 <= i < j < s.len() ==> !text_less(#[trigger] s[j].0, #[trigger] s[i].0)
}

/// Inserts `c` after every candidate whose key does not sort after its key.
fn insert_by_key(cands: &mut Vec<Candidate>, c: Candidate)
    requires
        sorted_by_key(candidates_view(old(cands)@)),
    ensures
        sorted_by_key(candidates_view(final(cands)@)),
        candidates_view(final(cands)@).to_multiset() == candidates_view(old(cands)@).to_multiset().insert(c@),
{
    let ghost before = candidates_view(cands@);
    let key = chars_of(c.key.0.as_str());
    let mut p: usize = 0;
    while p < cands.len()
        invariant
            p <= cands.len(),
            key@ == c.key@,
            candidates_view(cands@) == before,
            sorted_by_key(before),
            forall|k: int| 0 <= k < p ==> !text_less(c.key@, #[trigger] before[k].0),
        ensures
            p <= cands.len(),
            forall|k: int| 0 <= k < p ==> !text_less(c.key@, #[trigger] before[k].0),
            p < cands.len() ==> text_less(c.key@, before[p as int].0),
        decreases cands.len() - p,
    {
        let here = chars_of(cands[p].key.0.as_str());
        assert(before[p as int] == cands@[p as int]@);
        if chars_less(&key, &here) {
            break;
        }
        p = p + 1;
    }
    let ghost cv = c@;
    cands.insert(p, c);
    proof {
        let after = candidates_view(cands@);
        assert(after =~= before.insert(p as int, cv));
        vstd::seq_lib::to_multiset_insert(before, p as int, cv);
        assert forall|i: int, j: int| 0 <= i < j < after.len() implies !text_less(#[trigger] after[j].0, #[trigger] after[i].0) by {
            if i == p {
                if text_less(after[j].0, cv.0) {
                    if j - 1 == p {
                        lemma_less_asymmetric(cv.0, before[p as int].0);
                    } else {
                        assert(!text_less(before[j - 1].0, before[p as int].0));
                        lemma_less_transitive(before[j - 1].0, cv.0, before[p as int].0);
                    }
                }
            } else if j == p {
                assert(!text_less(c.key@, before[i].0));
            } else if i < p && j > p {
                assert(after[j] == before[j - 1]);
            }
        }
    }
}

/// What garbage collection found in the remote inventory.
pub struct GcPlan {
    /// Referenced objects the remote store lacks, in object ID order.
    pub missing_remote: Vec<ObjectId>,
    /// Referenced objects stored with another size: the object, the size the
    /// refs give, the size stored; in object ID order.
    pub invalid_remote: Vec<(ObjectId, u64, u64)>,
    /// Deletion candidates in key order.
    pub candidates: Vec<Candidate>,
    /// Unreferenced objects modified after the cutoff.
    pub recent: usize,
    /// Keys that are no canonical object key of the project.
    pub unknown: usize,
    /// Unreferenced objects listed without a modification time.
    pub missing_time: usize,
}

/// The sizes of the canonical remote objects of project `name`.
pub fn remote_object_sizes(name: &str, remote: &Vec<InventoryObject>) -> (r: ObjectSizes)
    ensures
        r.wf(),
        r@ == remote_sizes(name@, remote@),
{
    let mut sizes = ObjectSizes::new();
    let mut i: usize = 0;
    while i < remote.len()
        invariant
            i <= remote.len(),
            sizes.wf(),
            sizes@ == remote_sizes(name@, remote@.take(i as int)),
        decreases remote.len() - i,
    {
        assert(remote@.take(i + 1).drop_last() =~= remote@.take(i as int));
        assert(remote@.take(i + 1).last() == remote@[i as int]);
        match canonical_object_id(name, remote[i].key.as_str()) {
            Some(oid) => sizes.set(oid, remote[i].size),
            None => {},
        }
        i = i + 1;
    }
    assert(remote@.take(remote@.len() as int) =~= remote@);
    sizes
}

/// Plans garbage collection of project `name`: compares the referenced
/// objects with the remote inventory and classifies every remote object
/// against `cutoff`.
pub fn plan_gc(name: &str, referenced: &ObjectSizes, remote: &Vec<InventoryObject>, cutoff: i128) -> (plan: GcPlan)
    requires
        referenced.wf(),
    ensures
        ids_view(plan.missing_remote@) == missing_ids(referenced.seq(), remote_sizes(name@, remote@)),
        mismatches_view(plan.invalid_remote@) == size_mismatches(referenced.seq(), remote_sizes(name@, remote@)),
        plan.missing_remote.len() + plan.invalid_remote.len() <= referenced.seq().len(),
        sorted_by_key(candidates_view(plan.candidates@)),
        candidates_view(plan.candidates@).to_multiset() == candidates_of(name@, referenced@, cutoff, remote@).to_multiset(),
        plan.recent == count_kind(name@, referenced@, cutoff, remote@, ObjectKind::Recent),
        plan.unknown == count_kind(name@, referenced@, cutoff, remote@, ObjectKind::Unknown),
        plan.missing_time == count_kind(name@, referenced@, cutoff, remote@, ObjectKind::MissingTime),
{
    let remote_map = remote_object_sizes(name, remote);
    let refs = referenced.entries();
    let mut missing: Vec<ObjectId> = Vec::new();
    let mut invalid: Vec<(ObjectId, u64, u64)> = Vec::new();
    let mut i: usize = 0;
    while i < refs.len()
        invariant
            i <= refs.len(),
            remote_map.wf(),
            remote_map@ == remote_sizes(name@, remote@),
            ids_view(missing@) == missing_ids(refs@.take(i as int), remote_map@),
            mismatches_view(invalid@) == size_mismatches(refs@.take(i as int), remote_map@),
            missing.len() + invalid.len() <= i,
        decreases refs.len() - i,
    {
        assert(refs@.take(i + 1).drop_last() =~= refs@.take(i as int));
        assert(refs@.take(i + 1).last() == refs@[i as int]);
        let oid = &refs[i].0;
        let expected = refs[i].1;
        match remote_map.find(oid) {
            None => {
                let ghost old_missing = missing@;
                missing.push(oid.duplicate());
                assert(ids_view(missing@) =~= ids_view(old_missing).push(oid@));
            },
            Some(actual) => {
                if actual != expected {
                    let ghost old_invalid = invalid@;
                    invalid.push((oid.duplicate(), expected, actual));
                    assert(mismatches_view(invalid@) =~= mismatches_view(old_invalid).push((oid@, expected, actual)));
                }
            },
        }
        i = i + 1;
    }
    assert(refs@.take(refs@.len() as int) =~= refs@);
    let mut candidates: Vec<Candidate> = Vec::new();
    let mut recent: usize = 0;
    let mut unknown: usize = 0;
    let mut missing_time: usize = 0;
    let mut j: usize = 0;
    assert(remote@.take(0) =~= Seq::<InventoryObject>::empty());
    assert(candidates_view(candidates@) =~= candidates_of(name@, referenced@, cutoff, remote@.take(0)));
    while j < remote.len()
        invariant
            j <= remote.len(),
            referenced.wf(),
            sorted_by_key(candidates_view(candidates@)),
            candidates_view(candidates@).to_multiset() == candidates_of(name@, referenced@, cutoff, remote@.take(j as int)).to_multiset(),
            recent == count_kind(name@, referenced@, cutoff, remote@.take(j as int), ObjectKind::Recent),
            unknown == count_kind(name@, referenced@, cutoff, remote@.take(j as int), ObjectKind::Unknown),
            missing_time == count_kind(name@, referenced@, cutoff, remote@.take(j as int), ObjectKind::MissingTime),
            recent <= j,
            unknown <= j,
            missing_time <= j,
        decreases remote.len() - j,
    {
        let ghost prefix = remote@.take(j + 1);
        assert(prefix.drop_last() =~= remote@.take(j as int));
        assert(prefix.last() == remote@[j as int]);
        match classify_object(name, &remote[j], referenced, cutoff) {
            ObjectClass::Candidate(c) => {
                proof {
                    let cs = candidates_of(name@, referenced@, cutoff, remote@.take(j as int));
                    vstd::seq_lib::to_multiset_build(cs, c@);
                }
                insert_by_key(&mut candidates, c);
            },
            ObjectClass::Referenced => {},
            ObjectClass::Recent => {
                recent = recent + 1;
            },
            ObjectClass::Unknown => {
                unknown = unknown + 1;
            },
            ObjectClass::MissingTime => {
                missing_time = missing_time + 1;
            },
        }
        j = j + 1;
    }
    assert(remote@.take(remote@.len() as int) =~= remote@);
    GcPlan { missing_remote: missing, invalid_remote: invalid, candidates, recent, unknown, missing_time }
}

/// Seconds in a day.
pub const SECONDS_PER_DAY: u64 = 86400;

/// Nanoseconds in a second.
pub const NANOS_PER_SECOND: i128 = 1_000_000_000;

/// The largest number of objects one delete request names.
pub const DELETE_BATCH_SIZE: usize = 1000;

/// The earliest instant the system clock holds, in nanoseconds since the
/// epoch: its whole seconds fit in a signed 64-bit count.
pub open spec fn clock_floor() -> int {
    i64::MIN * NANOS_PER_SECOND
}

/// The first instant past the system clock's range.
pub open spec fn clock_ceiling() -> int {
    (i64::MAX + 1) * NANOS_PER_SECOND
}

/// The cutoff `grace_days` before `now` (both in nanoseconds since the
/// epoch): objects modified after it are kept.
pub fn grace_cutoff(now: i128, grace_days: u64) -> (r: Result<i128, GcError>)
    requires
        clock_floor() <= now < clock_ceiling(),
    ensures
        grace_days * SECONDS_PER_DAY > u64::MAX ==> r == Err::<i128, GcError>(GcError::GraceTooLarge),
        grace_days * SECONDS_PER_DAY <= u64::MAX && now - grace_days * SECONDS_PER_DAY * NANOS_PER_SECOND < clock_floor()
            ==> r == Err::<i128, GcError>(GcError::GracePredatesClock),
        grace_days * SECONDS_PER_DAY <= u64::MAX && now - grace_days * SECONDS_PER_DAY * NANOS_PER_SECOND >= clock_floor()
            ==> r == Ok::<i128, GcError>((now - grace_days * SECONDS_PER_DAY * NANOS_PER_SECOND) as i128),
{
    let secs = match grace_days.checked_mul(SECONDS_PER_DAY) {
        Some(secs) => secs,
        None => return Err(GcError::GraceTooLarge),
    };
    let grace = (secs as i128) * NANOS_PER_SECOND;
    let cutoff = now - grace;
    if cutoff < (i64::MIN as i128) * NANOS_PER_SECOND {
        return Err(GcError::GracePredatesClock);
    }
    Ok(cutoff)
}

/// What garbage collection does after planning.
#[derive(Debug, Clone, PartialEq, Eq, Structural)]
pub enum GcOutcome {
    /// Committed refs name objects that are missing or invalid remotely:
    /// nothing is deleted.
    Refuse { problems: usize },
    /// No candidate.
    NothingToDelete,
    /// Candidates are listed and kept.
    DryRun,
    /// Candidates are deleted once Git has been read again.
    Delete,
}

/// Decides what to do with a plan; `delete` asks for deletion.
pub fn gc_decision(plan: &GcPlan, delete: bool) -> (r: GcOutcome)
    requires
        plan.missing_remote.len() + plan.invalid_remote.len() <= usize::MAX,
    ensures
        plan.missing_remote.len() + plan.invalid_remote.len() > 0
            ==> r == (GcOutcome::Refuse { problems: (plan.missing_remote.len() + plan.invalid_remote.len()) as usize }),
        plan.missing_remote.len() + plan.invalid_remote.len() == 0 && plan.candidates.len() == 0 ==> r == GcOutcome::NothingToDelete,
        plan.missing_remote.len() + plan.invalid_remote.len() == 0 && plan.candidates.len() > 0 && !delete ==> r == GcOutcome::DryRun,
        plan.missing_remote.len() + plan.invalid_remote.len() == 0 && plan.candidates.len() > 0 && delete ==> r == GcOutcome::Delete,
{
    if plan.missing_remote.len() > 0 || plan.invalid_remote.len() > 0 {
        return GcOutcome::Refuse { problems: plan.missing_remote.len() + plan.invalid_remote.len() };
    }
    if plan.candidates.len() == 0 {
        return GcOutcome::NothingToDelete;
    }
    if !delete {
        return GcOutcome::DryRun;
    }
    GcOutcome::Delete
}

/// The candidates, in order, whose object no ref in `referenced` names.
pub open spec fn unreferenced(s: Seq<(Seq<char>, Seq<char>, u64)>, referenced: Map<Seq<char>, u64>) -> Seq<(Seq<char>, Seq<char>, u64)>
    decreases s.len(),
{
    if s.len() == 0 {
        Seq::empty()
    } else {
        let rest = unreferenced(s.drop_last(), referenced);
        if referenced.contains_key(s.last().1) {
            rest
        } else {
            rest.push(s.last())
        }
    }
}

/// Keeps the candidates that `referenced`, read again just before deletion,
/// does not name: a ref committed meanwhile wins.
pub fn retain_unreferenced(candidates: &Vec<Candidate>, referenced: &ObjectSizes) -> (r: Vec<Candidate>)
    requires
        referenced.wf(),
    ensures
        candidates_view(r@) == unreferenced(candidates_view(candidates@), referenced@),
{
    let ghost all = candidates_view(candidates@);
    let mut kept: Vec<Candidate> = Vec::new();
    let mut i: usize = 0;
    while i < candidates.len()
        invariant
            i <= candidates.len(),
            referenced.wf(),
            all == candidates_view(candidates@),
            candidates_view(kept@) == unreferenced(all.take(i as int), referenced@),
        decreases candidates.len() - i,
    {
        assert(all.take(i + 1).drop_last() =~= all.take(i as int));
        assert(all.take(i + 1).last() == candidates@[i as int]@);
        if !referenced.contains(&candidates[i].oid) {
            let ghost before = kept@;
            kept.push(candidates[i].duplicate());
            assert(candidates_view(kept@) =~= candidates_view(before).push(candidates@[i as int]@));
        }
        i = i + 1;
    }
    assert(all.take(all.len() as int) =~= all);
    kept
}

/// Splits candidates into delete requests of at most `DELETE_BATCH_SIZE`,
/// in order.
pub fn delete_batches(candidates: &Vec<Candidate>) -> (batches: Vec<Vec<Candidate>>)
    ensures
        batches.len() == (candidates.len() + DELETE_BATCH_SIZE - 1) / DELETE_BATCH_SIZE as int,
        forall|b: int| 0 <= b < batches.len() ==> candidates_view(#[trigger] batches@[b]@) == candidates_view(candidates@).subrange(
            b * DELETE_BATCH_SIZE,
            if (b + 1) * DELETE_BATCH_SIZE <= candidates.len() { (b + 1) * DELETE_BATCH_SIZE } else { candidates.len() as int },
        ),
{
    let ghost all = candidates_view(candidates@);
    let n = candidates.len();
    let mut batches: Vec<Vec<Candidate>> = Vec::new();
    let mut start: usize = 0;
    while start < n
        invariant
            n == candidates.len(),
            all == candidates_view(candidates@),
            start <= n,
            start == batches.len() * DELETE_BATCH_SIZE || start == n,
            start < n ==> start == batches.len() * DELETE_BATCH_SIZE,
            batches.len() == (start + DELETE_BATCH_SIZE - 1) / DELETE_BATCH_SIZE as int,
            forall|b: int| 0 <= b < batches.len() ==> candidates_view(#[trigger] batches@[b]@) == all.subrange(
                b * DELETE_BATCH_SIZE,
                if (b + 1) * DELETE_BATCH_SIZE <= n { (b + 1) * DELETE_BATCH_SIZE } else { n as int },
            ),
        decreases n - start,
    {
        let end = if n - start > DELETE_BATCH_SIZE { start + DELETE_BATCH_SIZE } else { n };
        let mut batch: Vec<Candidate> = Vec::new();
        let mut k: usize = start;
        while k < end
            invariant
                start <= k <= end <= n,
                n == candidates.len(),
                all == candidates_view(candidates@),
                candidates_view(batch@) == all.subrange(start as int, k as int),
            decreases end - k,
        {
            let ghost before = batch@;
            batch.push(candidates[k].duplicate());
            assert(candidates_view(batch@) =~= candidates_view(before).push(all[k as int]));
            assert(all.subrange(start as int, k + 1) =~= all.subrange(start as int, k as int).push(all[k as int]));
            k = k + 1;
        }
        let ghost old_batches = batches@;
        batches.push(batch);
        assert forall|b: int| 0 <= b < batches.len() implies candidates_view(#[trigger] batches@[b]@) == all.subrange(
            b * DELETE_BATCH_SIZE,
            if (b + 1) * DELETE_BATCH_SIZE <= n { (b + 1) * DELETE_BATCH_SIZE } else { n as int },
        ) by {
            if b < old_batches.len() {
                assert(batches@[b] == old_batches[b]);
            }
        }
        start = end;
    }
    batches
}

/// Every deletion candidate is a listed object whose key is the canonical
/// key of an object that no committed ref names, and which was last
/// modified no later than the cutoff.
pub proof fn law_candidates_unreferenced_and_old(
    name: Seq<char>,
    referenced: Map<Seq<char>, u64>,
    cutoff: i128,
    objects: Seq<InventoryObject>,
    c: (Seq<char>, Seq<char>, u64),
)
    requires
        candidates_of(name, referenced, cutoff, objects).contains(c),
    ensures
        !referenced.contains_key(c.1),
        key_object(name, c.0) == Some(c.1),
        exists|i: int| 0 <= i < objects.len() && (#[trigger] objects[i]).key@ == c.0 && objects[i].size == c.2
            && (objects[i].modified_at matches Some(t) && t <= cutoff),
    decreases objects.len(),
{
    let rest = candidates_of(name, referenced, cutoff, objects.drop_last());
    let o = objects.last();
    let last = objects.len() - 1;
    if rest.contains(c) {
        law_candidates_unreferenced_and_old(name, referenced, cutoff, objects.drop_last(), c);
        let i = choose|i: int| 0 <= i < objects.drop_last().len() && (#[trigger] objects.drop_last()[i]).key@ == c.0
            && objects.drop_last()[i].size == c.2 && (objects.drop_last()[i].modified_at matches Some(t) && t <= cutoff);
        assert(objects[i] == objects.drop_last()[i]);
    } else {
        assert(kind_of(name, referenced, cutoff, o.key@, o.modified_at) == ObjectKind::Candidate);
        assert(c == (o.key@, key_object(name, o.key@)->0, o.size));
        assert(objects[last] == o);
    }
}

/// What survives the second reading of Git is a subset of the candidates
/// that the second reading does not name.
pub proof fn law_retained_unreferenced(
    s: Seq<(Seq<char>, Seq<char>, u64)>,
    referenced: Map<Seq<char>, u64>,
    c: (Seq<char>, Seq<char>, u64),
)
    requires
        unreferenced(s, referenced).contains(c),
    ensures
        s.contains(c),
        !referenced.contains_key(c.1),
    decreases s.len(),
{
    let rest = unreferenced(s.drop_last(), referenced);
    if rest.contains(c) {
        law_retained_unreferenced(s.drop_last(), referenced, c);
        let i = choose|i: int| 0 <= i < s.drop_last().len() && s.drop_last()[i] == c;
        assert(s[i] == c);
    } else {
        assert(s[s.len() - 1] == c);
    }
}

/// A referenced object is reported missing exactly when the remote
/// listing has no canonical key for it.
pub proof fn law_missing_means_absent(refs: Seq<(ObjectId, u64)>, remote: Map<Seq<char>, u64>, k: Seq<char>)
    ensures
        missing_ids(refs, remote).contains(k) <==> (!remote.contains_key(k) && exists|i: int| 0 <= i < refs.len() && (#[trigger] refs[i]).0@ == k),
    decreases refs.len(),
{
    if refs.len() > 0 {
        let init = refs.drop_last();
        law_missing_means_absent(init, remote, k);
        let rest = missing_ids(init, remote);
        if missing_ids(refs, remote).contains(k) {
            if rest.contains(k) {
                let i = choose|i: int| 0 <= i < init.len() && (#[trigger] init[i]).0@ == k;
                assert(refs[i] == init[i]);
            } else {
                assert(refs[refs.len() - 1].0@ == k);
            }
        }
        if !remote.contains_key(k) && exists|i: int| 0 <= i < refs.len() && (#[trigger] refs[i]).0@ == k {
            let i = choose|i: int| 0 <= i < refs.len() && (#[trigger] refs[i]).0@ == k;
            if i < refs.len() - 1 {
                assert(init[i] == refs[i]);
                let j = choose|j: int| 0 <= j < rest.len() && rest[j] == k;
                assert(missing_ids(refs, remote)[j] == k);
            } else {
                assert(missing_ids(refs, remote) == rest.push(k));
                assert(missing_ids(refs, remote)[rest.len() as int] == k);
            }
        }
    }
}

/// The delete requests of a GC run: the plan's candidates that `fresh`, the
/// refs read again just before deletion, does not name, in batches of at
/// most `DELETE_BATCH_SIZE`, in order.
pub fn deletion_batches(plan: &GcPlan, fresh: &ObjectSizes) -> (batches: Vec<Vec<Candidate>>)
    requires
        fresh.wf(),
    ensures
        batches.len() == (unreferenced(candidates_view(plan.candidates@), fresh@).len() + DELETE_BATCH_SIZE - 1) / DELETE_BATCH_SIZE as int,
        forall|b: int| 0 <= b < batches.len() ==> candidates_view(#[trigger] batches@[b]@) == unreferenced(candidates_view(plan.candidates@), fresh@).subrange(
            b * DELETE_BATCH_SIZE,
            if (b + 1) * DELETE_BATCH_SIZE <= unreferenced(candidates_view(plan.candidates@), fresh@).len() {
                (b + 1) * DELETE_BATCH_SIZE
            } else {
                unreferenced(candidates_view(plan.candidates@), fresh@).len() as int
            },
        ),
        forall|b: int, i: int| 0 <= b < batches.len() && 0 <= i < batches@[b].len()
            ==> unreferenced(candidates_view(plan.candidates@), fresh@).contains(#[trigger] batches@[b]@[i]@),
{
    let kept = retain_unreferenced(&plan.candidates, fresh);
    let batches = delete_batches(&kept);
    let ghost all = candidates_view(kept@);
    assert forall|b: int, i: int| 0 <= b < batches.len() && 0 <= i < batches@[b].len()
        implies all.contains(#[trigger] batches@[b]@[i]@) by {
        let hi = if (b + 1) * DELETE_BATCH_SIZE <= kept.len() { (b + 1) * DELETE_BATCH_SIZE } else { kept.len() as int };
        let n = kept.len() as int;
        assert(b * 1000 < n) by (nonlinear_arith)
            requires
                0 <= b < (n + 1000 - 1) / 1000,
                n >= 0,
        ;
        let part = all.subrange(b * DELETE_BATCH_SIZE, hi);
        assert(candidates_view(batches@[b]@) == part);
        assert(candidates_view(batches@[b]@)[i] == batches@[b]@[i]@);
        assert(part[i] == all[b * DELETE_BATCH_SIZE + i]);
    }
    batches
}

/// GC deletes only what no ref names, then or now: every object in a
/// delete request is a listed object with its canonical key, no ref in the
/// first reading of Git names it, no ref in the second reading names it,
/// and it was last modified no later than the cutoff.
pub proof fn law_deletes_only_unreferenced(
    name: Seq<char>,
    first: Map<Seq<char>, u64>,
    second: Map<Seq<char>, u64>,
    cutoff: i128,
    objects: Seq<InventoryObject>,
    planned: Seq<(Seq<char>, Seq<char>, u64)>,
    c: (Seq<char>, Seq<char>, u64),
)
    requires
        planned.to_multiset() == candidates_of(name, first, cutoff, objects).to_multiset(),
        unreferenced(planned, second).contains(c),
    ensures
        !first.contains_key(c.1),
        !second.contains_key(c.1),
        key_object(name, c.0) == Some(c.1),
        exists|i: int| 0 <= i < objects.len() && (#[trigger] objects[i]).key@ == c.0 && objects[i].size == c.2
            && (objects[i].modified_at matches Some(t) && t <= cutoff),
{
    law_retained_unreferenced(planned, second, c);
    vstd::seq_lib::to_multiset_contains(planned, c);
    vstd::seq_lib::to_multiset_contains(candidates_of(name, first, cutoff, objects), c);
    law_candidates_unreferenced_and_old(name, first, cutoff, objects, c);
}

} // verus!

//! The first on-disk layout: objects under `.shadow/objects`, keyed by bare
//! digest, and a staging index of paths waiting to be pushed.

use vstd::prelude::*;
use crate::repository::{join_path, normal_parts, join_parts, path_parts, join_all, SHADOW_DIR};
use crate::config::is_white_space;
use crate::text::{chars_of, string_of, string_of_range, copy_str, has_prefix, text_lines, lines_of, push_char};

verus! {

/// The tag that may precede a digest: `sha256:`.
pub open spec fn hash_tag() -> Seq<char> {
    seq!['s', 'h', 'a', '2', '5', '6', ':']
}

/// A digest without its `sha256:` tag, if it has one.
pub open spec fn hash_hex(hash: Seq<char>) -> Seq<char> {
    if has_prefix(hash, hash_tag()) { hash.skip(7) } else { hash }
}

/// Strips the `sha256:` tag from a digest.
pub fn parse_hash(hash: &str) -> (r: String)
    ensures
        r@ == hash_hex(hash@),
{
    let cs = chars_of(hash);
    let tag = vec!['s', 'h', 'a', '2', '5', '6', ':'];
    assert(tag@ =~= hash_tag());
    if crate::text::starts_with_chars(&cs, &tag) {
        assert(cs@.subrange(7, cs@.len() as int) =~= cs@.skip(7));
        string_of_range(&cs, 7, cs.len())
    } else {
        copy_str(hash)
    }
}

/// The number of bytes UTF-8 gives a character.
pub open spec fn char_width(c: char) -> nat {
    if (c as u32) < 0x80 {
        1
    } else if (c as u32) < 0x800 {
        2
    } else if (c as u32) < 0x10000 {
        3
    } else {
        4
    }
}

/// The length of text in UTF-8 bytes, as `str::len` counts it.
pub open spec fn utf8_len(s: Seq<char>) -> nat
    decreases s.len(),
{
    if s.len() == 0 { 0 } else { utf8_len(s.drop_last()) + char_width(s.last()) }
}

proof fn lemma_utf8_len_grows(s: Seq<char>, i: int)
    requires
        0 <= i <= s.len(),
    ensures
        utf8_len(s.take(i)) <= utf8_len(s),
    decreases s.len() - i,
{
    if i < s.len() {
        lemma_utf8_len_grows(s, i + 1);
        assert(s.take(i + 1).drop_last() =~= s.take(i));
    } else {
        assert(s.take(i) =~= s);
    }
}

fn width_of(c: char) -> (r: usize)
    ensures
        r == char_width(c),
{
    let v = c as u32;
    if v < 0x80 {
        1
    } else if v < 0x800 {
        2
    } else if v < 0x10000 {
        3
    } else {
        4
    }
}

/// Whether text is shorter than four UTF-8 bytes.
fn shorter_than_four_bytes(cs: &Vec<char>) -> (r: bool)
    ensures
        r == (utf8_len(cs@) < 4),
{
    let mut n: usize = 0;
    let mut i: usize = 0;
    while i < cs.len()
        invariant
            i <= cs@.len(),
            n == utf8_len(cs@.take(i as int)),
            n < 4,
        decreases cs.len() - i,
    {
        assert(cs@.take(i + 1).drop_last() =~= cs@.take(i as int));
        n = n + width_of(cs[i]);
        i = i + 1;
        if n >= 4 {
            proof { lemma_utf8_len_grows(cs@, i as int); }
            return false;
        }
    }
    assert(cs@.take(i as int) =~= cs@);
    true
}

/// `part` joined onto `base` as `Path::join` does on Unix: an absolute
/// part replaces the base.
pub open spec fn path_join(base: Seq<char>, part: Seq<char>) -> Seq<char> {
    if part.len() > 0 && part[0] == '/' { part } else { join_path(base, part) }
}

fn join_onto(base: &str, part: &str) -> (r: String)
    ensures
        r@ == path_join(base@, part@),
{
    let cs = chars_of(part);
    if cs.len() > 0 && cs[0] == '/' {
        copy_str(part)
    } else {
        crate::repository::join(base, part)
    }
}

/// Whether slicing a digest at byte 2 falls between characters: two
/// one-byte characters, or one two-byte character, start it.
pub open spec fn splits_at_two_bytes(raw: Seq<char>) -> bool {
    raw.len() >= 1 && (char_width(raw[0]) == 2 || (char_width(raw[0]) == 1 && raw.len() >= 2 && char_width(raw[1]) == 1))
}

/// How many characters the first two bytes of a digest hold.
pub open spec fn head_chars(raw: Seq<char>) -> int {
    if char_width(raw[0]) == 2 { 1 } else { 2 }
}

/// The object path of a digest: `objects/<hex>` for fewer than four bytes,
/// else `objects/<first two bytes>/<rest>`.
pub open spec fn object_path_of(hash: Seq<char>) -> Seq<char> {
    let raw = hash_hex(hash);
    if utf8_len(raw) < 4 {
        path_join("objects"@, raw)
    } else {
        path_join(path_join("objects"@, raw.take(head_chars(raw))), raw.skip(head_chars(raw)))
    }
}

/// Whether the object path of `hash` can be formed: a digest of four or
/// more bytes is cut after its second byte, which must end a character.
pub open spec fn object_path_defined(hash: Seq<char>) -> bool {
    utf8_len(hash_hex(hash)) < 4 || splits_at_two_bytes(hash_hex(hash))
}

/// The relative path of an object's data, e.g. `objects/ab/cdef...`.
pub fn get_object_path_components(hash: &str) -> (r: String)
    requires
        object_path_defined(hash@),
    ensures
        r@ == object_path_of(hash@),
{
    let raw_hex = parse_hash(hash);
    let cs = chars_of(raw_hex.as_str());
    let objects = copy_str("objects");
    proof { reveal_strlit("objects"); }
    if shorter_than_four_bytes(&cs) {
        return join_onto(objects.as_str(), raw_hex.as_str());
    }
    let k: usize = if width_of(cs[0]) == 2 { 1 } else { 2 };
    let head = string_of_range(&cs, 0, k);
    let tail = string_of_range(&cs, k, cs.len());
    assert(cs@.subrange(0, k as int) =~= cs@.take(k as int));
    assert(cs@.subrange(k as int, cs@.len() as int) =~= cs@.skip(k as int));
    let dir = join_onto(objects.as_str(), head.as_str());
    join_onto(dir.as_str(), tail.as_str())
}

/// The path of an object's data under a project root:
/// `<root>/.shadow/<object path>`.
pub fn get_metadata_path(root: &str, hash: &str) -> (r: String)
    requires
        object_path_defined(hash@),
    ensures
        r@ == path_join(path_join(root@, SHADOW_DIR@), object_path_of(hash@)),
{
    let shadow = join_onto(root, SHADOW_DIR);
    let components = get_object_path_components(hash);
    join_onto(shadow.as_str(), components.as_str())
}

/// The components of a path as `Path::components` gives them on Unix, for
/// a path that does not start with `./`: the root `/` if it is absolute,
/// then its parts without empty ones and without `.`.
pub open spec fn path_components(path: Seq<char>) -> Seq<Seq<char>> {
    if path.len() > 0 && path[0] == '/' {
        seq![seq!['/']] + normal_parts(path)
    } else {
        normal_parts(path)
    }
}

/// The storage key of an object: its path components joined with `/`.
pub fn get_s3_key(hash: &str) -> (r: String)
    requires
        object_path_defined(hash@),
    ensures
        r@ == join_parts(path_components(object_path_of(hash@))),
{
    let path = get_object_path_components(hash);
    let cs = chars_of(path.as_str());
    let parts = path_parts(path.as_str());
    if cs.len() > 0 && cs[0] == '/' {
        let mut all: Vec<Vec<char>> = Vec::new();
        all.push(vec!['/']);
        let mut i: usize = 0;
        while i < parts.len()
            invariant
                i <= parts@.len(),
                parts@.len() == normal_parts(path@).len(),
                forall|j: int| 0 <= j < parts@.len() ==> (#[trigger] parts@[j])@ == normal_parts(path@)[j],
                all@.len() == i + 1,
                all@[0]@ == seq!['/'],
                forall|j: int| 1 <= j <= i ==> (#[trigger] all@[j])@ == normal_parts(path@)[j - 1],
            decreases parts.len() - i,
        {
            all.push(crate::repository::copy_chars(&parts[i]));
            i = i + 1;
        }
        let r = join_all(&all);
        assert(all@.map_values(|p: Vec<char>| p@) =~= seq![seq!['/']] + normal_parts(path@));
        r
    } else {
        let r = join_all(&parts);
        assert(parts@.map_values(|p: Vec<char>| p@) =~= normal_parts(path@));
        r
    }
}

/// Reads the system clock in whole seconds since the Unix epoch with
/// `SystemTime::now`, as zero where the clock reads earlier than the epoch.
/// Nothing is promised of the value: it is the time.
#[verifier::external_body]
fn seconds_since_epoch() -> u64 {
    std::time::SystemTime::now().duration_since(std::time::UNIX_EPOCH).unwrap_or_default().as_secs()
}

/// What the staging index records of a file.
pub struct ObjectMetadata {
    /// The digest, e.g. `sha256:abc...`.
    pub hash: String,
    pub size: u64,
    /// The digest algorithm: `sha256`.
    pub algorithm: String,
    /// Seconds since the Unix epoch.
    pub created_at: u64,
}

impl View for ObjectMetadata {
    type V = (Seq<char>, u64, Seq<char>, u64);

    open spec fn view(&self) -> (Seq<char>, u64, Seq<char>, u64) {
        (self.hash@, self.size, self.algorithm@, self.created_at)
    }
}

impl ObjectMetadata {
    /// Metadata of a SHA-256 digest created at `created_at`.
    pub fn created(hash: String, size: u64, created_at: u64) -> (r: ObjectMetadata)
        ensures
            r@ == (hash@, size, "sha256"@, created_at),
    {
        ObjectMetadata { hash, size, algorithm: copy_str("sha256"), created_at }
    }

    /// Metadata of a SHA-256 digest created now.
    pub fn new(hash: String, size: u64) -> (r: ObjectMetadata)
        ensures
            r.hash@ == hash@,
            r.size == size,
            r.algorithm@ == "sha256"@,
    {
        let now = seconds_since_epoch();
        ObjectMetadata::created(hash, size, now)
    }

    /// A copy of this metadata.
    pub fn duplicate(&self) -> (r: ObjectMetadata)
        ensures
            r@ == self@,
    {
        ObjectMetadata {
            hash: copy_str(self.hash.as_str()),
            size: self.size,
            algorithm: copy_str(self.algorithm.as_str()),
            created_at: self.created_at,
        }
    }
}

/// The map that a list of staged entries describes, each path once.
pub open spec fn staged_map(s: Seq<(String, ObjectMetadata)>) -> Map<Seq<char>, (Seq<char>, u64, Seq<char>, u64)> {
    Map::new(
        |k: Seq<char>| exists|i: int| 0 <= i < s.len() && #[trigger] s[i].0@ == k,
        |k: Seq<char>| s[choose|i: int| 0 <= i < s.len() && #[trigger] s[i].0@ == k].1@,
    )
}

/// Whether no path is listed twice.
pub open spec fn distinct_paths(s: Seq<(String, ObjectMetadata)>) -> bool {
    forall|i: int, j: int| 0 <= i < j < s.len() ==> (#[trigger] s[i]).0@ != (#[trigger] s[j]).0@
}

/// Files staged for pushing, by relative path.
pub struct StagingIndex {
    entries: Vec<(String, ObjectMetadata)>,
}

impl View for StagingIndex {
    type V = Map<Seq<char>, (Seq<char>, u64, Seq<char>, u64)>;

    closed spec fn view(&self) -> Map<Seq<char>, (Seq<char>, u64, Seq<char>, u64)> {
        staged_map(self.entries@)
    }
}

impl StagingIndex {
    /// Each path is listed once.
    pub closed spec fn wf(&self) -> bool {
        distinct_paths(self.entries@)
    }

    /// An empty index.
    pub fn new() -> (r: StagingIndex)
        ensures
            r.wf(),
            r@ == Map::<Seq<char>, (Seq<char>, u64, Seq<char>, u64)>::empty(),
    {
        let r = StagingIndex { entries: Vec::new() };
        assert(r@ =~= Map::<Seq<char>, (Seq<char>, u64, Seq<char>, u64)>::empty());
        r
    }

    /// The entries, each path once, in no particular order.
    pub fn entries(&self) -> (r: &Vec<(String, ObjectMetadata)>)
        requires
            self.wf(),
        ensures
            distinct_paths(r@),
            staged_map(r@) == self@,
    {
        &self.entries
    }

    fn find(&self, path: &str) -> (r: Option<usize>)
        requires
            self.wf(),
        ensures
            match r {
                Some(i) => i < self.entries@.len() && self.entries@[i as int].0@ == path@,
                None => forall|i: int| 0 <= i < self.entries@.len() ==> (#[trigger] self.entries@[i]).0@ != path@,
            },
    {
        let mut i: usize = 0;
        while i < self.entries.len()
            invariant
                i <= self.entries@.len(),
                forall|j: int| 0 <= j < i ==> (#[trigger] self.entries@[j]).0@ != path@,
            decreases self.entries.len() - i,
        {
            if crate::text::same_text(self.entries[i].0.as_str(), path) {
                return Some(i);
            }
            i = i + 1;
        }
        None
    }

    /// The metadata staged for `path`.
    pub fn get(&self, path: &str) -> (r: Option<&ObjectMetadata>)
        requires
            self.wf(),
        ensures
            match r {
                Some(m) => self@.contains_key(path@) && self@[path@] == m@,
                None => !self@.contains_key(path@),
            },
    {
        match self.find(path) {
            Some(i) => {
                proof {
                    let k = choose|k: int| 0 <= k < self.entries@.len() && #[trigger] self.entries@[k].0@ == path@;
                    assert(k == i);
                }
                Some(&self.entries[i].1)
            },
            None => None,
        }
    }

    /// Stages `path` with `metadata`, replacing what was staged for it.
    pub fn add(&mut self, path: String, metadata: ObjectMetadata)
        requires
            old(self).wf(),
        ensures
            final(self).wf(),
            final(self)@ == old(self)@.insert(path@, metadata@),
    {
        let ghost before = self.entries@;
        let ghost key = path@;
        let ghost value = metadata@;
        match self.find(path.as_str()) {
            Some(i) => {
                self.entries.set(i, (path, metadata));
                proof {
                    let e = self.entries@;
                    assert forall|a: int, b: int| 0 <= a < b < e.len() implies (#[trigger] e[a]).0@ != (#[trigger] e[b]).0@ by {
                        assert(a != i ==> e[a] == before[a]);
                        assert(b != i ==> e[b] == before[b]);
                    }
                    assert forall|k: Seq<char>| #[trigger] self@.contains_key(k) == staged_map(before).insert(key, value).contains_key(k) by {
                        if k == key {
                            assert(e[i as int].0@ == k);
                        } else {
                            if staged_map(before).contains_key(k) {
                                let j = choose|j: int| 0 <= j < before.len() && #[trigger] before[j].0@ == k;
                                assert(e[j] == before[j]);
                            }
                            if self@.contains_key(k) {
                                let j = choose|j: int| 0 <= j < e.len() && #[trigger] e[j].0@ == k;
                                assert(e[j] == before[j]);
                            }
                        }
                    }
                    assert forall|k: Seq<char>| #[trigger] self@.contains_key(k) implies self@[k] == staged_map(before).insert(key, value)[k] by {
                        let j = choose|j: int| 0 <= j < e.len() && #[trigger] e[j].0@ == k;
                        if k == key {
                            assert(j == i);
                        } else {
                            let jj = choose|jj: int| 0 <= jj < before.len() && #[trigger] before[jj].0@ == k;
                            assert(e[jj] == before[jj]);
                            assert(j == jj);
                        }
                    }
                    assert(self@ =~= staged_map(before).insert(key, value));
                }
            },
            None => {
                self.entries.push((path, metadata));
                proof {
                    let e = self.entries@;
                    assert forall|a: int, b: int| 0 <= a < b < e.len() implies (#[trigger] e[a]).0@ != (#[trigger] e[b]).0@ by {
                        assert(e[a] == before[a]);
                        if b < before.len() {
                            assert(e[b] == before[b]);
                        }
                    }
                    assert forall|k: Seq<char>| #[trigger] self@.contains_key(k) == staged_map(before).insert(key, value).contains_key(k) by {
                        if k == key {
                            assert(e[before.len() as int].0@ == k);
                        } else {
                            if staged_map(before).contains_key(k) {
                                let j = choose|j: int| 0 <= j < before.len() && #[trigger] before[j].0@ == k;
                                assert(e[j] == before[j]);
                            }
                            if self@.contains_key(k) {
                                let j = choose|j: int| 0 <= j < e.len() && #[trigger] e[j].0@ == k;
                                assert(e[j] == before[j]);
                            }
                        }
                    }
                    assert forall|k: Seq<char>| #[trigger] self@.contains_key(k) implies self@[k] == staged_map(before).insert(key, value)[k] by {
                        let j = choose|j: int| 0 <= j < e.len() && #[trigger] e[j].0@ == k;
                        if k == key {
                            assert(j == before.len());
                        } else {
                            let jj = choose|jj: int| 0 <= jj < before.len() && #[trigger] before[jj].0@ == k;
                            assert(e[jj] == before[jj]);
                            assert(j == jj);
                        }
                    }
                    assert(self@ =~= staged_map(before).insert(key, value));
                }
            },
        }
    }

    /// Unstages `path`.
    pub fn remove(&mut self, path: &str)
        requires
            old(self).wf(),
        ensures
            final(self).wf(),
            final(self)@ == old(self)@.remove(path@),
    {
        let ghost before = self.entries@;
        match self.find(path) {
            Some(i) => {
                let _ = self.entries.remove(i);
                proof {
                    let e = self.entries@;
                    assert(e =~= before.remove(i as int));
                    assert forall|a: int, b: int| 0 <= a < b < e.len() implies (#[trigger] e[a]).0@ != (#[trigger] e[b]).0@ by {
                        let a0 = if a < i { a } else { a + 1 };
                        let b0 = if b < i { b } else { b + 1 };
                        assert(e[a] == before[a0]);
                        assert(e[b] == before[b0]);
                    }
                    assert forall|k: Seq<char>| #[trigger] self@.contains_key(k) == staged_map(before).remove(path@).contains_key(k) by {
                        if self@.contains_key(k) {
                            let j = choose|j: int| 0 <= j < e.len() && #[trigger] e[j].0@ == k;
                            let j0 = if j < i { j } else { j + 1 };
                            assert(before[j0] == e[j]);
                        }
                        if staged_map(before).contains_key(k) && k != path@ {
                            let j = choose|j: int| 0 <= j < before.len() && #[trigger] before[j].0@ == k;
                            assert(j != i);
                            let j1 = if j < i { j } else { j - 1 };
                            assert(e[j1] == before[j]);
                        }
                    }
                    assert forall|k: Seq<char>| #[trigger] self@.contains_key(k) implies self@[k] == staged_map(before)[k] by {
                        let j = choose|j: int| 0 <= j < e.len() && #[trigger] e[j].0@ == k;
                        let j0 = if j < i { j } else { j + 1 };
                        assert(before[j0] == e[j]);
                        let jj = choose|jj: int| 0 <= jj < before.len() && #[trigger] before[jj].0@ == k;
                        assert(jj == j0);
                    }
                    assert(self@ =~= staged_map(before).remove(path@));
                }
            },
            None => {
                assert(staged_map(before).remove(path@) =~= staged_map(before));
            },
        }
    }
}

/// A path with `\\` separators turned into `/`.
pub open spec fn with_slashes(path: Seq<char>) -> Seq<char> {
    path.map_values(|c: char| if c == '\\' { '/' } else { c })
}

/// Turns `\\` separators into `/`, as ignore files want them.
pub fn normalize_separators(path: &str) -> (r: String)
    ensures
        r@ == with_slashes(path@),
{
    let cs = chars_of(path);
    let mut out = String::new();
    let mut i: usize = 0;
    while i < cs.len()
        invariant
            i <= cs@.len(),
            cs@ == path@,
            out@ == with_slashes(cs@.take(i as int)),
        decreases cs.len() - i,
    {
        let c = cs[i];
        push_char(&mut out, if c == '\\' { '/' } else { c });
        assert(with_slashes(cs@.take(i + 1)) =~= with_slashes(cs@.take(i as int)).push(if c == '\\' { '/' } else { c }));
        i = i + 1;
    }
    assert(cs@.take(cs@.len() as int) =~= cs@);
    out
}

/// Text without leading white space.
pub open spec fn trim_start(s: Seq<char>) -> Seq<char>
    decreases s.len(),
{
    if s.len() > 0 && is_white_space(s[0]) { trim_start(s.skip(1)) } else { s }
}

/// Text without trailing white space.
pub open spec fn trim_end(s: Seq<char>) -> Seq<char>
    decreases s.len(),
{
    if s.len() > 0 && is_white_space(s.last()) { trim_end(s.drop_last()) } else { s }
}

/// Text without leading or trailing white space, as `str::trim` gives it.
pub open spec fn trimmed(s: Seq<char>) -> Seq<char> {
    trim_end(trim_start(s))
}

/// Trims white space from both ends of `s`.
pub fn trim(s: &str) -> (r: String)
    ensures
        r@ == trimmed(s@),
{
    let cs = chars_of(s);
    let mut lo: usize = 0;
    assert(cs@.skip(0) =~= cs@);
    while lo < cs.len() && crate::config::white_space_char(cs[lo])
        invariant
            lo <= cs@.len(),
            cs@ == s@,
            trim_start(s@) == trim_start(cs@.skip(lo as int)),
        decreases cs.len() - lo,
    {
        assert(cs@.skip(lo as int).skip(1) =~= cs@.skip(lo + 1));
        lo = lo + 1;
    }
    let ghost start = cs@.skip(lo as int);
    assert(trim_start(start) == start);
    let mut hi: usize = cs.len();
    while hi > lo && crate::config::white_space_char(cs[hi - 1])
        invariant
            lo <= hi <= cs@.len(),
            cs@ == s@,
            start == cs@.skip(lo as int),
            trimmed(s@) == trim_end(cs@.subrange(lo as int, hi as int)),
        decreases hi - lo,
    {
        assert(cs@.subrange(lo as int, hi as int).drop_last() =~= cs@.subrange(lo as int, hi - 1));
        hi = hi - 1;
    }
    assert(cs@.subrange(lo as int, cs@.len() as int) =~= start);
    string_of_range(&cs, lo, hi)
}

/// Whether some line of `content`, trimmed, is `entry`.
pub open spec fn lists_entry(content: Seq<char>, entry: Seq<char>) -> bool {
    exists|i: int| 0 <= i < text_lines(content).len() && trimmed(#[trigger] text_lines(content)[i]) == entry
}

/// Whether an ignore or track file with text `content` already lists
/// `path`, once its separators are `/`; where it does not, the path is
/// appended as a line of its own.
pub fn has_entry(content: &str, path: &str) -> (r: bool)
    ensures
        r == lists_entry(content@, with_slashes(path@)),
{
    let entry = normalize_separators(path);
    let lines = lines_of(content);
    let mut i: usize = 0;
    while i < lines.len()
        invariant
            i <= lines@.len(),
            lines@.len() == text_lines(content@).len(),
            forall|j: int| 0 <= j < lines@.len() ==> (#[trigger] lines@[j])@ == text_lines(content@)[j],
            entry@ == with_slashes(path@),
            forall|j: int| 0 <= j < i ==> trimmed(#[trigger] text_lines(content@)[j]) != entry@,
        decreases lines.len() - i,
    {
        let t = trim(lines[i].as_str());
        if crate::text::same_text(t.as_str(), entry.as_str()) {
            assert(trimmed(text_lines(content@)[i as int]) == entry@);
            return true;
        }
        i = i + 1;
    }
    false
}

/// The patterns of a `.shadowtrack` file: its lines trimmed, without
/// empty lines and `#` comments.
pub open spec fn track_patterns(content: Seq<char>) -> Seq<Seq<char>> {
    text_lines(content).map_values(|l: Seq<char>| trimmed(l)).filter(|l: Seq<char>| l.len() > 0 && l[0] != '#')
}

/// Reads the patterns of a `.shadowtrack` file.
pub fn shadowtrack_patterns(content: &str) -> (r: Vec<String>)
    ensures
        r@.len() == track_patterns(content@).len(),
        forall|i: int| 0 <= i < r@.len() ==> (#[trigger] r@[i])@ == track_patterns(content@)[i],
{
    let lines = lines_of(content);
    let ghost all = text_lines(content@).map_values(|l: Seq<char>| trimmed(l));
    let ghost keep = |l: Seq<char>| l.len() > 0 && l[0] != '#';
    let mut out: Vec<String> = Vec::new();
    let mut i: usize = 0;
    while i < lines.len()
        invariant
            i <= lines@.len(),
            lines@.len() == text_lines(content@).len(),
            forall|j: int| 0 <= j < lines@.len() ==> (#[trigger] lines@[j])@ == text_lines(content@)[j],
            all == text_lines(content@).map_values(|l: Seq<char>| trimmed(l)),
            keep == (|l: Seq<char>| l.len() > 0 && l[0] != '#'),
            out@.len() == all.take(i as int).filter(keep).len(),
            forall|j: int| 0 <= j < out@.len() ==> (#[trigger] out@[j])@ == all.take(i as int).filter(keep)[j],
        decreases lines.len() - i,
    {
        let t = trim(lines[i].as_str());
        proof {
            assert(all.take(i + 1) =~= all.take(i as int).push(all[i as int]));
            all.take(i as int).lemma_filter_push(all[i as int], keep);
        }
        let cs = chars_of(t.as_str());
        if cs.len() > 0 && cs[0] != '#' {
            out.push(t);
        }
        i = i + 1;
    }
    assert(all.take(lines@.len() as int) =~= all);
    out
}

/// A digest with its `sha256:` tag, adding the tag where it lacks one.
pub open spec fn tagged_hash(hash: Seq<char>) -> Seq<char> {
    if has_prefix(hash, hash_tag()) { hash } else { hash_tag() + hash }
}

/// Adds the `sha256:` tag to a digest that lacks it.
pub fn tag_hash(hash: &str) -> (r: String)
    ensures
        r@ == tagged_hash(hash@),
{
    let cs = chars_of(hash);
    let tag = vec!['s', 'h', 'a', '2', '5', '6', ':'];
    assert(tag@ =~= hash_tag());
    if crate::text::starts_with_chars(&cs, &tag) {
        copy_str(hash)
    } else {
        let mut out = string_of(&tag);
        crate::text::push_str(&mut out, hash);
        out
    }
}

/// Whether pulling must download a file whose pointer holds `pointer`:
/// the file is missing (`None`), or its digest differs.
pub fn needs_download(local_hex: Option<&str>, pointer: &str) -> (r: bool)
    ensures
        r == match local_hex {
            None => true,
            Some(h) => hash_tag() + h@ != tagged_hash(pointer@),
        },
{
    match local_hex {
        None => true,
        Some(h) => {
            let wanted = tag_hash(pointer);
            let tag = vec!['s', 'h', 'a', '2', '5', '6', ':'];
            assert(tag@ =~= hash_tag());
            let mut current = string_of(&tag);
            crate::text::push_str(&mut current, h);
            !crate::text::same_text(current.as_str(), wanted.as_str())
        },
    }
}

/// What the first layout's status says of a pointer file.
#[derive(Debug, Clone, Copy, PartialEq, Eq, Structural)]
pub enum PointerState {
    /// The source file is gone.
    Missing,
    /// The source file's digest differs from the pointer.
    Modified,
    /// The digests agree but the object's metadata file is absent.
    NoMetadata,
    /// Nothing to report.
    Current,
}

/// The state of a pointer holding `stored` (trimmed), given the digest of
/// its source file (`None` where the file is missing) and whether the
/// metadata file exists.
pub fn pointer_state(local_hex: Option<&str>, stored: &str, metadata_exists: bool) -> (r: PointerState)
    ensures
        r == match local_hex {
            None => PointerState::Missing,
            Some(h) => if hash_tag() + h@ != stored@ {
                PointerState::Modified
            } else if !metadata_exists {
                PointerState::NoMetadata
            } else {
                PointerState::Current
            },
        },
{
    match local_hex {
        None => PointerState::Missing,
        Some(h) => {
            let tag = vec!['s', 'h', 'a', '2', '5', '6', ':'];
            assert(tag@ =~= hash_tag());
            let mut current = string_of(&tag);
            crate::text::push_str(&mut current, h);
            if !crate::text::same_text(current.as_str(), stored) {
                PointerState::Modified
            } else if !metadata_exists {
                PointerState::NoMetadata
            } else {
                PointerState::Current
            }
        },
    }
}

/// The pointer file of a source path: the path with `.shadow` appended.
pub open spec fn pointer_of(source: Seq<char>) -> Seq<char> {
    source + ".shadow"@
}

/// The tracked sources, in order, that have no pointer file.
pub open spec fn untracked_sources(sources: Seq<Seq<char>>, pointers: Seq<Seq<char>>) -> Seq<Seq<char>>
    decreases sources.len(),
{
    if sources.len() == 0 {
        Seq::empty()
    } else {
        let rest = untracked_sources(sources.drop_last(), pointers);
        if pointers.contains(pointer_of(sources.last())) { rest } else { rest.push(sources.last()) }
    }
}

/// The tracked sources, in order, whose pointer file `<path>.shadow` is
/// not among `pointers`: the first layout reports them as untracked.
pub fn untracked(sources: &Vec<String>, pointers: &Vec<String>) -> (r: Vec<String>)
    ensures
        r@.map_values(|x: String| x@) == untracked_sources(sources@.map_values(|x: String| x@), pointers@.map_values(|x: String| x@)),
{
    let ghost src = sources@.map_values(|x: String| x@);
    let ghost ptr = pointers@.map_values(|x: String| x@);
    let mut out: Vec<String> = Vec::new();
    let mut i: usize = 0;
    while i < sources.len()
        invariant
            i <= sources.len(),
            src == sources@.map_values(|x: String| x@),
            ptr == pointers@.map_values(|x: String| x@),
            out@.map_values(|x: String| x@) == untracked_sources(src.take(i as int), ptr),
        decreases sources.len() - i,
    {
        assert(src.take(i + 1).drop_last() =~= src.take(i as int));
        assert(src.take(i + 1).last() == sources@[i as int]@);
        let mut pointer = copy_str(sources[i].as_str());
        crate::text::push_str(&mut pointer, ".shadow");
        let mut found = false;
        let mut j: usize = 0;
        while j < pointers.len()
            invariant
                j <= pointers.len(),
                ptr == pointers@.map_values(|x: String| x@),
                pointer@ == pointer_of(sources@[i as int]@),
                found <==> exists|k: int| 0 <= k < j && ptr[k] == pointer@,
            decreases pointers.len() - j,
        {
            if crate::text::same_text(pointers[j].as_str(), pointer.as_str()) {
                assert(ptr[j as int] == pointer@);
                found = true;
            }
            j = j + 1;
        }
        assert(found <==> ptr.contains(pointer@));
        if !found {
            let ghost before = out@;
            out.push(copy_str(sources[i].as_str()));
            assert(out@.map_values(|x: String| x@) =~= before.map_values(|x: String| x@).push(sources@[i as int]@));
        }
        i = i + 1;
    }
    assert(src.take(sources@.len() as int) =~= src);
    out
}

/// Whether the first layout's status has nothing to report: no untracked
/// source, no missing or modified pointer, and nothing staged.
pub open spec fn legacy_clean(untracked: nat, states: Seq<PointerState>, staged: nat) -> bool {
    untracked == 0 && staged == 0
        && forall|i: int| 0 <= i < states.len() ==> #[trigger] states[i] != PointerState::Missing && states[i] != PointerState::Modified
}

/// Decides whether the first layout's status prints its clean message.
pub fn report_clean(untracked: usize, states: &Vec<PointerState>, staged: usize) -> (r: bool)
    ensures
        r == legacy_clean(untracked as nat, states@, staged as nat),
{
    if untracked != 0 || staged != 0 {
        return false;
    }
    let mut i: usize = 0;
    while i < states.len()
        invariant
            i <= states.len(),
            forall|k: int| 0 <= k < i ==> #[trigger] states@[k] != PointerState::Missing && states@[k] != PointerState::Modified,
        decreases states.len() - i,
    {
        if states[i] == PointerState::Missing || states[i] == PointerState::Modified {
            return false;
        }
        i = i + 1;
    }
    true
}

} // verus!

//! The repository layout, the managed-path rules and the mapping between
//! worktree paths, refs and cache objects.

use vstd::prelude::*;
use crate::config::Config;
use crate::legacy::trim_end;
use crate::model::{BlobKey, ObjectId, blob_key_text};
use crate::text::{
    chars_of, copy_str, lines_of, push_char, push_chars, push_str, same_text, split_chars,
    split_on, string_of, string_of_range, text_lines, lemma_split_nonempty, crlf_text, lf_text,
    law_crlf_text_lines, law_lf_text_lines,
};

verus! {

#[verifier::external_type_specification]
#[verifier::external_body]
pub struct ExGitignore(ignore::gitignore::Gitignore);

#[verifier::external_type_specification]
#[verifier::external_body]
pub struct ExGitignoreBuilder(ignore::gitignore::GitignoreBuilder);

#[verifier::external_type_specification]
#[verifier::external_body]
pub struct ExIgnoreError(ignore::Error);

/// The root a gitignore builder keeps: the path it was created with, less
/// a leading `./`.
pub uninterp spec fn builder_root(b: ignore::gitignore::GitignoreBuilder) -> Seq<char>;

/// The globs a gitignore builder holds, as their stored text, in order.
pub uninterp spec fn builder_lines(b: ignore::gitignore::GitignoreBuilder) -> Seq<Seq<char>>;

/// The root of a gitignore matcher.
pub uninterp spec fn matcher_root(g: ignore::gitignore::Gitignore) -> Seq<char>;

/// The globs a gitignore matcher was built from, as their stored text, in
/// order.
pub uninterp spec fn matcher_lines(g: ignore::gitignore::Gitignore) -> Seq<Seq<char>>;

/// Whether the `ignore` crate rejects the (stored) glob text `line`.
pub uninterp spec fn rejected_rule_line(line: Seq<char>) -> bool;

/// Whether the `ignore` crate fails to compile the globs `lines`.
pub uninterp spec fn rejected_rule_set(lines: Seq<Seq<char>>) -> bool;

/// Whether a matcher rooted at `root` with globs `lines` ignores `path` (a
/// file unless `is_dir`), or one of its parent directories
/// (`Gitignore::matched_path_or_any_parents(..).is_ignore()`).
pub uninterp spec fn rules_ignore(root: Seq<char>, lines: Seq<Seq<char>>, path: Seq<char>, is_dir: bool) -> bool;

/// The root of a matcher built from a builder with root `root` and globs
/// `lines`: the empty matcher, without globs, has an empty root.
pub open spec fn rules_root_of(root: Seq<char>, lines: Seq<Seq<char>>) -> Seq<char> {
    if lines.len() == 0 { Seq::empty() } else { root }
}

/// A root without a leading `./`, as `GitignoreBuilder::new` keeps it.
pub open spec fn without_dot_slash(root: Seq<char>) -> Seq<char> {
    if root.len() >= 2 && root[0] == '.' && root[1] == '/' { root.skip(2) } else { root }
}

/// What `GitignoreBuilder::add_line` makes of a line: nothing for a `#`
/// comment; otherwise the line with trailing white space trimmed (unless
/// it ends in an escaped space `\\ `), and nothing when that is empty.
pub open spec fn stored_rule(line: Seq<char>) -> Option<Seq<char>> {
    if line.len() > 0 && line[0] == '#' {
        None
    } else {
        let t = if line.len() >= 2 && line[line.len() - 2] == '\\' && line[line.len() - 1] == ' ' {
            line
        } else {
            trim_end(line)
        };
        if t.len() == 0 { None } else { Some(t) }
    }
}

/// Creates a gitignore builder (`GitignoreBuilder::new`) for `root`, with
/// no globs yet; the builder keeps `root` less a leading `./`.
#[verifier::external_body]
fn new_builder(root: &str) -> (b: ignore::gitignore::GitignoreBuilder)
    ensures
        builder_root(b) == without_dot_slash(root@),
        builder_lines(b) == Seq::<Seq<char>>::empty(),
{
    ignore::gitignore::GitignoreBuilder::new(root)
}

/// Adds one gitignore line read from the file `from`
/// (`GitignoreBuilder::add_line`). A comment or blank line succeeds and
/// adds nothing. Any other line is trimmed at its end; the call fails
/// exactly when the crate rejects that text as a glob, and then the
/// builder is unchanged; otherwise the text is appended to the globs.
#[verifier::external_body]
fn builder_add_line(b: &mut ignore::gitignore::GitignoreBuilder, from: &str, line: &str) -> (r: Result<(), ignore::Error>)
    ensures
        builder_root(*final(b)) == builder_root(*old(b)),
        r is Err <==> (stored_rule(line@) is Some && rejected_rule_line(stored_rule(line@)->0)),
        r is Ok ==> builder_lines(*final(b)) == match stored_rule(line@) { Some(t) => builder_lines(*old(b)).push(t), None => builder_lines(*old(b)) },
        r is Err ==> builder_lines(*final(b)) == builder_lines(*old(b)),
{
    match b.add_line(Some(std::path::PathBuf::from(from)), line) {
        Ok(_) => Ok(()),
        Err(error) => Err(error),
    }
}

/// Builds the matcher (`GitignoreBuilder::build`). Without globs it gives
/// the empty matcher, whose root is empty; otherwise it fails exactly when
/// the crate cannot compile the globs, and the matcher has the builder's
/// root and globs.
#[verifier::external_body]
fn builder_build(b: &ignore::gitignore::GitignoreBuilder) -> (r: Result<ignore::gitignore::Gitignore, ignore::Error>)
    ensures
        builder_lines(*b).len() == 0 ==> r is Ok,
        builder_lines(*b).len() > 0 ==> (r is Err <==> rejected_rule_set(builder_lines(*b))),
        r matches Ok(g) ==> matcher_lines(g) == builder_lines(*b),
        r matches Ok(g) ==> matcher_root(g) == rules_root_of(builder_root(*b), builder_lines(*b)),
{
    b.build()
}

/// Matches a path relative to the matcher's root
/// (`Gitignore::matched_path_or_any_parents`) and reports whether the
/// result is `Match::Ignore`; the contract names it `rules_ignore`. A
/// matcher without globs matches nothing.
#[verifier::external_body]
fn matcher_ignores(g: &ignore::gitignore::Gitignore, path: &str, is_dir: bool) -> (r: bool)
    requires
        is_normal_path(path@),
    ensures
        r == rules_ignore(matcher_root(*g), matcher_lines(*g), path@, is_dir),
        matcher_lines(*g).len() == 0 ==> !r,
{
    match g.matched_path_or_any_parents(path, is_dir) {
        ignore::Match::Ignore(_) => true,
        ignore::Match::Whitelist(_) => false,
        ignore::Match::None => false,
    }
}

} // verus!

verus! {

/// The runtime directory at the repository root.
pub const SHADOW_DIR: &'static str = ".shadow";

/// The line of the root `.gitignore` after which Shadow's rules start.
pub const SHADOW_MARKER: &'static str = "# shadow";

/// `base` joined with the relative path `part`, separated by one `/`.
pub open spec fn join_path(base: Seq<char>, part: Seq<char>) -> Seq<char> {
    if base.len() == 0 {
        part
    } else if base.last() == '/' {
        base + part
    } else {
        base + seq!['/'] + part
    }
}

/// Joins a base path and a relative part.
pub fn join(base: &str, part: &str) -> (r: String)
    ensures
        r@ == join_path(base@, part@),
{
    let cs = chars_of(base);
    let mut out = string_of(&cs);
    if cs.len() > 0 && cs[cs.len() - 1] != '/' {
        push_char(&mut out, '/');
    }
    push_str(&mut out, part);
    out
}

/// `<root>/.shadow/refs`.
pub open spec fn refs_dir_of(root: Seq<char>) -> Seq<char> {
    join_path(join_path(root, SHADOW_DIR@), "refs"@)
}

/// `<root>/.shadow/cache/objects`.
pub open spec fn cache_dir_of(root: Seq<char>) -> Seq<char> {
    join_path(join_path(join_path(root, SHADOW_DIR@), "cache"@), "objects"@)
}

/// `<root>/.shadow/tmp`.
pub open spec fn tmp_dir_of(root: Seq<char>) -> Seq<char> {
    join_path(join_path(root, SHADOW_DIR@), "tmp"@)
}

/// The components of a relative path: its `/`-separated parts, without
/// empty ones and without `.`.
pub open spec fn normal_parts(s: Seq<char>) -> Seq<Seq<char>> {
    split_on(s, '/').filter(|p: Seq<char>| p.len() > 0 && p != seq!['.'])
}

/// Parts joined with `/`.
pub open spec fn join_parts(parts: Seq<Seq<char>>) -> Seq<char>
    decreases parts.len(),
{
    if parts.len() == 0 {
        Seq::empty()
    } else if parts.len() == 1 {
        parts[0]
    } else {
        join_parts(parts.drop_last()) + seq!['/'] + parts.last()
    }
}

/// A managed path as the repository stores it: non-empty, relative, not
/// starting with `.`, and without a `..` component (every component is a
/// plain name).
pub open spec fn is_valid_relative(s: Seq<char>) -> bool {
    &&& s.len() > 0
    &&& s[0] != '/'
    &&& split_on(s, '/')[0] != seq!['.']
    &&& forall|i: int| 0 <= i < split_on(s, '/').len() ==> #[trigger] split_on(s, '/')[i] != seq!['.', '.']
}

/// A component that names something: not empty, `.` or `..`.
pub open spec fn is_plain_name(p: Seq<char>) -> bool {
    p.len() > 0 && p != seq!['.'] && p != seq!['.', '.']
}

/// A relative path in normal form, as the worktree scan and the refs give
/// them: non-empty, and every `/`-separated component a plain name (so no
/// leading, trailing or doubled `/`, and no `.` or `..`).
pub open spec fn is_normal_path(s: Seq<char>) -> bool {
    s.len() > 0 && forall|i: int| 0 <= i < split_on(s, '/').len() ==> is_plain_name(#[trigger] split_on(s, '/')[i])
}

/// Whether `path` is in normal form.
pub fn normal_path(path: &str) -> (r: bool)
    ensures
        r == is_normal_path(path@),
{
    let cs = chars_of(path);
    if cs.len() == 0 {
        return false;
    }
    let pieces = split_chars(&cs, '/');
    let mut i: usize = 0;
    while i < pieces.len()
        invariant
            cs@ == path@,
            i <= pieces@.len(),
            pieces@.len() == split_on(cs@, '/').len(),
            forall|j: int| 0 <= j < pieces@.len() ==> (#[trigger] pieces@[j])@ == split_on(cs@, '/')[j],
            forall|j: int| 0 <= j < i ==> is_plain_name(#[trigger] split_on(cs@, '/')[j]),
        decreases pieces.len() - i,
    {
        let piece = &pieces[i];
        assert(piece@ == split_on(cs@, '/')[i as int]);
        if piece.len() == 0 || is_dot(piece) || is_dot_dot(piece) {
            return false;
        }
        i = i + 1;
    }
    true
}

/// Why a path cannot be managed.
#[derive(Debug, Clone, PartialEq, Eq)]
pub enum PathError {
    /// The path is empty or absolute.
    EmptyOrAbsolute,
    /// The path has a `.` or `..` component where only names may stand.
    InvalidComponents,
}

fn is_dot(p: &Vec<char>) -> (r: bool)
    ensures
        r == (p@ == seq!['.']),
{
    let r = p.len() == 1 && p[0] == '.';
    proof {
        if p@.len() == 1 && p@[0] == '.' {
            assert(p@ =~= seq!['.']);
        }
    }
    r
}

fn is_dot_dot(p: &Vec<char>) -> (r: bool)
    ensures
        r == (p@ == seq!['.', '.']),
{
    let r = p.len() == 2 && p[0] == '.' && p[1] == '.';
    proof {
        if p@.len() == 2 && p@[0] == '.' && p@[1] == '.' {
            assert(p@ =~= seq!['.', '.']);
        }
    }
    r
}

/// Accepts only non-empty relative paths whose components are all names.
pub fn validate_relative_path(path: &str) -> (r: Result<(), PathError>)
    ensures
        r is Ok <==> is_valid_relative(path@),
        r == Err::<(), PathError>(PathError::EmptyOrAbsolute) <==> (path@.len() == 0 || path@[0] == '/'),
{
    let cs = chars_of(path);
    if cs.len() == 0 || cs[0] == '/' {
        return Err(PathError::EmptyOrAbsolute);
    }
    let parts = split_chars(&cs, '/');
    proof { lemma_split_nonempty(cs@, '/'); }
    if is_dot(&parts[0]) {
        return Err(PathError::InvalidComponents);
    }
    for i in 0..parts.len()
        invariant
            cs@ == path@,
            cs@.len() > 0 && cs@[0] != '/',
            parts@.len() == split_on(cs@, '/').len(),
            forall|j: int| 0 <= j < parts@.len() ==> (#[trigger] parts@[j])@ == split_on(cs@, '/')[j],
            forall|j: int| 0 <= j < i ==> #[trigger] split_on(cs@, '/')[j] != seq!['.', '.'],
    {
        if is_dot_dot(&parts[i]) {
            return Err(PathError::InvalidComponents);
        }
    }
    Ok(())
}

/// The normalized components of a path.
pub(crate) fn path_parts(path: &str) -> (parts: Vec<Vec<char>>)
    ensures
        parts@.len() == normal_parts(path@).len(),
        forall|i: int| 0 <= i < parts@.len() ==> (#[trigger] parts@[i])@ == normal_parts(path@)[i],
{
    let cs = chars_of(path);
    let pieces = split_chars(&cs, '/');
    let ghost keep = |p: Seq<char>| p.len() > 0 && p != seq!['.'];
    let ghost spec_pieces = split_on(cs@, '/');
    let mut parts: Vec<Vec<char>> = Vec::new();
    for i in 0..pieces.len()
        invariant
            cs@ == path@,
            spec_pieces == split_on(cs@, '/'),
            keep == (|p: Seq<char>| p.len() > 0 && p != seq!['.']),
            pieces@.len() == spec_pieces.len(),
            forall|j: int| 0 <= j < pieces@.len() ==> (#[trigger] pieces@[j])@ == spec_pieces[j],
            parts@.len() == spec_pieces.take(i as int).filter(keep).len(),
            forall|j: int| 0 <= j < parts@.len() ==> (#[trigger] parts@[j])@ == spec_pieces.take(i as int).filter(keep)[j],
    {
        let piece = &pieces[i];
        proof {
            let t = spec_pieces.take(i + 1);
            assert(t.drop_last() =~= spec_pieces.take(i as int));
            assert(t.last() == spec_pieces[i as int]);
            assert(t =~= spec_pieces.take(i as int).push(spec_pieces[i as int]));
            spec_pieces.take(i as int).lemma_filter_push(spec_pieces[i as int], keep);
        }
        if piece.len() > 0 && !is_dot(piece) {
            parts.push(copy_chars(piece));
        }
    }
    assert(spec_pieces.take(pieces.len() as int) =~= spec_pieces);
    parts
}

pub(crate) fn copy_chars(v: &Vec<char>) -> (r: Vec<char>)
    ensures
        r@ == v@,
{
    let mut r = Vec::new();
    for i in 0..v.len()
        invariant
            r@ == v@.take(i as int),
    {
        r.push(v[i]);
        assert(v@.take(i + 1) =~= v@.take(i as int).push(v@[i as int]));
    }
    assert(v@.take(v.len() as int) =~= v@);
    r
}

/// Joins parts with `/`.
pub(crate) fn join_all(parts: &Vec<Vec<char>>) -> (r: String)
    ensures
        r@ == join_parts(parts@.map_values(|p: Vec<char>| p@)),
{
    let ghost views = parts@.map_values(|p: Vec<char>| p@);
    let mut out = String::new();
    for i in 0..parts.len()
        invariant
            views == parts@.map_values(|p: Vec<char>| p@),
            out@ == join_parts(views.take(i as int)),
    {
        proof {
            assert(views.take(i + 1).drop_last() =~= views.take(i as int));
            assert(views.take(i + 1).last() == parts@[i as int]@);
        }
        if i > 0 {
            push_char(&mut out, '/');
        } else {
            assert(views.take(0) =~= Seq::<Seq<char>>::empty());
        }
        push_chars(&mut out, &parts[i]);
    }
    assert(views.take(parts.len() as int) =~= views);
    out
}

/// The normalized text of a path: its components joined with `/`.
pub open spec fn normalized(path: Seq<char>) -> Seq<char> {
    join_parts(normal_parts(path))
}

/// The ref of a managed path relative to the refs directory: the path with
/// `.ref` appended to its file name.
pub open spec fn relative_ref_of(path: Seq<char>) -> Seq<char> {
    normalized(path) + ".ref"@
}

/// The path a ref (relative to the refs directory) records: its file name
/// must end in `.ref`, which is removed; otherwise it is no ref.
pub open spec fn source_of_ref(relative_ref: Seq<char>) -> Option<Seq<char>> {
    let parts = normal_parts(relative_ref);
    if parts.len() == 0 || parts.last() == seq!['.', '.'] || !crate::text::has_suffix(parts.last(), ".ref"@) {
        None
    } else {
        let name = parts.last().take(parts.last().len() - 4);
        Some(join_parts(parts.drop_last().push(name)))
    }
}

/// The worktree path a ref file records, or none when the file name does
/// not end in `.ref`.
pub fn source_path_from_ref(relative_ref: &str) -> (r: Option<String>)
    ensures
        opt_view(r) == source_of_ref(relative_ref@),
{
    let mut parts = path_parts(relative_ref);
    let n = parts.len();
    if n == 0 || is_dot_dot(&parts[n - 1]) {
        return None;
    }
    let suffix = chars_of(".ref");
    proof { reveal_strlit(".ref"); }
    if !crate::text::ends_with_chars(&parts[n - 1], &suffix) {
        return None;
    }
    let last = &parts[n - 1];
    let name = string_range_chars(last, 0, last.len() - 4);
    let ghost before = parts@;
    parts.set(n - 1, name);
    proof {
        let spec_parts = normal_parts(relative_ref@);
        let expected = spec_parts.drop_last().push(spec_parts.last().take(spec_parts.last().len() - 4));
        assert(parts@.map_values(|p: Vec<char>| p@) =~= expected);
    }
    Some(join_all(&parts))
}

fn string_range_chars(v: &Vec<char>, from: usize, to: usize) -> (r: Vec<char>)
    requires
        from <= to <= v.len(),
    ensures
        r@ == v@.subrange(from as int, to as int),
{
    let mut r = Vec::new();
    let mut i = from;
    while i < to
        invariant
            from <= i <= to <= v.len(),
            r@ == v@.subrange(from as int, i as int),
        decreases to - i,
    {
        r.push(v[i]);
        assert(v@.subrange(from as int, i + 1) =~= v@.subrange(from as int, i as int).push(v@[i as int]));
        i = i + 1;
    }
    r
}

/// The view of an optional string.
pub open spec fn opt_view(o: Option<String>) -> Option<Seq<char>> {
    match o {
        Some(s) => Some(s@),
        None => None,
    }
}

} // verus!

verus! {

/// Whether a line is the Shadow marker.
pub open spec fn is_marker(line: Seq<char>) -> bool {
    line == SHADOW_MARKER@
}

/// How many lines are the Shadow marker.
pub open spec fn marker_count(lines: Seq<Seq<char>>) -> nat {
    lines.filter(|l: Seq<char>| is_marker(l)).len()
}

/// The lines after the first Shadow marker (none without a marker).
pub open spec fn rule_lines(lines: Seq<Seq<char>>) -> Seq<Seq<char>>
    decreases lines.len(),
{
    if lines.len() == 0 {
        Seq::empty()
    } else if is_marker(lines[0]) {
        lines.skip(1)
    } else {
        rule_lines(lines.skip(1))
    }
}

/// Whether the `ignore` crate rejects a line as a glob: a line it keeps,
/// whose stored text it cannot parse.
pub open spec fn line_rejected(line: Seq<char>) -> bool {
    stored_rule(line) matches Some(t) && rejected_rule_line(t)
}

/// The globs the `ignore` crate keeps of some lines, as their stored text.
pub open spec fn stored_rules(lines: Seq<Seq<char>>) -> Seq<Seq<char>>
    decreases lines.len(),
{
    if lines.len() == 0 {
        Seq::empty()
    } else {
        let rest = stored_rules(lines.drop_last());
        match stored_rule(lines.last()) {
            Some(t) => rest.push(t),
            None => rest,
        }
    }
}

/// The root a matcher of globs `lines` for repository `root` has: empty
/// when there are no globs.
pub open spec fn rules_root(root: Seq<char>, lines: Seq<Seq<char>>) -> Seq<char> {
    if lines.len() == 0 { Seq::empty() } else { without_dot_slash(root) }
}

/// The first line the `ignore` crate rejects, if any.
pub open spec fn first_rejected(lines: Seq<Seq<char>>) -> Option<Seq<char>>
    decreases lines.len(),
{
    if lines.len() == 0 {
        None
    } else if line_rejected(lines[0]) {
        Some(lines[0])
    } else {
        first_rejected(lines.skip(1))
    }
}

/// Why the Shadow rules could not be loaded.
#[derive(Debug, Clone, PartialEq, Eq)]
pub enum RulesError {
    /// The `.gitignore` holds the marker more than once.
    DuplicateMarker,
    /// A rule line is not a valid gitignore glob.
    InvalidRule(String),
    /// The rules could not be compiled together.
    InvalidRuleSet,
}

/// What loading the rules of a `.gitignore` text decides.
pub open spec fn rules_outcome(content: Seq<char>) -> Result<Seq<Seq<char>>, RulesError> {
    let lines = text_lines(content);
    if marker_count(lines) > 1 {
        Err(RulesError::DuplicateMarker)
    } else if first_rejected(rule_lines(lines)) is Some {
        Err(RulesError::InvalidRule(arbitrary()))
    } else if stored_rules(rule_lines(lines)).len() > 0 && rejected_rule_set(stored_rules(rule_lines(lines))) {
        Err(RulesError::InvalidRuleSet)
    } else {
        Ok(stored_rules(rule_lines(lines)))
    }
}

proof fn lemma_no_marker_no_rules(lines: Seq<Seq<char>>)
    requires
        !lines.contains(SHADOW_MARKER@),
    ensures
        rule_lines(lines) == Seq::<Seq<char>>::empty(),
    decreases lines.len(),
{
    if lines.len() > 0 {
        assert(lines[0] != SHADOW_MARKER@);
        assert forall|x: Seq<char>| lines.skip(1).contains(x) implies lines.contains(x) by {
            let k = choose|k: int| 0 <= k < lines.skip(1).len() && lines.skip(1)[k] == x;
            assert(lines[k + 1] == x);
        }
        lemma_no_marker_no_rules(lines.skip(1));
    }
}

proof fn lemma_no_marker_count(lines: Seq<Seq<char>>)
    requires
        !lines.contains(SHADOW_MARKER@),
    ensures
        marker_count(lines) == 0,
    decreases lines.len(),
{
    let pred = |l: Seq<char>| is_marker(l);
    if lines.len() > 0 {
        let init = lines.drop_last();
        assert forall|x: Seq<char>| init.contains(x) implies lines.contains(x) by {
            let k = choose|k: int| 0 <= k < init.len() && init[k] == x;
            assert(lines[k] == x);
        }
        lemma_no_marker_count(init);
        assert(lines.last() != SHADOW_MARKER@);
        init.lemma_filter_push(lines.last(), pred);
        assert(init.push(lines.last()) =~= lines);
    } else {
        assert(lines.filter(pred) =~= Seq::<Seq<char>>::empty()) by {
            reveal(Seq::filter);
        }
    }
}

/// A root `.gitignore` checked out with `\r\n` line endings loads the same
/// rules, or fails the same way, as the same lines ended by `\n`: the
/// marker line is found and each rule is read without its `\r`.
pub proof fn law_crlf_rules_as_lf(lines: Seq<Seq<char>>)
    requires
        forall|k: int, i: int| 0 <= k < lines.len() && 0 <= i < lines[k].len() ==> lines[k][i] != '\n',
        forall|k: int| 0 <= k < lines.len() ==> lines[k].len() == 0 || lines[k].last() != '\r',
    ensures
        text_lines(crlf_text(lines)) == lines,
        rules_outcome(crlf_text(lines)) == rules_outcome(lf_text(lines)),
{
    law_crlf_text_lines(lines);
    law_lf_text_lines(lines);
}

/// Only rules below the `# shadow` marker manage files: a `.gitignore`
/// without the marker yields no globs, and a matcher without globs
/// manages no path.
pub proof fn law_no_marker_manages_nothing(content: Seq<char>)
    ensures
        !text_lines(content).contains(SHADOW_MARKER@) ==> rules_outcome(content) == Ok::<Seq<Seq<char>>, RulesError>(Seq::empty()),
{
    let lines = text_lines(content);
    if !lines.contains(SHADOW_MARKER@) {
        lemma_no_marker_no_rules(lines);
        lemma_no_marker_count(lines);
        assert(stored_rules(Seq::<Seq<char>>::empty()) == Seq::<Seq<char>>::empty());
    }
}

proof fn lemma_rule_lines_step(lines: Seq<Seq<char>>, i: int)
    requires
        0 <= i < lines.len(),
        !is_marker(lines[i]),
    ensures
        rule_lines(lines.skip(i)) == rule_lines(lines.skip(i + 1)),
{
    assert(lines.skip(i)[0] == lines[i]);
    assert(lines.skip(i).skip(1) =~= lines.skip(i + 1));
}

proof fn lemma_first_rejected_step(lines: Seq<Seq<char>>, i: int)
    requires
        0 <= i < lines.len(),
    ensures
        first_rejected(lines.skip(i)) == if line_rejected(lines[i]) {
            Some(lines[i])
        } else {
            first_rejected(lines.skip(i + 1))
        },
{
    assert(lines.skip(i)[0] == lines[i]);
    assert(lines.skip(i).skip(1) =~= lines.skip(i + 1));
}

/// Counts the marker lines.
fn count_markers(lines: &Vec<String>) -> (n: usize)
    ensures
        n == marker_count(lines@.map_values(|l: String| l@)),
{
    let ghost views = lines@.map_values(|l: String| l@);
    let ghost pred = |l: Seq<char>| is_marker(l);
    let mut n: usize = 0;
    for i in 0..lines.len()
        invariant
            views == lines@.map_values(|l: String| l@),
            pred == (|l: Seq<char>| is_marker(l)),
            n == views.take(i as int).filter(pred).len(),
            n <= i,
    {
        proof {
            assert(views.take(i + 1) =~= views.take(i as int).push(views[i as int]));
            views.take(i as int).lemma_filter_push(views[i as int], pred);
        }
        if same_text(lines[i].as_str(), SHADOW_MARKER) {
            n = n + 1;
        }
    }
    assert(views.take(lines.len() as int) =~= views);
    n
}

/// The managed-path rules: the gitignore lines after the `# shadow` marker
/// of the root `.gitignore`.
pub struct ShadowRules {
    managed: ignore::gitignore::Gitignore,
}

impl ShadowRules {
    /// The root the rules are relative to.
    pub closed spec fn root(&self) -> Seq<char> {
        matcher_root(self.managed)
    }

    /// The rule lines, in order.
    pub closed spec fn lines(&self) -> Seq<Seq<char>> {
        matcher_lines(self.managed)
    }

    /// Reads the rules out of the root `.gitignore` text of repository
    /// `root`: the marker may appear at most once, and every line after it
    /// must be a valid gitignore rule.
    pub fn load(root: &str, gitignore: &str) -> (r: Result<ShadowRules, RulesError>)
        ensures
            match (r, rules_outcome(gitignore@)) {
                (Ok(rules), Ok(lines)) => rules.lines() == lines && rules.root() == rules_root(root@, lines),
                (Err(RulesError::InvalidRule(l)), Err(RulesError::InvalidRule(_))) =>
                    first_rejected(rule_lines(text_lines(gitignore@))) == Some(l@),
                (Err(e), Err(f)) => e == f,
                _ => false,
            },
    {
        let lines = lines_of(gitignore);
        let ghost views = lines@.map_values(|l: String| l@);
        assert(views =~= text_lines(gitignore@));
        if count_markers(&lines) > 1 {
            return Err(RulesError::DuplicateMarker);
        }
        let gitignore_path = join(root, ".gitignore");
        let mut builder = new_builder(root);
        let mut in_shadow = false;
        let ghost mut start: int = 0;
        let ghost pred = |l: Seq<char>| is_marker(l);
        assert(views.skip(0) =~= views);
        assert(views.take(0) =~= Seq::<Seq<char>>::empty());
        for i in 0..lines.len()
            invariant
                pred == (|l: Seq<char>| is_marker(l)),
                views.take(i as int).filter(pred).len() == if in_shadow { 1int } else { 0int },
                views == lines@.map_values(|l: String| l@),
                views == text_lines(gitignore@),
                marker_count(views) <= 1,
                builder_root(builder) == without_dot_slash(root@),
                !in_shadow ==> builder_lines(builder) == Seq::<Seq<char>>::empty(),
                !in_shadow ==> rule_lines(views) == rule_lines(views.skip(i as int)),
                !in_shadow ==> first_rejected(rule_lines(views)) == first_rejected(rule_lines(views.skip(i as int))),
                in_shadow ==> 0 <= start <= i,
                in_shadow ==> rule_lines(views) == views.skip(start),
                in_shadow ==> builder_lines(builder) == stored_rules(views.subrange(start, i as int)),
                in_shadow ==> first_rejected(views.skip(start)) == first_rejected(views.skip(i as int)),
        {
            let line = &lines[i];
            proof {
                assert(views.take(i + 1) =~= views.take(i as int).push(views[i as int]));
                views.take(i as int).lemma_filter_push(views[i as int], pred);
                views.lemma_filter_take_len(pred, i + 1);
            }
            if same_text(line.as_str(), SHADOW_MARKER) {
                proof {
                    assert(views.skip(i as int)[0] == views[i as int]);
                    assert(views.skip(i as int).skip(1) =~= views.skip(i + 1));
                    start = i + 1;
                }
                in_shadow = true;
            } else if in_shadow {
                proof { lemma_first_rejected_step(views, i as int); }
                match builder_add_line(&mut builder, gitignore_path.as_str(), line.as_str()) {
                    Ok(()) => {
                        assert(views.subrange(start, i + 1).drop_last() =~= views.subrange(start, i as int));
                    },
                    Err(_) => {
                        return Err(RulesError::InvalidRule(copy_str(line.as_str())));
                    },
                }
            } else {
                proof { lemma_rule_lines_step(views, i as int); }
            }
        }
        proof {
            if in_shadow {
                assert(views.subrange(start, lines@.len() as int) =~= views.skip(start));
                assert(views.skip(lines@.len() as int) =~= Seq::<Seq<char>>::empty());
            } else {
                assert(views.skip(lines@.len() as int) =~= Seq::<Seq<char>>::empty());
            }
        }
        match builder_build(&builder) {
            Ok(managed) => Ok(ShadowRules { managed }),
            Err(_) => Err(RulesError::InvalidRuleSet),
        }
    }

    /// Whether the rules manage the relative `path` (a file), directly or
    /// through one of its directories; later rules override earlier ones and
    /// `!` rules exclude.
    pub fn manages(&self, path: &str) -> (r: bool)
        requires
            is_normal_path(path@),
        ensures
            r == rules_ignore(self.root(), self.lines(), path@, false),
            self.lines().len() == 0 ==> !r,
    {
        matcher_ignores(&self.managed, path, false)
    }
}

} // verus!

verus! {

/// Whether the first component of a path is the name `expected`.
pub open spec fn first_component_matches(path: Seq<char>, expected: Seq<char>) -> bool {
    &&& path.len() > 0
    &&& path[0] != '/'
    &&& split_on(path, '/')[0] == expected
    &&& expected != seq!['.']
}

/// Whether the first component of `path` is the name `expected`.
pub fn first_component_is(path: &str, expected: &str) -> (r: bool)
    ensures
        r == first_component_matches(path@, expected@),
{
    let cs = chars_of(path);
    if cs.len() == 0 || cs[0] == '/' {
        return false;
    }
    let parts = split_chars(&cs, '/');
    proof { lemma_split_nonempty(cs@, '/'); }
    let first = string_of(&parts[0]);
    if !same_text(first.as_str(), expected) {
        return false;
    }
    let e = chars_of(expected);
    !is_dot(&e)
}

/// Whether the worktree scan descends into an entry: everything except
/// `.git` and `.shadow` at the top.
pub fn scan_enters(relative: &str) -> (r: bool)
    ensures
        r == (!first_component_matches(relative@, ".git"@) && !first_component_matches(relative@, SHADOW_DIR@)),
{
    !first_component_is(relative, ".git") && !first_component_is(relative, SHADOW_DIR)
}

/// `<cache>/sha256/<hex[..2]>/<hex[2..]>`.
pub open spec fn cache_path_of(root: Seq<char>, hex: Seq<char>) -> Seq<char> {
    join_path(join_path(join_path(cache_dir_of(root), "sha256"@), hex.take(2)), hex.skip(2))
}

/// `<root>/.shadow/refs/<path>.ref`, for a valid managed path.
pub open spec fn ref_path_of(root: Seq<char>, path: Seq<char>) -> Seq<char> {
    join_path(refs_dir_of(root), relative_ref_of(path))
}

/// A Shadow repository: its root, configuration and managed-path rules.
pub struct Repository {
    pub root: String,
    pub config: Config,
    pub rules: ShadowRules,
}

impl Repository {
    /// The rules the repository was loaded with.
    pub closed spec fn rules(&self) -> ShadowRules {
        self.rules
    }

    /// Assembles a repository from its root, its configuration and the text
    /// of its root `.gitignore` (none when the file does not exist).
    pub fn from_parts(root: String, config: Config, gitignore: Option<String>) -> (r: Result<Repository, RulesError>)
        ensures
            match r {
                Ok(repo) => repo.root == root && repo.config == config && repo.rules().root() == rules_root(root@, repo.rules().lines())
                    && rules_outcome(match gitignore { Some(t) => t@, None => Seq::empty() }) == Ok::<Seq<Seq<char>>, RulesError>(repo.rules().lines()),
                Err(RulesError::InvalidRule(l)) => rules_outcome(match gitignore { Some(t) => t@, None => Seq::empty() }) matches Err(RulesError::InvalidRule(_))
                    && first_rejected(rule_lines(text_lines(match gitignore { Some(t) => t@, None => Seq::empty() }))) == Some(l@),
                Err(e) => rules_outcome(match gitignore { Some(t) => t@, None => Seq::empty() }) == Err::<Seq<Seq<char>>, RulesError>(e),
            },
    {
        let content = match gitignore {
            Some(text) => text,
            None => String::new(),
        };
        match ShadowRules::load(root.as_str(), content.as_str()) {
            Ok(rules) => Ok(Repository { root, config, rules }),
            Err(e) => Err(e),
        }
    }

    /// `<root>/.shadow/refs`.
    pub fn refs_dir(&self) -> (r: String)
        ensures
            r@ == refs_dir_of(self.root@),
    {
        join(join(self.root.as_str(), SHADOW_DIR).as_str(), "refs")
    }

    /// `<root>/.shadow/cache/objects`.
    pub fn cache_dir(&self) -> (r: String)
        ensures
            r@ == cache_dir_of(self.root@),
    {
        join(join(join(self.root.as_str(), SHADOW_DIR).as_str(), "cache").as_str(), "objects")
    }

    /// `<root>/.shadow/tmp`.
    pub fn tmp_dir(&self) -> (r: String)
        ensures
            r@ == tmp_dir_of(self.root@),
    {
        join(join(self.root.as_str(), SHADOW_DIR).as_str(), "tmp")
    }

    /// Whether the rules manage the relative path.
    pub fn is_managed_path(&self, relative: &str) -> (r: bool)
        requires
            is_normal_path(relative@),
        ensures
            r == rules_ignore(self.rules().root(), self.rules().lines(), relative@, false),
            self.rules().lines().len() == 0 ==> !r,
    {
        self.rules.manages(relative)
    }

    /// Where the ref of a managed path is stored.
    pub fn ref_path(&self, relative: &str) -> (r: Result<String, PathError>)
        ensures
            r is Ok <==> is_valid_relative(relative@),
            r matches Ok(p) ==> p@ == ref_path_of(self.root@, relative@),
            r matches Err(e) ==> (e == PathError::EmptyOrAbsolute <==> (relative@.len() == 0 || relative@[0] == '/')),
    {
        match validate_relative_path(relative) {
            Err(e) => Err(e),
            Ok(()) => {
                let parts = path_parts(relative);
                let mut name = join_all(&parts);
                proof {
                    assert(parts@.map_values(|p: Vec<char>| p@) =~= normal_parts(relative@));
                }
                push_str(&mut name, ".ref");
                Ok(join(self.refs_dir().as_str(), name.as_str()))
            },
        }
    }

    /// Where the cache keeps an object.
    pub fn cache_path(&self, oid: &ObjectId) -> (r: String)
        ensures
            r@ == cache_path_of(self.root@, oid@),
    {
        let hex = chars_of(oid.hex());
        proof { crate::model::lemma_canonical_len(oid@); }
        let head = string_of_range(&hex, 0, 2);
        let tail = string_of_range(&hex, 2, hex.len());
        assert(hex@.subrange(0, 2) =~= oid@.take(2));
        assert(hex@.subrange(2, hex@.len() as int) =~= oid@.skip(2));
        join(join(join(self.cache_dir().as_str(), "sha256").as_str(), head.as_str()).as_str(), tail.as_str())
    }

    /// The remote key of an object, in the repository's namespace.
    pub fn blob_key(&self, oid: &ObjectId) -> (k: BlobKey)
        ensures
            k@ == blob_key_text(self.config.name@, oid@),
    {
        BlobKey::for_object(self.config.name.as_str(), oid)
    }

    /// The root `.gitignore` file.
    pub fn gitignore_path(&self) -> (r: String)
        ensures
            r@ == join_path(self.root@, ".gitignore"@),
    {
        join(self.root.as_str(), ".gitignore")
    }
}

} // verus!

verus! {

/// Whether `s` holds no `sep`.
pub open spec fn free_of(s: Seq<char>, sep: char) -> bool {
    forall|i: int| 0 <= i < s.len() ==> s[i] != sep
}

proof fn lemma_split_extend(a: Seq<char>, b: Seq<char>, sep: char)
    requires
        free_of(b, sep),
    ensures
        split_on(a + b, sep) == split_on(a, sep).update(
            split_on(a, sep).len() - 1,
            split_on(a, sep).last() + b,
        ),
    decreases b.len(),
{
    lemma_split_nonempty(a, sep);
    if b.len() == 0 {
        assert(a + b =~= a);
        assert(split_on(a, sep).last() + b =~= split_on(a, sep).last());
        assert(split_on(a, sep).update(split_on(a, sep).len() - 1, split_on(a, sep).last()) =~= split_on(a, sep));
    } else {
        let b0 = b.drop_last();
        let c = b.last();
        lemma_split_extend(a, b0, sep);
        assert((a + b).drop_last() =~= a + b0);
        assert((a + b).last() == c);
        lemma_split_nonempty(a + b0, sep);
        let p = split_on(a, sep);
        let q = split_on(a + b0, sep);
        assert(split_on(a + b, sep) == q.update(q.len() - 1, q.last().push(c)));
        assert(q.last() == p.last() + b0);
        assert((p.last() + b0).push(c) =~= p.last() + b);
        assert(split_on(a + b, sep) =~= p.update(p.len() - 1, p.last() + b));
    }
}

proof fn lemma_split_free(s: Seq<char>, sep: char)
    requires
        free_of(s, sep),
    ensures
        split_on(s, sep) == seq![s],
{
    lemma_split_extend(Seq::empty(), s, sep);
    assert(Seq::<char>::empty() + s =~= s);
    assert(split_on(Seq::<char>::empty(), sep) == seq![Seq::<char>::empty()]);
    assert(Seq::<char>::empty() + s =~= s);
    assert(seq![Seq::<char>::empty()].update(0, Seq::<char>::empty() + s) =~= seq![s]);
}

proof fn lemma_split_join(parts: Seq<Seq<char>>)
    requires
        parts.len() >= 1,
        forall|i: int| 0 <= i < parts.len() ==> free_of(#[trigger] parts[i], '/'),
    ensures
        split_on(join_parts(parts), '/') == parts,
    decreases parts.len(),
{
    if parts.len() == 1 {
        lemma_split_free(parts[0], '/');
        assert(seq![parts[0]] =~= parts);
    } else {
        let rest = parts.drop_last();
        lemma_split_join(rest);
        let x = join_parts(rest);
        let with_sep = x.push('/');
        assert(with_sep.drop_last() =~= x);
        assert(split_on(with_sep, '/') == split_on(x, '/').push(Seq::<char>::empty()));
        lemma_split_extend(with_sep, parts.last(), '/');
        assert(join_parts(parts) =~= with_sep + parts.last());
        assert(Seq::<char>::empty() + parts.last() =~= parts.last());
        assert(rest.push(Seq::<char>::empty()).update(rest.len() as int, Seq::<char>::empty() + parts.last()) =~= parts);
    }
}

proof fn lemma_first_piece_nonempty(s: Seq<char>, sep: char)
    requires
        s.len() > 0,
        s[0] != sep,
    ensures
        split_on(s, sep)[0].len() > 0,
    decreases s.len(),
{
    lemma_split_nonempty(s, sep);
    let p = split_on(s.drop_last(), sep);
    if s.len() > 1 {
        assert(s.drop_last()[0] == s[0]);
        lemma_first_piece_nonempty(s.drop_last(), sep);
        lemma_split_nonempty(s.drop_last(), sep);
        if s.last() == sep {
            assert(split_on(s, sep) == p.push(Seq::<char>::empty()));
            assert(split_on(s, sep)[0] == p[0]);
        } else {
            assert(split_on(s, sep) == p.update(p.len() - 1, p.last().push(s.last())));
            if p.len() > 1 {
                assert(split_on(s, sep)[0] == p[0]);
            }
        }
    } else {
        assert(s.drop_last() =~= Seq::<char>::empty());
        assert(p == seq![Seq::<char>::empty()]);
        assert(s.last() == s[0]);
        assert(split_on(s, sep) == p.update(0, p.last().push(s.last())));
    }
}

proof fn lemma_filter_all(s: Seq<Seq<char>>, keep: spec_fn(Seq<char>) -> bool)
    requires
        forall|i: int| 0 <= i < s.len() ==> keep(#[trigger] s[i]),
    ensures
        s.filter(keep) == s,
    decreases s.len(),
{
    if s.len() > 0 {
        lemma_filter_all(s.drop_last(), keep);
        assert(s =~= s.drop_last().push(s.last()));
        s.drop_last().lemma_filter_push(s.last(), keep);
    } else {
        assert(s.filter(keep) =~= s) by {
            reveal(Seq::filter);
        }
    }
}

proof fn lemma_normal_parts_shape(p: Seq<char>)
    ensures
        forall|i: int| 0 <= i < normal_parts(p).len() ==> {
            &&& free_of(#[trigger] normal_parts(p)[i], '/')
            &&& normal_parts(p)[i].len() > 0
            &&& normal_parts(p)[i] != seq!['.']
        },
{
    let keep = |q: Seq<char>| q.len() > 0 && q != seq!['.'];
    let pieces = split_on(p, '/');
    lemma_split_pieces_free(p, '/');
    assert forall|i: int| 0 <= i < pieces.filter(keep).len() implies {
        &&& free_of(#[trigger] pieces.filter(keep)[i], '/')
        &&& pieces.filter(keep)[i].len() > 0
        &&& pieces.filter(keep)[i] != seq!['.']
    } by {
        pieces.lemma_filter_pred(keep, i);
        let e = pieces.filter(keep)[i];
        assert(pieces.filter(keep).contains(e));
        pieces.lemma_filter_contains_rev(keep, e);
        let j = choose|j: int| 0 <= j < pieces.len() && pieces[j] == e;
        assert(free_of(pieces[j], '/'));
    }
}

proof fn lemma_split_pieces_free(s: Seq<char>, sep: char)
    ensures
        forall|i: int| 0 <= i < split_on(s, sep).len() ==> free_of(#[trigger] split_on(s, sep)[i], sep),
    decreases s.len(),
{
    if s.len() > 0 {
        lemma_split_pieces_free(s.drop_last(), sep);
        lemma_split_nonempty(s.drop_last(), sep);
        let p = split_on(s.drop_last(), sep);
        if s.last() != sep {
            assert forall|i: int| 0 <= i < split_on(s, sep).len() implies free_of(#[trigger] split_on(s, sep)[i], sep) by {
                if i == p.len() - 1 {
                    assert(free_of(p.last(), sep));
                }
            }
        } else {
            assert forall|i: int| 0 <= i < split_on(s, sep).len() implies free_of(#[trigger] split_on(s, sep)[i], sep) by {
                if i < p.len() {
                    assert(split_on(s, sep)[i] == p[i]);
                }
            }
        }
    }
}

/// A valid managed path has at least one component.
proof fn lemma_valid_has_parts(p: Seq<char>)
    requires
        is_valid_relative(p),
    ensures
        normal_parts(p).len() >= 1,
{
    let keep = |q: Seq<char>| q.len() > 0 && q != seq!['.'];
    let pieces = split_on(p, '/');
    lemma_split_nonempty(p, '/');
    lemma_first_piece_nonempty(p, '/');
    assert(keep(pieces[0]));
    pieces.lemma_filter_contains(keep, 0);
}

/// Ref mapping round trip: the ref written for a managed path leads back to
/// that path (in normalized form).
pub proof fn law_ref_path_round_trip(path: Seq<char>)
    requires
        is_valid_relative(path),
    ensures
        source_of_ref(relative_ref_of(path)) == Some(normalized(path)),
{
    let parts = normal_parts(path);
    lemma_valid_has_parts(path);
    lemma_normal_parts_shape(path);
    reveal_strlit(".ref");
    let suffix = ".ref"@;
    assert(free_of(suffix, '/'));
    lemma_split_join(parts);
    let r = relative_ref_of(path);
    lemma_split_extend(join_parts(parts), suffix, '/');
    let pieces = parts.update(parts.len() - 1, parts.last() + suffix);
    assert(split_on(r, '/') == pieces);
    let keep = |q: Seq<char>| q.len() > 0 && q != seq!['.'];
    assert forall|i: int| 0 <= i < pieces.len() implies keep(#[trigger] pieces[i]) by {
        if i == pieces.len() - 1 {
            assert((parts.last() + suffix).len() > 1);
        }
    }
    lemma_filter_all(pieces, keep);
    assert(normal_parts(r) == pieces);
    let last = pieces.last();
    assert(last != seq!['.', '.']) by {
        assert(last[last.len() - 1] == 'f');
    }
    assert(last.skip(last.len() - 4) =~= suffix);
    assert(last.take(last.len() - 4) =~= parts.last());
    assert(pieces.drop_last().push(parts.last()) =~= parts);
}

} // verus!

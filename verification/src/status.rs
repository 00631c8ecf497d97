//! Worktree states, the `status` report and the `check` findings.

use vstd::prelude::*;
use crate::model::{BlobMetadata, ObjectId, ShadowRef, DEFAULT_CACHE_CONTROL, default_cache_control, opt_text};
use crate::text::{chars_of, copy_str, push_char, push_str, same_text, same_chars};
use crate::order::{text_less, chars_less, lemma_less_irreflexive, lemma_less_transitive, lemma_less_total};
use crate::repository::{normal_parts, path_parts};

verus! {

/// How a managed path relates to its ref.
#[derive(Clone, Copy, Debug, Eq, PartialEq, Structural)]
pub enum LocalState {
    /// A managed worktree file without a ref.
    Unpublished,
    /// The worktree file matches its ref.
    Published,
    /// The worktree file and its ref differ.
    Modified,
    /// A ref without a worktree file.
    Missing,
    /// A ref for a path the rules no longer manage.
    Orphaned,
}

/// What the backend holds for a ref's object.
#[derive(Clone, Copy, Debug, Eq, PartialEq, Structural)]
pub enum RemoteStatus {
    /// Present with the expected size and metadata.
    Healthy,
    /// Not present.
    Missing,
    /// Present with a wrong size, content type or cache control.
    Invalid,
}

impl RemoteStatus {
    /// The word the report uses: `ok`, `missing` or `invalid`.
    pub fn as_str(&self) -> (r: &'static str)
        ensures
            r@ == remote_word(*self),
    {
        match self {
            RemoteStatus::Healthy => "ok",
            RemoteStatus::Missing => "missing",
            RemoteStatus::Invalid => "invalid",
        }
    }
}

/// The word for a remote status.
pub open spec fn remote_word(s: RemoteStatus) -> Seq<char> {
    match s {
        RemoteStatus::Healthy => "ok"@,
        RemoteStatus::Missing => "missing"@,
        RemoteStatus::Invalid => "invalid"@,
    }
}

/// The status of one path.
#[derive(Debug, Clone, PartialEq, Eq)]
pub struct StatusRecord {
    pub path: String,
    pub state: LocalState,
    pub remote: Option<RemoteStatus>,
}

/// Whether classifying a path needs the digest of its worktree file: only a
/// managed file that has a ref.
pub open spec fn spec_needs_body_hash(has_body: bool, has_ref: bool, managed: bool) -> bool {
    has_body && has_ref && managed
}

/// Whether the worktree file must be hashed to classify its path.
pub fn needs_body_hash(has_body: bool, has_ref: bool, managed: bool) -> (r: bool)
    ensures
        r == spec_needs_body_hash(has_body, has_ref, managed),
{
    has_body && has_ref && managed
}

/// The local state of a path from whether it has a worktree file, its ref,
/// whether the rules manage it and (when needed) the file's digest; none
/// when there is neither file nor ref.
pub open spec fn spec_local_state(
    has_body: bool,
    reference: Option<(Seq<char>, u64)>,
    managed: bool,
    body_digest: Option<(Seq<char>, u64)>,
) -> Option<LocalState> {
    match reference {
        None => if has_body { Some(LocalState::Unpublished) } else { None },
        Some(r) => if !managed {
            Some(LocalState::Orphaned)
        } else if !has_body {
            Some(LocalState::Missing)
        } else if body_digest == Some(r) {
            Some(LocalState::Published)
        } else {
            Some(LocalState::Modified)
        },
    }
}

/// A ref's object and size.
pub open spec fn ref_digest(r: ShadowRef) -> (Seq<char>, u64) {
    (r.oid@, r.size)
}

/// A worktree digest's object and size.
pub open spec fn digest_of(d: Option<(&ObjectId, u64)>) -> Option<(Seq<char>, u64)> {
    match d {
        Some((oid, size)) => Some((oid@, size)),
        None => None,
    }
}

/// Classifies a path.
pub fn local_state(
    has_body: bool,
    reference: Option<&ShadowRef>,
    managed: bool,
    body_digest: Option<(&ObjectId, u64)>,
) -> (r: Option<LocalState>)
    requires
        spec_needs_body_hash(has_body, reference is Some, managed) ==> body_digest is Some,
    ensures
        r == spec_local_state(
            has_body,
            match reference {
                Some(x) => Some(ref_digest(*x)),
                None => None,
            },
            managed,
            digest_of(body_digest),
        ),
{
    match reference {
        None => if has_body { Some(LocalState::Unpublished) } else { None },
        Some(reference) => {
            if !managed {
                Some(LocalState::Orphaned)
            } else if !has_body {
                Some(LocalState::Missing)
            } else {
                match body_digest {
                    Some((oid, size)) => {
                        if oid.same_as(&reference.oid) && size == reference.size {
                            Some(LocalState::Published)
                        } else {
                            Some(LocalState::Modified)
                        }
                    },
                    None => Some(LocalState::Modified),
                }
            }
        },
    }
}

/// Where the content used for media type detection comes from.
#[derive(Clone, Copy, Debug, Eq, PartialEq, Structural)]
pub enum ContentSource {
    /// The cached object.
    Cache,
    /// The worktree file, which matches the ref.
    Worktree,
    /// No content is available; detection uses the file name alone.
    Nothing,
}

/// The cache when it holds the object, else a worktree file that is known
/// to match the ref.
pub fn content_source(cache_is_file: bool, state: LocalState) -> (r: ContentSource)
    ensures
        r == if cache_is_file {
            ContentSource::Cache
        } else if state == LocalState::Published {
            ContentSource::Worktree
        } else {
            ContentSource::Nothing
        },
{
    if cache_is_file {
        ContentSource::Cache
    } else if state == LocalState::Published {
        ContentSource::Worktree
    } else {
        ContentSource::Nothing
    }
}

/// What a remote object's metadata says about a ref: missing, complete, or
/// present with a wrong size, content type or cache control.
pub open spec fn spec_remote_status(stat: Option<BlobMetadata>, size: u64, content_type: Seq<char>) -> RemoteStatus {
    match stat {
        None => RemoteStatus::Missing,
        Some(m) => if m.size == size && opt_text(m.content_type) == Some(content_type) && opt_text(
            m.cache_control,
        ) == Some(default_cache_control()) {
            RemoteStatus::Healthy
        } else {
            RemoteStatus::Invalid
        },
    }
}

fn opt_equals(o: &Option<String>, expected: &str) -> (r: bool)
    ensures
        r == (opt_text(*o) == Some(expected@)),
{
    match o {
        Some(v) => same_text(v.as_str(), expected),
        None => false,
    }
}

/// Judges the remote object of a ref.
pub fn remote_status(stat: Option<&BlobMetadata>, reference: &ShadowRef, content_type: &str) -> (r: RemoteStatus)
    ensures
        r == spec_remote_status(
            match stat {
                Some(m) => Some(*m),
                None => None,
            },
            reference.size,
            content_type@,
        ),
{
    match stat {
        None => RemoteStatus::Missing,
        Some(metadata) => {
            if metadata.size == reference.size && opt_equals(&metadata.content_type, content_type) && opt_equals(
                &metadata.cache_control,
                DEFAULT_CACHE_CONTROL,
            ) {
                RemoteStatus::Healthy
            } else {
                RemoteStatus::Invalid
            }
        },
    }
}

} // verus!

verus! {

/// `label` padded with spaces to at least `width` characters (`{:<width}`).
pub open spec fn pad(label: Seq<char>, width: nat) -> Seq<char> {
    if label.len() >= width {
        label
    } else {
        label + Seq::new((width - label.len()) as nat, |_i: int| ' ')
    }
}

/// One line of a group: a tab, the padded label, a space and the path.
pub open spec fn entry_line(entry: (Seq<char>, Seq<char>)) -> Seq<char> {
    "\t"@ + pad(entry.0, 10) + " "@ + entry.1 + "\n"@
}

/// The lines of all entries.
pub open spec fn entries_text(entries: Seq<(Seq<char>, Seq<char>)>) -> Seq<char>
    decreases entries.len(),
{
    if entries.len() == 0 {
        Seq::empty()
    } else {
        entries_text(entries.drop_last()) + entry_line(entries.last())
    }
}

/// The report after writing a group: nothing for no entries; otherwise a
/// blank line when something precedes it, the heading, the hint and the
/// entries.
pub open spec fn after_group(out: Seq<char>, heading: Seq<char>, hint: Seq<char>, entries: Seq<(Seq<char>, Seq<char>)>) -> Seq<char> {
    if entries.len() == 0 {
        out
    } else {
        (if out.len() == 0 { out } else { out + "\n"@ }) + heading + "\n"@ + hint + "\n"@ + entries_text(entries)
    }
}

fn push_padded(out: &mut String, label: &str, width: usize)
    ensures
        final(out)@ == old(out)@ + pad(label@, width as nat),
{
    let cs = chars_of(label);
    push_str(out, label);
    if cs.len() < width {
        let ghost base = out@;
        let mut i = cs.len();
        while i < width
            invariant
                cs.len() <= i <= width,
                out@ == base + Seq::new((i - cs.len()) as nat, |_i: int| ' '),
            decreases width - i,
        {
            push_char(out, ' ');
            assert(base + Seq::new((i + 1 - cs.len()) as nat, |_i: int| ' ') =~= (base + Seq::new(
                (i - cs.len()) as nat,
                |_i: int| ' ',
            )).push(' '));
            i = i + 1;
        }
        assert(old(out)@ + pad(label@, width as nat) =~= base + Seq::new((width - cs.len()) as nat, |_i: int| ' '));
    }
}

/// The view of group entries.
pub open spec fn entries_view(entries: Seq<(String, String)>) -> Seq<(Seq<char>, Seq<char>)> {
    entries.map_values(|e: (String, String)| (e.0@, e.1@))
}

/// Writes one group of the report: a heading, a hint and one line per
/// entry, separated from earlier groups by a blank line; nothing when there
/// are no entries.
pub fn write_group(output: &mut String, heading: &str, hint: &str, entries: &Vec<(String, String)>)
    ensures
        final(output)@ == after_group(old(output)@, heading@, hint@, entries_view(entries@)),
{
    let ghost view = entries_view(entries@);
    proof {
        reveal_strlit("\t");
        reveal_strlit(" ");
        reveal_strlit("\n");
    }
    if entries.len() == 0 {
        return;
    }
    let existing = chars_of(output.as_str());
    if existing.len() > 0 {
        push_char(output, '\n');
    }
    push_str(output, heading);
    push_char(output, '\n');
    push_str(output, hint);
    push_char(output, '\n');
    let ghost head = output@;
    assert(view.take(0) =~= Seq::<(Seq<char>, Seq<char>)>::empty());
    for i in 0..entries.len()
        invariant
            view == entries_view(entries@),
            output@ == head + entries_text(view.take(i as int)),
    {
        let ghost before = output@;
        push_char(output, '\t');
        push_padded(output, entries[i].0.as_str(), 10);
        push_char(output, ' ');
        push_str(output, entries[i].1.as_str());
        push_char(output, '\n');
        proof {
            reveal_strlit("\t");
            reveal_strlit(" ");
            reveal_strlit("\n");
            assert(output@ =~= before + entry_line((entries@[i as int].0@, entries@[i as int].1@)));
            let e = (entries@[i as int].0@, entries@[i as int].1@);
            assert(view.take(i + 1).drop_last() =~= view.take(i as int));
            assert(entries_text(view.take(i + 1)) == entries_text(view.take(i as int)) + entry_line(view.take(i + 1).last()));
            assert(view.take(i + 1).last() == (entries@[i as int].0@, entries@[i as int].1@));
        }
    }
    assert(view.take(entries.len() as int) =~= view);
}

/// The entry a record contributes to group `g` (0: changes, 1: missing,
/// 2: orphaned, 3: remote issues), if any.
pub open spec fn entry_for(r: StatusRecord, g: int) -> Option<(Seq<char>, Seq<char>)> {
    if g == 0 {
        match r.state {
            LocalState::Unpublished => Some(("new file"@, r.path@)),
            LocalState::Modified => Some(("modified"@, r.path@)),
            _ => None,
        }
    } else if g == 1 {
        if r.state == LocalState::Missing { Some(("missing"@, r.path@)) } else { None }
    } else if g == 2 {
        if r.state == LocalState::Orphaned { Some(("orphaned"@, r.path@)) } else { None }
    } else {
        match r.remote {
            Some(RemoteStatus::Missing) => Some(("missing"@, r.path@)),
            Some(RemoteStatus::Invalid) => Some(("invalid"@, r.path@)),
            _ => None,
        }
    }
}

/// The entries of group `g`, in record order.
pub open spec fn group_entries(records: Seq<StatusRecord>, g: int) -> Seq<(Seq<char>, Seq<char>)>
    decreases records.len(),
{
    if records.len() == 0 {
        Seq::empty()
    } else {
        let rest = group_entries(records.drop_last(), g);
        match entry_for(records.last(), g) {
            Some(e) => rest.push(e),
            None => rest,
        }
    }
}

fn entry_of(r: &StatusRecord, g: usize) -> (e: Option<(String, String)>)
    ensures
        match e {
            Some(x) => entry_for(*r, g as int) == Some((x.0@, x.1@)),
            None => entry_for(*r, g as int) is None,
        },
{
    let label: &str = if g == 0 {
        match r.state {
            LocalState::Unpublished => "new file",
            LocalState::Modified => "modified",
            _ => return None,
        }
    } else if g == 1 {
        if r.state == LocalState::Missing { "missing" } else { return None }
    } else if g == 2 {
        if r.state == LocalState::Orphaned { "orphaned" } else { return None }
    } else {
        match r.remote {
            Some(RemoteStatus::Missing) => "missing",
            Some(RemoteStatus::Invalid) => "invalid",
            _ => return None,
        }
    };
    Some((copy_str(label), copy_str(r.path.as_str())))
}

fn collect_group(records: &Vec<StatusRecord>, g: usize) -> (entries: Vec<(String, String)>)
    ensures
        entries_view(entries@) == group_entries(records@, g as int),
{
    let mut entries: Vec<(String, String)> = Vec::new();
    for i in 0..records.len()
        invariant
            entries_view(entries@) == group_entries(records@.take(i as int), g as int),
    {
        proof {
            assert(records@.take(i + 1).drop_last() =~= records@.take(i as int));
            assert(records@.take(i + 1).last() == records@[i as int]);
        }
        let ghost before = entries@;
        match entry_of(&records[i], g) {
            Some(e) => {
                entries.push(e);
                assert(entries_view(entries@) =~= entries_view(before).push((e.0@, e.1@)));
            },
            None => {},
        }
    }
    assert(records@.take(records.len() as int) =~= records@);
    entries
}

/// The report shown when nothing needs attention.
pub const CLEAN_MESSAGE: &'static str = "Shadow working tree clean.\n";

/// The `status` report of a list of records: the groups that have entries,
/// or the clean message.
pub open spec fn status_report(records: Seq<StatusRecord>) -> Seq<char> {
    let o0 = after_group(
        Seq::empty(),
        "Changes not published:"@,
        "  (run \"shadow publish\" to publish worktree content)"@,
        group_entries(records, 0),
    );
    let o1 = after_group(o0, "Files missing from the worktree:"@, "  (run \"shadow restore\" to restore them)"@, group_entries(records, 1));
    let o2 = after_group(
        o1,
        "Orphaned references:"@,
        "  (remove the corresponding files under .shadow/refs)"@,
        group_entries(records, 2),
    );
    let o3 = after_group(
        o2,
        "Remote object issues:"@,
        "  (run \"shadow publish\" to repair remote objects)"@,
        group_entries(records, 3),
    );
    if o3.len() == 0 { CLEAN_MESSAGE@ } else { o3 }
}

/// Renders the `status` report, showing only groups that need action.
pub fn render(records: &Vec<StatusRecord>) -> (out: String)
    ensures
        out@ == status_report(records@),
{
    let mut output = String::new();
    write_group(
        &mut output,
        "Changes not published:",
        "  (run \"shadow publish\" to publish worktree content)",
        &collect_group(records, 0),
    );
    write_group(
        &mut output,
        "Files missing from the worktree:",
        "  (run \"shadow restore\" to restore them)",
        &collect_group(records, 1),
    );
    write_group(
        &mut output,
        "Orphaned references:",
        "  (remove the corresponding files under .shadow/refs)",
        &collect_group(records, 2),
    );
    write_group(
        &mut output,
        "Remote object issues:",
        "  (run \"shadow publish\" to repair remote objects)",
        &collect_group(records, 3),
    );
    let cs = chars_of(output.as_str());
    if cs.len() == 0 {
        output = copy_str(CLEAN_MESSAGE);
    }
    output
}

} // verus!

verus! {

/// What `check` says of a local state that needs attention.
pub open spec fn state_problem(state: LocalState) -> Option<Seq<char>> {
    match state {
        LocalState::Unpublished => Some("unpublished worktree file"@),
        LocalState::Modified => Some("worktree file differs from ref"@),
        LocalState::Missing => Some("worktree file is missing"@),
        LocalState::Orphaned => Some("ref is outside the # shadow rules"@),
        LocalState::Published => None,
    }
}

/// The findings `check` reports for one record: its local problem, then
/// its remote problem.
pub open spec fn record_findings(r: StatusRecord) -> Seq<Seq<char>> {
    let local = match state_problem(r.state) {
        Some(m) => seq!["error: "@ + m + ": "@ + r.path@],
        None => Seq::empty(),
    };
    match r.remote {
        Some(s) => if s == RemoteStatus::Healthy {
            local
        } else {
            local.push("error: remote object is "@ + remote_word(s) + ": "@ + r.path@)
        },
        None => local,
    }
}

/// The findings for all records, in order.
pub open spec fn records_findings(records: Seq<StatusRecord>) -> Seq<Seq<char>>
    decreases records.len(),
{
    if records.len() == 0 {
        Seq::empty()
    } else {
        records_findings(records.drop_last()) + record_findings(records.last())
    }
}

/// The findings for cached objects whose content does not match their ref.
pub open spec fn cache_findings(paths: Seq<Seq<char>>) -> Seq<Seq<char>> {
    paths.map_values(|p: Seq<char>| "error: cache object is invalid: "@ + p)
}

/// Whether a record needs no attention from `check`: published, with a
/// healthy remote object or no remote check.
pub open spec fn record_healthy(r: StatusRecord) -> bool {
    r.state == LocalState::Published && (r.remote is None || r.remote == Some(RemoteStatus::Healthy))
}

proof fn lemma_record_findings_empty(r: StatusRecord)
    ensures
        record_findings(r).len() == 0 <==> record_healthy(r),
{
}

proof fn lemma_records_findings_empty(records: Seq<StatusRecord>)
    ensures
        records_findings(records).len() == 0 <==> forall|i: int| 0 <= i < records.len() ==> record_healthy(#[trigger] records[i]),
    decreases records.len(),
{
    if records.len() > 0 {
        let init = records.drop_last();
        lemma_records_findings_empty(init);
        lemma_record_findings_empty(records.last());
        if forall|i: int| 0 <= i < records.len() ==> record_healthy(#[trigger] records[i]) {
            assert forall|i: int| 0 <= i < init.len() implies record_healthy(#[trigger] init[i]) by {
                assert(init[i] == records[i]);
            }
            assert(record_healthy(records[records.len() - 1]));
        }
        if records_findings(records).len() == 0 {
            assert forall|i: int| 0 <= i < records.len() implies record_healthy(#[trigger] records[i]) by {
                if i < init.len() {
                    assert(init[i] == records[i]);
                }
            }
        }
    }
}

/// `check` passes exactly on a healthy repository: it reports nothing when,
/// and only when, every record is published with a healthy (or unchecked)
/// remote object and no cached object is invalid. Every local state but
/// `Published` is a problem.
pub proof fn law_check_clean_iff_healthy(records: Seq<StatusRecord>, invalid_cache: Seq<Seq<char>>)
    ensures
        (records_findings(records) + cache_findings(invalid_cache)).len() == 0 <==> (
            (forall|i: int| 0 <= i < records.len() ==> {
                let r = #[trigger] records[i];
                r.state == LocalState::Published && (r.remote is None || r.remote == Some(RemoteStatus::Healthy))
            })
            && invalid_cache.len() == 0),
        forall|s: LocalState| #[trigger] state_problem(s) is None <==> s == LocalState::Published,
{
    lemma_records_findings_empty(records);
    assert(cache_findings(invalid_cache).len() == invalid_cache.len());
}

fn problem_of(state: LocalState) -> (r: Option<&'static str>)
    ensures
        match r {
            Some(m) => state_problem(state) == Some(m@),
            None => state_problem(state) is None,
        },
{
    match state {
        LocalState::Unpublished => Some("unpublished worktree file"),
        LocalState::Modified => Some("worktree file differs from ref"),
        LocalState::Missing => Some("worktree file is missing"),
        LocalState::Orphaned => Some("ref is outside the # shadow rules"),
        LocalState::Published => None,
    }
}

fn finding(prefix: &str, what: &str, path: &str) -> (r: String)
    ensures
        r@ == prefix@ + what@ + ": "@ + path@,
{
    let mut out = copy_str(prefix);
    push_str(&mut out, what);
    push_str(&mut out, ": ");
    push_str(&mut out, path);
    out
}

/// Every problem `check` reports: for each record its local and remote
/// problems, then every invalid cache object. The repository is healthy
/// exactly when there are none.
pub fn check_findings(records: &Vec<StatusRecord>, invalid_cache: &Vec<String>) -> (lines: Vec<String>)
    ensures
        lines@.map_values(|l: String| l@) == records_findings(records@) + cache_findings(
            invalid_cache@.map_values(|p: String| p@),
        ),
{
    let mut lines: Vec<String> = Vec::new();
    for i in 0..records.len()
        invariant
            lines@.map_values(|l: String| l@) == records_findings(records@.take(i as int)),
    {
        let record = &records[i];
        let ghost before = lines@.map_values(|l: String| l@);
        let ghost mid = before;
        match problem_of(record.state) {
            Some(message) => {
                lines.push(finding("error: ", message, record.path.as_str()));
                proof { mid = before.push("error: "@ + message@ + ": "@ + record.path@); }
            },
            None => {},
        }
        assert(lines@.map_values(|l: String| l@) =~= mid);
        match record.remote {
            Some(state) => {
                if state != RemoteStatus::Healthy {
                    lines.push(finding("error: remote object is ", state.as_str(), record.path.as_str()));
                }
            },
            None => {},
        }
        proof {
            assert(records@.take(i + 1).drop_last() =~= records@.take(i as int));
            assert(records@.take(i + 1).last() == records@[i as int]);
            assert(lines@.map_values(|l: String| l@) =~= before + record_findings(records@[i as int]));
        }
    }
    assert(records@.take(records.len() as int) =~= records@);
    let ghost base = lines@.map_values(|l: String| l@);
    let ghost paths = invalid_cache@.map_values(|p: String| p@);
    for i in 0..invalid_cache.len()
        invariant
            paths == invalid_cache@.map_values(|p: String| p@),
            lines@.map_values(|l: String| l@) == base + cache_findings(paths.take(i as int)),
    {
        let mut line = copy_str("error: cache object is invalid: ");
        push_str(&mut line, invalid_cache[i].as_str());
        let ghost old_lines = lines@.map_values(|l: String| l@);
        let ghost added = line@;
        assert(added == "error: cache object is invalid: "@ + paths[i as int]);
        lines.push(line);
        assert(lines@.map_values(|l: String| l@) =~= old_lines.push(added));
        assert(cache_findings(paths.take(i + 1)) =~= cache_findings(paths.take(i as int)).push(
            "error: cache object is invalid: "@ + paths[i as int],
        ));
        assert(lines@.map_values(|l: String| l@) =~= base + cache_findings(paths.take(i + 1)));
    }
    assert(paths.take(invalid_cache.len() as int) =~= paths);
    lines
}

/// Whether a cached object is sound: its digest and size match the ref.
/// A cache file that is absent is not invalid; `cached` is its digest when
/// present.
pub fn cache_matches(cached: (&ObjectId, u64), reference: &ShadowRef) -> (r: bool)
    ensures
        r == (cached.0@ == reference.oid@ && cached.1 == reference.size),
{
    cached.0.same_as(&reference.oid) && cached.1 == reference.size
}

/// Whether a record belongs in some group of the report.
pub open spec fn needs_action(r: StatusRecord) -> bool {
    entry_for(r, 0) is Some || entry_for(r, 1) is Some || entry_for(r, 2) is Some || entry_for(r, 3) is Some
}

proof fn lemma_group_empty(records: Seq<StatusRecord>, g: int)
    ensures
        group_entries(records, g).len() == 0 <==> forall|i: int| 0 <= i < records.len() ==> (#[trigger] entry_for(records[i], g)) is None,
    decreases records.len(),
{
    if records.len() > 0 {
        let init = records.drop_last();
        lemma_group_empty(init, g);
        if group_entries(records, g).len() == 0 {
            assert forall|i: int| 0 <= i < records.len() implies (#[trigger] entry_for(records[i], g)) is None by {
                if i < records.len() - 1 {
                    assert(records[i] == init[i]);
                }
            }
        }
        if forall|i: int| 0 <= i < records.len() ==> (#[trigger] entry_for(records[i], g)) is None {
            assert(entry_for(records[records.len() - 1], g) is None);
            assert forall|i: int| 0 <= i < init.len() implies (#[trigger] entry_for(init[i], g)) is None by {
                assert(init[i] == records[i]);
            }
        }
    }
}

proof fn lemma_after_group_start(out: Seq<char>, heading: Seq<char>, hint: Seq<char>, entries: Seq<(Seq<char>, Seq<char>)>)
    requires
        heading.len() > 0,
    ensures
        entries.len() == 0 ==> after_group(out, heading, hint, entries) == out,
        entries.len() > 0 && out.len() == 0 ==> after_group(out, heading, hint, entries).len() > 0
            && after_group(out, heading, hint, entries)[0] == heading[0],
        entries.len() > 0 && out.len() > 0 ==> after_group(out, heading, hint, entries).len() > 0
            && after_group(out, heading, hint, entries)[0] == out[0],
{
}

/// The report is the clean message exactly when no record needs action:
/// no unpublished, modified, missing or orphaned file and no remote object
/// missing or invalid.
pub proof fn law_clean_report_iff_nothing_to_do(records: Seq<StatusRecord>)
    ensures
        status_report(records) == CLEAN_MESSAGE@ <==> forall|i: int| 0 <= i < records.len() ==> !needs_action(#[trigger] records[i]),
{
    reveal_strlit("Shadow working tree clean.\n");
    reveal_strlit("Changes not published:");
    reveal_strlit("Files missing from the worktree:");
    reveal_strlit("Orphaned references:");
    reveal_strlit("Remote object issues:");
    lemma_group_empty(records, 0);
    lemma_group_empty(records, 1);
    lemma_group_empty(records, 2);
    lemma_group_empty(records, 3);
    let h0 = "Changes not published:"@;
    let h1 = "Files missing from the worktree:"@;
    let h2 = "Orphaned references:"@;
    let h3 = "Remote object issues:"@;
    let t0 = "  (run \"shadow publish\" to publish worktree content)"@;
    let t1 = "  (run \"shadow restore\" to restore them)"@;
    let t2 = "  (remove the corresponding files under .shadow/refs)"@;
    let t3 = "  (run \"shadow publish\" to repair remote objects)"@;
    let o0 = after_group(Seq::empty(), h0, t0, group_entries(records, 0));
    let o1 = after_group(o0, h1, t1, group_entries(records, 1));
    let o2 = after_group(o1, h2, t2, group_entries(records, 2));
    let o3 = after_group(o2, h3, t3, group_entries(records, 3));
    lemma_after_group_start(Seq::empty(), h0, t0, group_entries(records, 0));
    lemma_after_group_start(o0, h1, t1, group_entries(records, 1));
    lemma_after_group_start(o1, h2, t2, group_entries(records, 2));
    lemma_after_group_start(o2, h3, t3, group_entries(records, 3));
    if forall|i: int| 0 <= i < records.len() ==> !needs_action(#[trigger] records[i]) {
        assert forall|i: int| 0 <= i < records.len() implies (#[trigger] entry_for(records[i], 0)) is None by {
            assert(!needs_action(records[i]));
        }
        assert forall|i: int| 0 <= i < records.len() implies (#[trigger] entry_for(records[i], 1)) is None by {
            assert(!needs_action(records[i]));
        }
        assert forall|i: int| 0 <= i < records.len() implies (#[trigger] entry_for(records[i], 2)) is None by {
            assert(!needs_action(records[i]));
        }
        assert forall|i: int| 0 <= i < records.len() implies (#[trigger] entry_for(records[i], 3)) is None by {
            assert(!needs_action(records[i]));
        }
        assert(o3.len() == 0);
    } else {
        let i = choose|i: int| 0 <= i < records.len() && needs_action(#[trigger] records[i]);
        if entry_for(records[i], 0) is Some {
            assert(group_entries(records, 0).len() > 0);
        } else if entry_for(records[i], 1) is Some {
            assert(group_entries(records, 1).len() > 0);
        } else if entry_for(records[i], 2) is Some {
            assert(group_entries(records, 2).len() > 0);
        } else {
            assert(group_entries(records, 3).len() > 0);
        }
        assert(o3.len() > 0);
        assert(o3[0] != 'S');
        assert(CLEAN_MESSAGE@[0] == 'S');
    }
}

/// The components of a path, by which paths are compared and told apart.
pub open spec fn path_key(p: Seq<char>) -> Seq<Seq<char>> {
    normal_parts(p)
}

/// The order of paths as `Path` orders them: component by component, a
/// path that is a proper prefix of another first.
pub open spec fn parts_less(a: Seq<Seq<char>>, b: Seq<Seq<char>>) -> bool
    decreases a.len(),
{
    if a.len() == 0 {
        b.len() > 0
    } else if b.len() == 0 {
        false
    } else if text_less(a[0], b[0]) {
        true
    } else if a[0] != b[0] {
        false
    } else {
        parts_less(a.skip(1), b.skip(1))
    }
}

proof fn lemma_parts_irreflexive(a: Seq<Seq<char>>)
    ensures
        !parts_less(a, a),
    decreases a.len(),
{
    if a.len() > 0 {
        lemma_less_irreflexive(a[0]);
        lemma_parts_irreflexive(a.skip(1));
    }
}

proof fn lemma_parts_transitive(a: Seq<Seq<char>>, b: Seq<Seq<char>>, c: Seq<Seq<char>>)
    requires
        parts_less(a, b),
        parts_less(b, c),
    ensures
        parts_less(a, c),
    decreases a.len(),
{
    if a.len() > 0 && b.len() > 0 && c.len() > 0 {
        if text_less(a[0], b[0]) && text_less(b[0], c[0]) {
            lemma_less_transitive(a[0], b[0], c[0]);
        } else if a[0] == b[0] && b[0] == c[0] {
            lemma_parts_transitive(a.skip(1), b.skip(1), c.skip(1));
        }
    }
}

proof fn lemma_parts_total(a: Seq<Seq<char>>, b: Seq<Seq<char>>)
    requires
        a != b,
    ensures
        parts_less(a, b) || parts_less(b, a),
    decreases a.len(),
{
    if a.len() > 0 && b.len() > 0 {
        if a[0] != b[0] {
            lemma_less_total(a[0], b[0]);
        } else {
            if a.skip(1) == b.skip(1) {
                assert(a =~= seq![a[0]] + a.skip(1));
                assert(b =~= seq![b[0]] + b.skip(1));
            }
            lemma_parts_total(a.skip(1), b.skip(1));
        }
    } else if a.len() == 0 && b.len() == 0 {
        assert(a =~= b);
    }
}

/// Whether paths come strictly ascending by their components, so that no
/// two name the same path.
pub open spec fn paths_ascending(s: Seq<Seq<char>>) -> bool {
    forall|i: int, j: int| 0 <= i < j < s.len() ==> parts_less(path_key(#[trigger] s[i]), path_key(#[trigger] s[j]))
}

/// The views of some strings.
pub open spec fn texts(s: Seq<String>) -> Seq<Seq<char>> {
    s.map_values(|x: String| x@)
}

fn key_of(p: &str) -> (k: Vec<Vec<char>>)
    ensures
        k@.map_values(|c: Vec<char>| c@) == path_key(p@),
{
    let k = path_parts(p);
    assert(k@.map_values(|c: Vec<char>| c@) =~= path_key(p@));
    k
}

/// Whether path `a` sorts before path `b`.
fn path_before(a: &str, b: &str) -> (r: bool)
    ensures
        r == parts_less(path_key(a@), path_key(b@)),
{
    let ka = key_of(a);
    let kb = key_of(b);
    let ghost va = ka@.map_values(|c: Vec<char>| c@);
    let ghost vb = kb@.map_values(|c: Vec<char>| c@);
    let mut i: usize = 0;
    assert(va.skip(0) =~= va);
    assert(vb.skip(0) =~= vb);
    while i < ka.len() && i < kb.len()
        invariant
            va == ka@.map_values(|c: Vec<char>| c@),
            vb == kb@.map_values(|c: Vec<char>| c@),
            va == path_key(a@),
            vb == path_key(b@),
            i <= ka.len(),
            i <= kb.len(),
            parts_less(va, vb) == parts_less(va.skip(i as int), vb.skip(i as int)),
        decreases ka.len() - i,
    {
        assert(va.skip(i as int)[0] == ka@[i as int]@);
        assert(vb.skip(i as int)[0] == kb@[i as int]@);
        assert(va.skip(i as int).skip(1) =~= va.skip(i + 1));
        assert(vb.skip(i as int).skip(1) =~= vb.skip(i + 1));
        if chars_less(&ka[i], &kb[i]) {
            return true;
        }
        if !same_chars(&ka[i], &kb[i]) {
            return false;
        }
        i = i + 1;
    }
    i < kb.len()
}

/// Whether some path of `s` has the components of `p`.
pub open spec fn lists_path(s: Seq<Seq<char>>, p: Seq<char>) -> bool {
    exists|j: int| 0 <= j < s.len() && path_key(#[trigger] s[j]) == path_key(p)
}

/// Adds a path to an ascending list unless a path with its components is
/// there already.
fn insert_path(out: &mut Vec<String>, x: String)
    requires
        paths_ascending(texts(old(out)@)),
    ensures
        paths_ascending(texts(final(out)@)),
        forall|q: Seq<char>| texts(old(out)@).contains(q) ==> texts(final(out)@).contains(q),
        forall|q: Seq<char>| texts(final(out)@).contains(q) ==> (texts(old(out)@).contains(q) || q == x@),
        lists_path(texts(final(out)@), x@),
{
    let ghost before = texts(out@);
    let ghost kx = path_key(x@);
    let mut p: usize = 0;
    while p < out.len()
        invariant
            p <= out.len(),
            texts(out@) == before,
            paths_ascending(before),
            kx == path_key(x@),
            forall|k: int| 0 <= k < p ==> parts_less(path_key(#[trigger] before[k]), kx),
        ensures
            p <= out.len(),
            forall|k: int| 0 <= k < p ==> parts_less(path_key(#[trigger] before[k]), kx),
            p < out.len() ==> !parts_less(path_key(before[p as int]), kx),
        decreases out.len() - p,
    {
        assert(before[p as int] == out@[p as int]@);
        if !path_before(out[p].as_str(), x.as_str()) {
            break;
        }
        p = p + 1;
    }
    if p < out.len() {
        assert(before[p as int] == out@[p as int]@);
        if !path_before(x.as_str(), out[p].as_str()) {
            proof {
                if path_key(before[p as int]) != kx {
                    lemma_parts_total(path_key(before[p as int]), kx);
                }
                assert(texts(out@)[p as int] == before[p as int]);
            }
            return;
        }
    }
    let ghost xv = x@;
    out.insert(p, x);
    proof {
        let after = texts(out@);
        assert(after =~= before.insert(p as int, xv));
        assert forall|i: int, j: int| 0 <= i < j < after.len() implies parts_less(path_key(#[trigger] after[i]), path_key(#[trigger] after[j])) by {
            if i == p {
                if j - 1 > p {
                    lemma_parts_transitive(kx, path_key(before[p as int]), path_key(before[j - 1]));
                }
            } else if j == p {
            } else if i < p && j > p {
                assert(after[j] == before[j - 1]);
            }
        }
        assert forall|q: Seq<char>| before.contains(q) implies after.contains(q) by {
            let k = choose|k: int| 0 <= k < before.len() && before[k] == q;
            if k < p {
                assert(after[k] == q);
            } else {
                assert(after[k + 1] == q);
            }
        }
        assert forall|q: Seq<char>| after.contains(q) implies (before.contains(q) || q == xv) by {
            let k = choose|k: int| 0 <= k < after.len() && after[k] == q;
            if k < p {
                assert(before[k] == q);
            } else if k > p {
                assert(before[k - 1] == q);
            }
        }
        assert(after[p as int] == xv);
    }
}

/// The paths `status` reports on: every worktree path and every ref path,
/// once each, ascending by their components.
pub fn status_paths(worktree: &Vec<String>, refs: &Vec<String>) -> (r: Vec<String>)
    ensures
        paths_ascending(texts(r@)),
        forall|q: Seq<char>| texts(r@).contains(q) ==> (texts(worktree@).contains(q) || texts(refs@).contains(q)),
        forall|i: int| 0 <= i < worktree@.len() ==> lists_path(texts(r@), #[trigger] worktree@[i]@),
        forall|i: int| 0 <= i < refs@.len() ==> lists_path(texts(r@), #[trigger] refs@[i]@),
{
    let mut out: Vec<String> = Vec::new();
    let mut i: usize = 0;
    while i < worktree.len()
        invariant
            i <= worktree.len(),
            paths_ascending(texts(out@)),
            forall|q: Seq<char>| texts(out@).contains(q) ==> texts(worktree@).contains(q),
            forall|k: int| 0 <= k < i ==> lists_path(texts(out@), #[trigger] worktree@[k]@),
        decreases worktree.len() - i,
    {
        let ghost old_out = texts(out@);
        insert_path(&mut out, copy_str(worktree[i].as_str()));
        proof {
            assert(texts(worktree@)[i as int] == worktree@[i as int]@);
            assert forall|k: int| 0 <= k < i + 1 implies lists_path(texts(out@), #[trigger] worktree@[k]@) by {
                if k < i {
                    let j0 = choose|j: int| 0 <= j < old_out.len() && path_key(#[trigger] old_out[j]) == path_key(worktree@[k]@);
                    assert(old_out.contains(old_out[j0]));
                    let q = old_out[j0];
                    assert(texts(out@).contains(q));
                    let j1 = choose|j: int| 0 <= j < texts(out@).len() && texts(out@)[j] == q;
                    assert(path_key(texts(out@)[j1]) == path_key(worktree@[k]@));
                }
            }
        }
        i = i + 1;
    }
    let mut i: usize = 0;
    while i < refs.len()
        invariant
            i <= refs.len(),
            paths_ascending(texts(out@)),
            forall|q: Seq<char>| texts(out@).contains(q) ==> (texts(worktree@).contains(q) || texts(refs@).contains(q)),
            forall|k: int| 0 <= k < worktree@.len() ==> lists_path(texts(out@), #[trigger] worktree@[k]@),
            forall|k: int| 0 <= k < i ==> lists_path(texts(out@), #[trigger] refs@[k]@),
        decreases refs.len() - i,
    {
        let ghost old_out = texts(out@);
        insert_path(&mut out, copy_str(refs[i].as_str()));
        proof {
            assert(texts(refs@)[i as int] == refs@[i as int]@);
            assert forall|k: int| 0 <= k < worktree@.len() implies lists_path(texts(out@), #[trigger] worktree@[k]@) by {
                let j0 = choose|j: int| 0 <= j < old_out.len() && path_key(#[trigger] old_out[j]) == path_key(worktree@[k]@);
                assert(old_out.contains(old_out[j0]));
                let q = old_out[j0];
                assert(texts(out@).contains(q));
                let j1 = choose|j: int| 0 <= j < texts(out@).len() && texts(out@)[j] == q;
                assert(path_key(texts(out@)[j1]) == path_key(worktree@[k]@));
            }
            assert forall|k: int| 0 <= k < i + 1 implies lists_path(texts(out@), #[trigger] refs@[k]@) by {
                if k < i {
                    let j0 = choose|j: int| 0 <= j < old_out.len() && path_key(#[trigger] old_out[j]) == path_key(refs@[k]@);
                    assert(old_out.contains(old_out[j0]));
                    let q = old_out[j0];
                    assert(texts(out@).contains(q));
                    let j1 = choose|j: int| 0 <= j < texts(out@).len() && texts(out@)[j] == q;
                    assert(path_key(texts(out@)[j1]) == path_key(refs@[k]@));
                }
            }
        }
        i = i + 1;
    }
    out
}

} // verus!

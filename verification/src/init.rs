//! Repository initialization.

use vstd::prelude::*;
use crate::repository::SHADOW_MARKER;
use crate::text::{
    chars_of, copy_str, lines_of, push_char, push_str, same_text, text_lines, split_on, strip_cr,
    lemma_split_nonempty, lemma_split_append_plain,
};

verus! {

/// The `.shadow/.gitignore` written by `init`: keep cache and temporary
/// files out of Git.
pub const SHADOW_GITIGNORE: &'static str = "/cache/\n/tmp/\n";

/// The root `.gitignore` after ensuring it has the Shadow marker: unchanged
/// when a line is already exactly the marker; otherwise the marker is
/// appended on a line of its own, after a blank line when the file has
/// content.
pub open spec fn with_marker(content: Seq<char>) -> Option<Seq<char>> {
    if text_lines(content).contains(SHADOW_MARKER@) {
        None
    } else {
        let terminated = if content.len() > 0 && content.last() != '\n' { content.push('\n') } else { content };
        let spaced = if content.len() > 0 { terminated.push('\n') } else { terminated };
        Some(spaced + SHADOW_MARKER@ + seq!['\n'])
    }
}

/// The new text of the root `.gitignore`, or none when it already has the
/// marker.
pub fn ensure_shadow_marker(content: &str) -> (r: Option<String>)
    ensures
        match r {
            Some(t) => with_marker(content@) == Some(t@),
            None => with_marker(content@) is None,
        },
{
    let lines = lines_of(content);
    let ghost views = lines@.map_values(|l: String| l@);
    assert(views =~= text_lines(content@));
    for i in 0..lines.len()
        invariant
            views == lines@.map_values(|l: String| l@),
            views == text_lines(content@),
            forall|j: int| 0 <= j < i ==> views[j] != SHADOW_MARKER@,
    {
        if same_text(lines[i].as_str(), SHADOW_MARKER) {
            assert(views[i as int] == SHADOW_MARKER@);
            assert(text_lines(content@).contains(SHADOW_MARKER@));
            return None;
        }
    }
    assert(!text_lines(content@).contains(SHADOW_MARKER@));
    let cs = chars_of(content);
    let mut updated = copy_str(content);
    if cs.len() > 0 && cs[cs.len() - 1] != '\n' {
        push_char(&mut updated, '\n');
    }
    if cs.len() > 0 {
        push_char(&mut updated, '\n');
    }
    push_str(&mut updated, SHADOW_MARKER);
    push_char(&mut updated, '\n');
    Some(updated)
}

/// Adding the marker is idempotent: once `init` has added the marker, the
/// file has it, and a second run leaves the file as it is.
pub proof fn law_marker_added_once(content: Seq<char>)
    ensures
        with_marker(content) matches Some(t) ==> with_marker(t) is None,
{
    if let Some(t) = with_marker(content) {
        reveal_strlit("# shadow");
        let m = SHADOW_MARKER@;
        let terminated = if content.len() > 0 && content.last() != '\n' { content.push('\n') } else { content };
        let spaced = if content.len() > 0 { terminated.push('\n') } else { terminated };
        assert(t == spaced + m + seq!['\n']);
        let u = spaced + m;
        assert(t =~= u.push('\n'));
        assert(forall|i: int| 0 <= i < m.len() ==> m[i] != '\n');
        lemma_split_append_plain(spaced, m, '\n');
        lemma_split_nonempty(spaced, '\n');
        lemma_split_nonempty(u, '\n');
        if spaced.len() == 0 {
            assert(split_on(spaced, '\n').last() =~= Seq::<char>::empty());
        } else {
            assert(spaced.last() == '\n');
            assert(split_on(spaced, '\n').last() =~= Seq::<char>::empty());
        }
        assert(split_on(u, '\n').last() =~= m);
        assert(t.last() == '\n');
        assert(t.drop_last() =~= u);
        let pieces = split_on(t, '\n');
        assert(pieces == split_on(u, '\n').push(Seq::<char>::empty()));
        assert(pieces.drop_last() =~= split_on(u, '\n'));
        let lines = text_lines(t);
        assert(lines == split_on(u, '\n').map_values(|p: Seq<char>| strip_cr(p)));
        let k = split_on(u, '\n').len() - 1;
        assert(strip_cr(m) == m);
        assert(lines[k] == m);
        assert(lines.contains(m));
    }
}

} // verus!

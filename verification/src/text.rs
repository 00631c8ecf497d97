//! Character-level helpers on strings.
//!
//! Strings are reasoned about through their view, the sequence of their
//! characters; these helpers convert between `&str`/`String` and character
//! vectors and build text one character at a time.

use vstd::prelude::*;

verus! {

/// The characters of `s`, in order.
pub fn chars_of(s: &str) -> (out: Vec<char>)
    ensures
        out@ == s@,
{
    let mut out: Vec<char> = Vec::new();
    for c in it: s.chars()
        invariant
            out@ == it.seq().take(it.index() as int),
            it.seq() == s@,
    {
        out.push(c);
    }
    out
}

/// Appends one character to a string (`String::push`).
#[verifier::external_body]
pub(crate) fn push_char(s: &mut String, c: char)
    ensures
        final(s)@ == old(s)@.push(c),
{
    s.push(c);
}

/// Appends the characters of `tail` to `s`.
pub fn push_chars(s: &mut String, tail: &Vec<char>)
    ensures
        final(s)@ == old(s)@ + tail@,
{
    let ghost start = s@;
    for i in 0..tail.len()
        invariant
            s@ == start + tail@.take(i as int),
    {
        push_char(s, tail[i]);
        assert(tail@.take(i + 1) == tail@.take(i as int).push(tail@[i as int]));
    }
    assert(tail@.take(tail.len() as int) == tail@);
}

/// Appends the characters of `tail` to `s`.
pub fn push_str(s: &mut String, tail: &str)
    ensures
        final(s)@ == old(s)@ + tail@,
{
    let cs = chars_of(tail);
    push_chars(s, &cs);
}

/// A string holding exactly the characters `cs`.
pub fn string_of(cs: &Vec<char>) -> (out: String)
    ensures
        out@ == cs@,
{
    let mut out = String::new();
    push_chars(&mut out, cs);
    out
}

/// A string holding the characters `cs[from..to]`.
pub fn string_of_range(cs: &Vec<char>, from: usize, to: usize) -> (out: String)
    requires
        from <= to <= cs.len(),
    ensures
        out@ == cs@.subrange(from as int, to as int),
{
    let mut out = String::new();
    let mut i = from;
    while i < to
        invariant
            from <= i <= to <= cs.len(),
            out@ == cs@.subrange(from as int, i as int),
        decreases to - i,
    {
        push_char(&mut out, cs[i]);
        assert(cs@.subrange(from as int, i + 1) == cs@.subrange(from as int, i as int).push(cs@[i as int]));
        i = i + 1;
    }
    out
}

/// A copy of `s`.
pub fn copy_str(s: &str) -> (out: String)
    ensures
        out@ == s@,
{
    let cs = chars_of(s);
    string_of(&cs)
}

/// Whether `a` and `b` hold the same characters.
pub fn same_text(a: &str, b: &str) -> (r: bool)
    ensures
        r == (a@ == b@),
{
    let x = chars_of(a);
    let y = chars_of(b);
    same_chars(&x, &y)
}

/// Whether two character vectors are equal.
pub fn same_chars(x: &Vec<char>, y: &Vec<char>) -> (r: bool)
    ensures
        r == (x@ == y@),
{
    if x.len() != y.len() {
        return false;
    }
    for i in 0..x.len()
        invariant
            x.len() == y.len(),
            forall|j: int| 0 <= j < i ==> x@[j] == y@[j],
    {
        if x[i] != y[i] {
            return false;
        }
    }
    assert(x@ =~= y@);
    true
}

/// Whether `prefix` is a prefix of `s`.
pub open spec fn has_prefix(s: Seq<char>, prefix: Seq<char>) -> bool {
    prefix.len() <= s.len() && s.take(prefix.len() as int) == prefix
}

/// Whether `suffix` is a suffix of `s`.
pub open spec fn has_suffix(s: Seq<char>, suffix: Seq<char>) -> bool {
    suffix.len() <= s.len() && s.skip(s.len() - suffix.len()) == suffix
}

/// Whether the characters of `prefix` begin `s`.
pub fn starts_with_chars(s: &Vec<char>, prefix: &Vec<char>) -> (r: bool)
    ensures
        r == has_prefix(s@, prefix@),
{
    if prefix.len() > s.len() {
        return false;
    }
    for i in 0..prefix.len()
        invariant
            prefix.len() <= s.len(),
            forall|j: int| 0 <= j < i ==> s@[j] == prefix@[j],
    {
        if s[i] != prefix[i] {
            return false;
        }
    }
    assert(s@.take(prefix@.len() as int) =~= prefix@);
    true
}

/// Whether the characters of `suffix` end `s`.
pub fn ends_with_chars(s: &Vec<char>, suffix: &Vec<char>) -> (r: bool)
    ensures
        r == has_suffix(s@, suffix@),
{
    if suffix.len() > s.len() {
        return false;
    }
    let offset = s.len() - suffix.len();
    for i in 0..suffix.len()
        invariant
            offset + suffix.len() == s.len(),
            forall|j: int| 0 <= j < i ==> s@[offset + j] == suffix@[j],
    {
        if s[offset + i] != suffix[i] {
            assert(s@.skip(offset as int)[i as int] == s@[offset + i]);
            return false;
        }
    }
    assert(s@.skip(offset as int) =~= suffix@);
    true
}

/// The decimal digit character for `d < 10`.
pub open spec fn digit_char(d: nat) -> char {
    if d == 0 { '0' }
    else if d == 1 { '1' }
    else if d == 2 { '2' }
    else if d == 3 { '3' }
    else if d == 4 { '4' }
    else if d == 5 { '5' }
    else if d == 6 { '6' }
    else if d == 7 { '7' }
    else if d == 8 { '8' }
    else { '9' }
}

/// The decimal representation of `n`, without leading zeros.
pub open spec fn decimal(n: nat) -> Seq<char>
    decreases n,
{
    if n < 10 {
        seq![digit_char(n)]
    } else {
        decimal(n / 10).push(digit_char(n % 10))
    }
}

fn digit_of(d: u64) -> (c: char)
    requires
        d < 10,
    ensures
        c == digit_char(d as nat),
{
    if d == 0 { '0' }
    else if d == 1 { '1' }
    else if d == 2 { '2' }
    else if d == 3 { '3' }
    else if d == 4 { '4' }
    else if d == 5 { '5' }
    else if d == 6 { '6' }
    else if d == 7 { '7' }
    else if d == 8 { '8' }
    else { '9' }
}

/// Appends the decimal representation of `n` to `s`.
pub fn push_decimal(s: &mut String, n: u64)
    ensures
        final(s)@ == old(s)@ + decimal(n as nat),
    decreases n,
{
    if n < 10 {
        push_char(s, digit_of(n));
        assert(decimal(n as nat) == seq![digit_char(n as nat)]);
        assert(old(s)@.push(digit_char(n as nat)) =~= old(s)@ + seq![digit_char(n as nat)]);
    } else {
        push_decimal(s, n / 10);
        push_char(s, digit_of(n % 10));
        assert(old(s)@ + decimal(n as nat) =~= (old(s)@ + decimal((n / 10) as nat)).push(
            digit_char((n % 10) as nat),
        ));
    }
}

/// `s` split at every `sep`: the pieces between separators, in order,
/// empty pieces included (`str::split`).
pub open spec fn split_on(s: Seq<char>, sep: char) -> Seq<Seq<char>>
    decreases s.len(),
{
    if s.len() == 0 {
        seq![Seq::empty()]
    } else if s.last() == sep {
        split_on(s.drop_last(), sep).push(Seq::empty())
    } else {
        let p = split_on(s.drop_last(), sep);
        p.update(p.len() - 1, p.last().push(s.last()))
    }
}

/// Splitting always yields at least one piece.
pub proof fn lemma_split_nonempty(s: Seq<char>, sep: char)
    ensures
        split_on(s, sep).len() >= 1,
    decreases s.len(),
{
    if s.len() > 0 {
        lemma_split_nonempty(s.drop_last(), sep);
    }
}

/// Appending characters that hold no separator extends the last piece.
pub proof fn lemma_split_append_plain(a: Seq<char>, b: Seq<char>, sep: char)
    requires
        forall|i: int| 0 <= i < b.len() ==> b[i] != sep,
    ensures
        split_on(a + b, sep).len() == split_on(a, sep).len(),
        split_on(a + b, sep).last() == split_on(a, sep).last() + b,
        split_on(a + b, sep).drop_last() == split_on(a, sep).drop_last(),
    decreases b.len(),
{
    lemma_split_nonempty(a, sep);
    if b.len() == 0 {
        assert(a + b =~= a);
        assert(split_on(a, sep).last() + b =~= split_on(a, sep).last());
    } else {
        let init = b.drop_last();
        lemma_split_append_plain(a, init, sep);
        lemma_split_nonempty(a + init, sep);
        assert((a + b).drop_last() =~= a + init);
        assert((a + b).last() == b.last());
        let p = split_on(a + init, sep);
        assert(split_on(a + b, sep) == p.update(p.len() - 1, p.last().push(b.last())));
        assert(split_on(a, sep).last() + b =~= (split_on(a, sep).last() + init).push(b.last()));
        assert(split_on(a + b, sep).drop_last() =~= p.drop_last());
    }
}

/// Splitting a text that ends at a separator, or is empty, and then more
/// text: the pieces of the first part before its empty last piece, then
/// the pieces of the second.
pub proof fn lemma_split_concat(a: Seq<char>, b: Seq<char>, sep: char)
    requires
        a.len() == 0 || a.last() == sep,
    ensures
        split_on(a + b, sep) == split_on(a, sep).drop_last() + split_on(b, sep),
    decreases b.len(),
{
    lemma_split_nonempty(a, sep);
    let sa = split_on(a, sep);
    if a.len() == 0 {
        assert(sa == seq![Seq::<char>::empty()]);
    } else {
        assert(sa == split_on(a.drop_last(), sep).push(Seq::<char>::empty()));
    }
    assert(sa.last() == Seq::<char>::empty());
    if b.len() == 0 {
        assert(a + b =~= a);
        assert(split_on(b, sep) == seq![Seq::<char>::empty()]);
        assert(sa.drop_last() + split_on(b, sep) =~= sa);
    } else {
        let init = b.drop_last();
        lemma_split_concat(a, init, sep);
        lemma_split_nonempty(init, sep);
        assert((a + b).drop_last() =~= a + init);
        assert((a + b).last() == b.last());
        let p = split_on(a + init, sep);
        let q = split_on(init, sep);
        if b.last() == sep {
            assert(split_on(a + b, sep) == p.push(Seq::<char>::empty()));
            assert(split_on(b, sep) == q.push(Seq::<char>::empty()));
            assert(p.push(Seq::<char>::empty()) =~= sa.drop_last() + q.push(Seq::<char>::empty()));
        } else {
            assert(split_on(a + b, sep) == p.update(p.len() - 1, p.last().push(b.last())));
            assert(split_on(b, sep) == q.update(q.len() - 1, q.last().push(b.last())));
            assert(p.last() == q.last());
            assert(p.update(p.len() - 1, p.last().push(b.last())) =~= sa.drop_last() + q.update(
                q.len() - 1,
                q.last().push(b.last()),
            ));
        }
    }
}

/// Lines read across a line boundary: when the first text is empty or ends
/// with `\n`, the lines of the two texts together are the lines of the
/// first followed by the lines of the second.
pub proof fn law_lines_concat(a: Seq<char>, b: Seq<char>)
    requires
        a.len() == 0 || a.last() == '\n',
    ensures
        text_lines(a + b) == text_lines(a) + text_lines(b),
{
    lemma_split_concat(a, b, '\n');
    lemma_split_nonempty(a, '\n');
    lemma_split_nonempty(b, '\n');
    let sa = split_on(a, '\n');
    let sb = split_on(b, '\n');
    let s = split_on(a + b, '\n');
    if a.len() == 0 {
        assert(sa == seq![Seq::<char>::empty()]);
    } else {
        assert(sa == split_on(a.drop_last(), '\n').push(Seq::<char>::empty()));
    }
    assert(sa.last().len() == 0);
    assert(text_lines(a) == sa.drop_last().map_values(|p: Seq<char>| strip_cr(p)));
    assert(s.last() == sb.last());
    assert(s.drop_last() =~= sa.drop_last() + sb.drop_last());
    assert(s.drop_last().map_values(|p: Seq<char>| strip_cr(p)) =~= sa.drop_last().map_values(
        |p: Seq<char>| strip_cr(p),
    ) + sb.drop_last().map_values(|p: Seq<char>| strip_cr(p)));
    assert(text_lines(a + b) =~= text_lines(a) + text_lines(b));
}

/// The pieces of a text without separators: the text itself.
proof fn lemma_split_plain(s: Seq<char>, sep: char)
    requires
        forall|i: int| 0 <= i < s.len() ==> s[i] != sep,
    ensures
        split_on(s, sep) == seq![s],
        split_on(s.push(sep), sep) == seq![s, Seq::<char>::empty()],
{
    lemma_split_append_plain(Seq::<char>::empty(), s, sep);
    assert(Seq::<char>::empty() + s =~= s);
    assert(split_on(Seq::<char>::empty(), sep) == seq![Seq::<char>::empty()]);
    assert(Seq::<char>::empty() + s =~= s);
    assert(split_on(s, sep) =~= seq![s]);
    assert(s.push(sep).drop_last() =~= s);
    assert(split_on(s.push(sep), sep) =~= seq![s, Seq::<char>::empty()]);
}

/// A line ended by `\r\n` is read without the `\r`: the text `p` followed
/// by `\r\n` is the single line `p`.
pub proof fn law_crlf_line(p: Seq<char>)
    requires
        forall|i: int| 0 <= i < p.len() ==> p[i] != '\n',
    ensures
        text_lines(p + seq!['\r', '\n']) == seq![p],
{
    let s = p.push('\r');
    assert forall|i: int| 0 <= i < s.len() implies s[i] != '\n' by {
        if i < p.len() {
            assert(s[i] == p[i]);
        }
    }
    lemma_split_plain(s, '\n');
    assert(p + seq!['\r', '\n'] =~= s.push('\n'));
    assert(s.drop_last() =~= p);
    assert(strip_cr(s) == p);
    assert(seq![s, Seq::<char>::empty()].drop_last() =~= seq![s]);
    assert(text_lines(p + seq!['\r', '\n']) =~= seq![p]);
}

/// A line ended by `\n` alone is read as it stands, unless it ends with a
/// `\r` of its own.
pub proof fn law_lf_line(p: Seq<char>)
    requires
        forall|i: int| 0 <= i < p.len() ==> p[i] != '\n',
        p.len() == 0 || p.last() != '\r',
    ensures
        text_lines(p.push('\n')) == seq![p],
{
    lemma_split_plain(p, '\n');
    assert(strip_cr(p) == p);
    assert(seq![p, Seq::<char>::empty()].drop_last() =~= seq![p]);
    assert(text_lines(p.push('\n')) =~= seq![p]);
}

/// The empty text has no lines, and a last line without an ending is read
/// as it stands, a `\r` included.
pub proof fn law_unended_line(p: Seq<char>)
    requires
        forall|i: int| 0 <= i < p.len() ==> p[i] != '\n',
    ensures
        text_lines(p) == if p.len() == 0 { Seq::<Seq<char>>::empty() } else { seq![p] },
{
    lemma_split_plain(p, '\n');
    assert(seq![p].drop_last() =~= Seq::<Seq<char>>::empty());
    assert(text_lines(p) =~= if p.len() == 0 { Seq::<Seq<char>>::empty() } else { seq![p] });
}

/// Lines written out with `\r\n` after each.
pub open spec fn crlf_text(lines: Seq<Seq<char>>) -> Seq<char>
    decreases lines.len(),
{
    if lines.len() == 0 {
        Seq::empty()
    } else {
        crlf_text(lines.drop_last()) + lines.last() + seq!['\r', '\n']
    }
}

/// Lines written out with `\n` after each.
pub open spec fn lf_text(lines: Seq<Seq<char>>) -> Seq<char>
    decreases lines.len(),
{
    if lines.len() == 0 {
        Seq::empty()
    } else {
        lf_text(lines.drop_last()) + lines.last() + seq!['\n']
    }
}

/// Reading back lines written with `\r\n` endings gives the lines that were
/// written, whatever characters other than `\n` they hold.
pub proof fn law_crlf_text_lines(lines: Seq<Seq<char>>)
    requires
        forall|k: int, i: int| 0 <= k < lines.len() && 0 <= i < lines[k].len() ==> lines[k][i] != '\n',
    ensures
        text_lines(crlf_text(lines)) == lines,
    decreases lines.len(),
{
    if lines.len() == 0 {
        assert(split_on(Seq::<char>::empty(), '\n') == seq![Seq::<char>::empty()]);
        assert(text_lines(Seq::<char>::empty()) =~= Seq::<Seq<char>>::empty());
    } else {
        let init = lines.drop_last();
        let l = lines.last();
        law_crlf_text_lines(init);
        let a = crlf_text(init);
        if init.len() > 0 {
            let t = crlf_text(init.drop_last()) + init.last();
            assert(a == t + seq!['\r', '\n']);
            assert(a.last() == '\n');
        }
        assert(crlf_text(lines) =~= a + (l + seq!['\r', '\n']));
        law_lines_concat(a, l + seq!['\r', '\n']);
        law_crlf_line(l);
        assert(text_lines(crlf_text(lines)) =~= init + seq![l]);
        assert(init + seq![l] =~= lines);
    }
}

/// Reading back lines written with `\n` endings gives the lines that were
/// written, when none holds a `\n` or ends with a `\r`.
pub proof fn law_lf_text_lines(lines: Seq<Seq<char>>)
    requires
        forall|k: int, i: int| 0 <= k < lines.len() && 0 <= i < lines[k].len() ==> lines[k][i] != '\n',
        forall|k: int| 0 <= k < lines.len() ==> lines[k].len() == 0 || lines[k].last() != '\r',
    ensures
        text_lines(lf_text(lines)) == lines,
    decreases lines.len(),
{
    if lines.len() == 0 {
        assert(split_on(Seq::<char>::empty(), '\n') == seq![Seq::<char>::empty()]);
        assert(text_lines(Seq::<char>::empty()) =~= Seq::<Seq<char>>::empty());
    } else {
        let init = lines.drop_last();
        let l = lines.last();
        law_lf_text_lines(init);
        let a = lf_text(init);
        if init.len() > 0 {
            let t = lf_text(init.drop_last()) + init.last();
            assert(a == t + seq!['\n']);
            assert(a.last() == '\n');
        }
        assert(lf_text(lines) =~= a + l.push('\n'));
        law_lines_concat(a, l.push('\n'));
        law_lf_line(l);
        assert(text_lines(lf_text(lines)) =~= init + seq![l]);
        assert(init + seq![l] =~= lines);
    }
}

/// Splits characters at every `sep`.
pub fn split_chars(cs: &Vec<char>, sep: char) -> (parts: Vec<Vec<char>>)
    ensures
        parts@.len() == split_on(cs@, sep).len(),
        forall|i: int| 0 <= i < parts@.len() ==> (#[trigger] parts@[i])@ == split_on(cs@, sep)[i],
{
    let mut done: Vec<Vec<char>> = Vec::new();
    let mut current: Vec<char> = Vec::new();
    for i in 0..cs.len()
        invariant
            done@.len() + 1 == split_on(cs@.take(i as int), sep).len(),
            forall|j: int| 0 <= j < done@.len() ==> (#[trigger] done@[j])@ == split_on(cs@.take(i as int), sep)[j],
            current@ == split_on(cs@.take(i as int), sep).last(),
    {
        proof {
            assert(cs@.take(i + 1).drop_last() =~= cs@.take(i as int));
            lemma_split_nonempty(cs@.take(i as int), sep);
        }
        if cs[i] == sep {
            done.push(current);
            current = Vec::new();
        } else {
            current.push(cs[i]);
        }
    }
    assert(cs@.take(cs.len() as int) =~= cs@);
    done.push(current);
    done
}

/// `p` without one trailing carriage return.
pub open spec fn strip_cr(p: Seq<char>) -> Seq<char> {
    if p.len() > 0 && p.last() == '\r' { p.drop_last() } else { p }
}

/// The lines of a text (`str::lines`): split at `\n`; a line ended by
/// `\r\n` loses the `\r`; a final line ending adds no empty line.
pub open spec fn text_lines(s: Seq<char>) -> Seq<Seq<char>> {
    let pieces = split_on(s, '\n');
    let ended = pieces.drop_last().map_values(|p: Seq<char>| strip_cr(p));
    if pieces.last().len() == 0 { ended } else { ended.push(pieces.last()) }
}

fn strip_cr_chars(p: &Vec<char>) -> (r: String)
    ensures
        r@ == strip_cr(p@),
{
    if p.len() > 0 && p[p.len() - 1] == '\r' {
        string_of_range(p, 0, p.len() - 1)
    } else {
        string_of(p)
    }
}

/// The lines of a text, as `str::lines` gives them.
pub fn lines_of(s: &str) -> (lines: Vec<String>)
    ensures
        lines@.len() == text_lines(s@).len(),
        forall|i: int| 0 <= i < lines@.len() ==> (#[trigger] lines@[i])@ == text_lines(s@)[i],
{
    let cs = chars_of(s);
    let pieces = split_chars(&cs, '\n');
    proof { lemma_split_nonempty(s@, '\n'); }
    let ghost spec_pieces = split_on(s@, '\n');
    let ghost ended = spec_pieces.drop_last().map_values(|p: Seq<char>| strip_cr(p));
    let mut lines: Vec<String> = Vec::new();
    let last = pieces.len() - 1;
    for i in 0..last
        invariant
            last + 1 == pieces@.len() == spec_pieces.len(),
            forall|j: int| 0 <= j < pieces@.len() ==> (#[trigger] pieces@[j])@ == spec_pieces[j],
            ended == spec_pieces.drop_last().map_values(|p: Seq<char>| strip_cr(p)),
            lines@.len() == i,
            forall|j: int| 0 <= j < i ==> (#[trigger] lines@[j])@ == ended[j],
    {
        lines.push(strip_cr_chars(&pieces[i]));
    }
    if pieces[last].len() > 0 {
        lines.push(string_of(&pieces[last]));
    }
    lines
}

} // verus!

//! The text of a journal: one record to a line.
//!
//! A journal only grows. A crash can leave its last line torn, without a
//! line feed; the line is ended before anything is appended, so that a
//! record never shares a line with it.

use vstd::prelude::*;
use crate::text;

verus! {

/// Whether every line of a journal is ended.
pub open spec fn is_ended(s: Seq<char>) -> bool {
    s.len() == 0 || s.last() == '\n'
}

/// What ends the last line of a journal: a line feed, if it is torn.
pub open spec fn ending(s: Seq<char>) -> Seq<char> {
    if is_ended(s) {
        Seq::empty()
    } else {
        seq!['\n']
    }
}

/// A journal with its last line ended.
pub open spec fn ended(s: Seq<char>) -> Seq<char> {
    s + ending(s)
}

/// The text of lines, each ended.
pub open spec fn entries(lines: Seq<Seq<char>>) -> Seq<char>
    decreases lines.len(),
{
    if lines.len() == 0 {
        Seq::empty()
    } else {
        entries(lines.drop_last()) + lines.last() + seq!['\n']
    }
}

/// Whether a text can be a line: it holds no line feed and does not end in
/// a carriage return.
pub open spec fn can_be_line(s: Seq<char>) -> bool {
    &&& forall|i: int| 0 <= i < s.len() ==> #[trigger] s[i] != '\n'
    &&& s.len() > 0 ==> s.last() != '\r'
}

/// Finds what ends the last line of a journal.
pub fn ending_of(journal: &str) -> (r: String)
    ensures
        r@ == ending(journal@),
{
    let v = text::chars(journal);
    let mut out = String::new();
    if v.len() > 0 && v[v.len() - 1] != '\n' {
        out.push('\n');
    }
    assert(out@ =~= ending(journal@));
    out
}

/// Writes lines, each ended.
pub fn entries_of(lines: &Vec<String>) -> (r: String)
    ensures
        r@ == entries(text::views(lines@)),
{
    let ghost all = text::views(lines@);
    let mut out = String::new();
    let mut i: usize = 0;
    assert(all.take(0) =~= Seq::<Seq<char>>::empty());
    while i < lines.len()
        invariant
            i <= lines@.len(),
            all == text::views(lines@),
            out@ == entries(all.take(i as int)),
        decreases lines@.len() - i,
    {
        let ghost before = out@;
        out.append(lines[i].as_str());
        out.push('\n');
        i = i + 1;
        assert(all.take(i as int).drop_last() =~= all.take(i - 1));
        assert(all.take(i as int).last() == lines@[i - 1]@);
        assert(out@ =~= before + lines@[i - 1]@ + seq!['\n']);
    }
    assert(all.take(i as int) =~= all);
    out
}

/// Splitting behind an ended text.
proof fn split_behind(a: Seq<char>, b: Seq<char>)
    requires
        is_ended(a),
    ensures
        text::split_on(a, '\n').len() > 0,
        text::split_on(a, '\n').last().len() == 0,
        text::split_on(b, '\n').len() > 0,
        text::split_on(a + b, '\n') == text::split_on(a, '\n').drop_last() + text::split_on(b, '\n'),
    decreases a.len(),
{
    if a.len() == 0 {
        assert(a + b =~= b);
        assert(text::split_on(a, '\n') =~= seq![a]);
        assert(seq![a].drop_last() + text::split_on(b, '\n') =~= text::split_on(b, '\n'));
    } else {
        text::first_of_found(a, '\n');
        let i = text::first_of(a, '\n');
        assert(a[a.len() - 1] == '\n');
        let (piece, rest) = (a.take(i), a.skip(i + 1));
        if rest.len() > 0 {
            assert(rest.last() == a.last());
        }
        split_behind(rest, b);
        assert forall|j: int| 0 <= j < piece.len() implies piece[j] != '\n' by {
            assert(piece[j] == a[j]);
        }
        assert(a =~= piece + seq!['\n'] + rest);
        assert(a + b =~= piece + seq!['\n'] + (rest + b));
        text::split_on_piece(piece, '\n', rest);
        text::split_on_piece(piece, '\n', rest + b);
        let p = text::split_on(rest, '\n');
        assert((seq![piece] + p).drop_last() =~= seq![piece] + p.drop_last());
        assert(seq![piece] + (p.drop_last() + text::split_on(b, '\n')) =~= seq![piece] + p.drop_last()
            + text::split_on(b, '\n'));
    }
}

/// The lines behind an ended text come after its own.
pub proof fn lines_behind(a: Seq<char>, b: Seq<char>)
    requires
        is_ended(a),
    ensures
        text::lines_of(a + b) == text::lines_of(a) + text::lines_of(b),
{
    split_behind(a, b);
    let (p, q) = (text::split_on(a, '\n'), text::split_on(b, '\n'));
    assert(text::split_on(a + b, '\n').last() == q.last());
    assert(text::lines_of(a + b) =~= text::lines_of(a) + text::lines_of(b));
}

/// One line, ended, is that line.
proof fn one_entry(l: Seq<char>)
    requires
        can_be_line(l),
    ensures
        text::lines_of(l + seq!['\n']) == seq![l],
{
    let none = Seq::<char>::empty();
    text::split_on_piece(l, '\n', none);
    assert(l + seq!['\n'] + none =~= l + seq!['\n']);
    assert(text::split_on(none, '\n') =~= seq![none]);
    assert(text::split_on(l + seq!['\n'], '\n') =~= seq![l, none]);
    assert(text::lines_of(l + seq!['\n']) =~= seq![l]);
}

/// Lines appended to a journal whose lines are ended are read as they are,
/// behind its own, and leave it ended.
pub proof fn entries_are_lines(a: Seq<char>, lines: Seq<Seq<char>>)
    requires
        is_ended(a),
        forall|i: int| 0 <= i < lines.len() ==> can_be_line(#[trigger] lines[i]),
    ensures
        text::lines_of(a + entries(lines)) == text::lines_of(a) + lines,
        is_ended(a + entries(lines)),
    decreases lines.len(),
{
    if lines.len() == 0 {
        assert(a + entries(lines) =~= a);
        assert(text::lines_of(a) + lines =~= text::lines_of(a));
    } else {
        let (h, l) = (lines.drop_last(), lines.last());
        assert(can_be_line(lines[lines.len() - 1]));
        assert forall|i: int| 0 <= i < h.len() implies can_be_line(#[trigger] h[i]) by {
            assert(h[i] == lines[i]);
        }
        entries_are_lines(a, h);
        one_entry(l);
        let b = a + entries(h);
        assert(a + entries(lines) =~= b + (l + seq!['\n']));
        lines_behind(b, l + seq!['\n']);
        assert(text::lines_of(a) + h + seq![l] =~= text::lines_of(a) + lines);
    }
}

/// Ending the last line of a journal leaves its lines, unless that line
/// ends in a carriage return, which then belongs to the line's end.
pub proof fn ending_keeps_lines(s: Seq<char>)
    requires
        s.len() == 0 || s.last() != '\r',
    ensures
        is_ended(ended(s)),
        text::lines_of(ended(s)) == text::lines_of(s),
{
    if is_ended(s) {
        assert(ended(s) =~= s);
    } else {
        last_line_ended(s);
    }
}

/// Ending a torn last line that does not end in a carriage return.
proof fn last_line_ended(s: Seq<char>)
    requires
        s.len() > 0,
        s.last() != '\n',
        s.last() != '\r',
    ensures
        text::lines_of(s + seq!['\n']) == text::lines_of(s),
    decreases s.len(),
{
    text::first_of_found(s, '\n');
    let i = text::first_of(s, '\n');
    if i >= s.len() {
        assert forall|j: int| 0 <= j < s.len() implies #[trigger] s[j] != '\n' by {}
        one_entry(s);
        assert(text::split_on(s, '\n') =~= seq![s]);
        assert(text::lines_of(s) =~= seq![s]);
    } else {
        let (a, b) = (s.take(i + 1), s.skip(i + 1));
        assert(i + 1 < s.len());
        assert(b.last() == s.last());
        last_line_ended(b);
        lines_behind(a, b);
        lines_behind(a, b + seq!['\n']);
        assert(a + b =~= s);
        assert(a + (b + seq!['\n']) =~= s + seq!['\n']);
    }
}

} // verus!

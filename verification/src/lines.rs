//! A text as a sequence of lines, each with the line ending that it came
//! with.

use crate::text::{append, find_from, lemma_next_occurrence, lemma_next_occurrence_skip, next_occurrence};
use vstd::prelude::*;

verus! {

/// The line-feed character as a one-item sequence.
pub open spec fn line_feed() -> Seq<char> {
    seq!['\n']
}

/// Whether `line` ends with a line feed.
pub open spec fn ends_line(line: Seq<char>) -> bool {
    line.len() > 0 && line.last() == '\n'
}

/// `line` without one carriage return at its end, if it has one.
pub open spec fn without_carriage_return(line: Seq<char>) -> Seq<char> {
    if line.len() > 0 && line.last() == '\r' {
        line.drop_last()
    } else {
        line
    }
}

/// What `line` says: the line without the line feed that ends it and without
/// a carriage return directly before that line feed.
pub open spec fn line_text(line: Seq<char>) -> Seq<char> {
    if ends_line(line) {
        without_carriage_return(line.drop_last())
    } else {
        line
    }
}

/// `line` as it is written: as it is where it ends with a line feed, else
/// with a line feed added.
pub open spec fn finished(line: Seq<char>) -> Seq<char> {
    if ends_line(line) {
        line
    } else {
        line + line_feed()
    }
}

/// The lines of `s`. A line reaches up to and includes a line feed; what
/// follows the last line feed is a line of its own unless it is empty.
pub open spec fn split_lines(s: Seq<char>) -> Seq<Seq<char>>
    decreases s.len(),
{
    let p = next_occurrence(s, line_feed(), 0);
    if s.len() == 0 {
        Seq::empty()
    } else if p < 0 || p + 1 > s.len() {
        seq![s]
    } else {
        seq![s.take(p + 1)] + split_lines(s.skip(p + 1))
    }
}

/// The characters of `lines`, one line after the other.
pub open spec fn concat_lines(lines: Seq<Seq<char>>) -> Seq<char>
    decreases lines.len(),
{
    if lines.len() == 0 {
        Seq::empty()
    } else {
        concat_lines(lines.drop_last()) + lines.last()
    }
}

/// The text made of `lines`, each as it is written.
pub open spec fn join_lines(lines: Seq<Seq<char>>) -> Seq<char>
    decreases lines.len(),
{
    if lines.len() == 0 {
        Seq::empty()
    } else {
        join_lines(lines.drop_last()) + finished(lines.last())
    }
}

/// Whether every line of `lines` but the last ends with a line feed.
pub open spec fn inner_lines_end(lines: Seq<Seq<char>>) -> bool {
    forall|i: int| 0 <= i < lines.len() - 1 ==> ends_line(#[trigger] lines[i])
}

/// Joining two runs of lines one after the other joins their texts.
pub proof fn lemma_join_lines_concat(a: Seq<Seq<char>>, b: Seq<Seq<char>>)
    ensures
        join_lines(a + b) == join_lines(a) + join_lines(b),
    decreases b.len(),
{
    if b.len() == 0 {
        assert(a + b =~= a);
        assert(join_lines(a) + join_lines(b) =~= join_lines(a));
    } else {
        lemma_join_lines_concat(a, b.drop_last());
        assert((a + b).drop_last() =~= a + b.drop_last());
        assert((a + b).last() == b.last());
        assert(join_lines(a + b) =~= join_lines(a) + join_lines(b));
    }
}

/// The characters of two runs of lines are those of the first, then those of
/// the second.
pub proof fn lemma_concat_lines_concat(a: Seq<Seq<char>>, b: Seq<Seq<char>>)
    ensures
        concat_lines(a + b) == concat_lines(a) + concat_lines(b),
    decreases b.len(),
{
    if b.len() == 0 {
        assert(a + b =~= a);
        assert(concat_lines(a) + concat_lines(b) =~= concat_lines(a));
    } else {
        lemma_concat_lines_concat(a, b.drop_last());
        assert((a + b).drop_last() =~= a + b.drop_last());
        assert((a + b).last() == b.last());
        assert(concat_lines(a + b) =~= concat_lines(a) + concat_lines(b));
    }
}

/// The characters of one line are that line.
proof fn lemma_concat_one(line: Seq<char>)
    ensures
        concat_lines(seq![line]) == line,
{
    let one = seq![line];
    assert(one.drop_last() =~= Seq::<Seq<char>>::empty());
    assert(concat_lines(one.drop_last()) =~= Seq::<char>::empty());
    assert(concat_lines(one) =~= line);
}

/// The lines of a text, one after the other, are the text, and every line
/// but the last ends with a line feed.
pub proof fn lemma_split_keeps_text(s: Seq<char>)
    ensures
        concat_lines(split_lines(s)) == s,
        inner_lines_end(split_lines(s)),
    decreases s.len(),
{
    let p = next_occurrence(s, line_feed(), 0);
    lemma_next_occurrence(s, line_feed(), 0);
    if s.len() == 0 {
    } else if p + 1 > s.len() {
        lemma_concat_one(s);
    } else {
        let first = seq![s.take(p + 1)];
        let rest = split_lines(s.skip(p + 1));
        lemma_split_keeps_text(s.skip(p + 1));
        lemma_concat_lines_concat(first, rest);
        lemma_concat_one(s.take(p + 1));
        assert(s.take(p + 1) + s.skip(p + 1) =~= s);
        assert(s.subrange(p, p + 1)[0] == s[p]);
        assert(ends_line(s.take(p + 1)));
        let lines = first + rest;
        assert forall|i: int| 0 <= i < lines.len() - 1 implies ends_line(#[trigger] lines[i]) by {
            if i > 0 {
                assert(lines[i] == rest[i - 1]);
            }
        }
    }
}

/// Where every line but the last ends with a line feed, the characters of
/// the first `k` lines begin both the characters of all the lines and the
/// text in which the first `k` lines are written.
pub proof fn lemma_first_lines_begin(lines: Seq<Seq<char>>, k: int)
    requires
        0 <= k <= lines.len(),
        inner_lines_end(lines),
    ensures
        concat_lines(lines.take(k)).is_prefix_of(concat_lines(lines)),
        concat_lines(lines.take(k)).is_prefix_of(join_lines(lines.take(k))),
{
    let head = lines.take(k);
    assert(lines =~= head + lines.skip(k));
    lemma_concat_lines_concat(head, lines.skip(k));
    lemma_written_as_held(head);
}

/// Lines of which every one but the last ends with a line feed are written
/// as they are, but for a line feed that may be added to the last.
pub proof fn lemma_written_as_held(lines: Seq<Seq<char>>)
    requires
        inner_lines_end(lines),
    ensures
        concat_lines(lines).is_prefix_of(join_lines(lines)),
        lines.len() > 0 ==> join_lines(lines.drop_last()) == concat_lines(lines.drop_last()),
    decreases lines.len(),
{
    if lines.len() > 0 {
        let front = lines.drop_last();
        assert forall|i: int| 0 <= i < front.len() implies ends_line(#[trigger] front[i]) by {
            assert(front[i] == lines[i]);
        }
        lemma_written_as_held(front);
        if front.len() > 0 {
            assert(ends_line(front[front.len() - 1]));
            assert(join_lines(front) =~= concat_lines(front));
        }
    }
}

/// The character sequences that the vectors of `lines` hold.
pub open spec fn line_views(lines: Seq<Vec<char>>) -> Seq<Seq<char>> {
    Seq::new(lines.len(), |i: int| lines[i]@)
}

/// The character sequences that the strings of `lines` hold.
pub open spec fn string_views(lines: Seq<String>) -> Seq<Seq<char>> {
    Seq::new(lines.len(), |i: int| lines[i]@)
}

/// Splits a text into its lines, each with its line ending.
pub fn lines_of(text: &[char]) -> (lines: Vec<Vec<char>>)
    ensures
        line_views(lines@) == split_lines(text@),
{
    let mut lines: Vec<Vec<char>> = Vec::new();
    let mut feed: Vec<char> = Vec::new();
    feed.push('\n');
    assert(feed@ =~= line_feed());
    let len = text.len();
    let mut pos: usize = 0;
    assert(text@.skip(0) =~= text@);
    assert(line_views(lines@) =~= Seq::<Seq<char>>::empty());
    while pos < len
        invariant
            len == text@.len(),
            pos <= len,
            feed@ == line_feed(),
            line_views(lines@) + split_lines(text@.skip(pos as int)) == split_lines(text@),
        decreases len - pos,
    {
        let ghost rest = text@.skip(pos as int);
        let ghost before = line_views(lines@);
        proof {
            lemma_next_occurrence_skip(text@, line_feed(), pos as int, pos as int);
            lemma_next_occurrence(text@, line_feed(), pos as int);
        }
        let mut line: Vec<char> = Vec::new();
        let end: usize = match find_from(text, feed.as_slice(), pos) {
            None => len,
            Some(p) => p + 1,
        };
        append(&mut line, text, pos, end);
        assert(line@ =~= rest.take(end - pos));
        assert(rest.take(len - pos) =~= rest);
        assert(rest.skip(end - pos) =~= text@.skip(end as int));
        lines.push(line);
        assert(line_views(lines@) =~= before + seq![rest.take(end - pos)]);
        assert(end == len ==> split_lines(text@.skip(end as int)) =~= Seq::<Seq<char>>::empty());
        pos = end;
    }
    assert(split_lines(text@.skip(pos as int)) =~= Seq::<Seq<char>>::empty());
    lines
}

/// What a line says: the line without its line ending.
pub fn text_of(line: &[char]) -> (text: Vec<char>)
    ensures
        text@ == line_text(line@),
{
    let len = line.len();
    let end: usize = if len > 0 && line[len - 1] == '\n' {
        if len > 1 && line[len - 2] == '\r' {
            len - 2
        } else {
            len - 1
        }
    } else {
        len
    };
    let mut text: Vec<char> = Vec::new();
    append(&mut text, line, 0, end);
    assert(text@ =~= line_text(line@));
    text
}

/// Appends `line` to `out` as it is written: with a line feed behind it
/// unless it ends with one.
pub fn push_line(out: &mut Vec<char>, line: &[char])
    ensures
        final(out)@ == old(out)@ + finished(line@),
{
    let len = line.len();
    append(out, line, 0, len);
    assert(line@.subrange(0, line@.len() as int) =~= line@);
    if len == 0 || line[len - 1] != '\n' {
        out.push('\n');
    }
    assert(out@ =~= old(out)@ + finished(line@));
}

} // verus!

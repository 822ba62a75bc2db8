//! A text as the sequence of its lines.

use vstd::prelude::*;
use crate::scan::{index_where, lemma_index_where, lemma_index_where_unique};

verus! {

/// The predicate "is the newline character".
pub open spec fn is_newline() -> spec_fn(char) -> bool {
    |c: char| c == '\n'
}

/// `line` holds no newline.
pub open spec fn is_line(line: Seq<char>) -> bool {
    forall|i: int| 0 <= i < line.len() ==> line[i] != '\n'
}

/// The lines of `text`: the stretches between its newlines, in order. A
/// text with `n` newlines has `n + 1` lines, some of them possibly empty.
pub open spec fn split_lines(text: Seq<char>) -> Seq<Seq<char>>
    decreases text.len(),
{
    let n = index_where(text, is_newline());
    if n < text.len() {
        proof {
            lemma_index_where(text, is_newline());
        }
        seq![text.take(n)] + split_lines(text.skip(n + 1))
    } else {
        seq![text]
    }
}

/// The lines written one after the other with a newline between each two.
pub open spec fn join_lines(lines: Seq<Seq<char>>) -> Seq<char>
    decreases lines.len(),
{
    if lines.len() == 0 {
        Seq::empty()
    } else if lines.len() == 1 {
        lines[0]
    } else {
        lines[0] + seq!['\n'] + join_lines(lines.drop_first())
    }
}

/// Joining one more line: the new line follows the others after a newline,
/// or stands alone where there were none.
pub proof fn lemma_join_push(lines: Seq<Seq<char>>, line: Seq<char>)
    ensures
        join_lines(lines.push(line)) == if lines.len() == 0 {
            line
        } else {
            join_lines(lines) + seq!['\n'] + line
        },
    decreases lines.len(),
{
    if lines.len() > 0 {
        let rest = lines.drop_first();
        lemma_join_push(rest, line);
        assert(lines.push(line).drop_first() =~= rest.push(line));
    }
}

/// What a vector of lines stands for.
pub open spec fn lines_view(lines: Seq<Vec<char>>) -> Seq<Seq<char>> {
    Seq::new(lines.len(), |i: int| lines[i]@)
}

/// A text without newline is its own single line.
pub proof fn lemma_split_single(line: Seq<char>)
    requires
        is_line(line),
    ensures
        split_lines(line) == seq![line],
{
    lemma_index_where_unique(line, is_newline(), line.len() as int);
}

/// A text that starts with a line and a newline splits into that line and
/// the lines of what follows.
pub proof fn lemma_split_first(line: Seq<char>, rest: Seq<char>)
    requires
        is_line(line),
    ensures
        split_lines(line + seq!['\n'] + rest) == seq![line] + split_lines(rest),
{
    let text = line + seq!['\n'] + rest;
    lemma_index_where_unique(text, is_newline(), line.len() as int);
    assert(text.take(line.len() as int) =~= line);
    assert(text.skip(line.len() as int + 1) =~= rest);
}

/// Splitting loses nothing: every line is free of newlines, and joining the
/// lines gives the text back.
pub proof fn lemma_join_split(text: Seq<char>)
    ensures
        split_lines(text).len() >= 1,
        forall|i: int| 0 <= i < split_lines(text).len() ==> is_line(#[trigger] split_lines(text)[i]),
        join_lines(split_lines(text)) == text,
    decreases text.len(),
{
    let n = index_where(text, is_newline());
    lemma_index_where(text, is_newline());
    if n < text.len() {
        let rest = text.skip(n + 1);
        lemma_join_split(rest);
        let lines = split_lines(text);
        assert(lines.drop_first() =~= split_lines(rest));
        assert forall|i: int| 0 <= i < lines.len() implies is_line(#[trigger] lines[i]) by {
            if i > 0 {
                assert(lines[i] == split_lines(rest)[i - 1]);
            }
        }
    }
}

/// Joining loses nothing either: lines that are free of newlines, at least
/// one of them, are the lines of the text they join to.
pub proof fn lemma_split_join(lines: Seq<Seq<char>>)
    requires
        lines.len() >= 1,
        forall|i: int| 0 <= i < lines.len() ==> is_line(#[trigger] lines[i]),
    ensures
        split_lines(join_lines(lines)) == lines,
    decreases lines.len(),
{
    if lines.len() == 1 {
        lemma_split_single(lines[0]);
    } else {
        let rest = lines.drop_first();
        assert forall|i: int| 0 <= i < rest.len() implies is_line(#[trigger] rest[i]) by {
            assert(rest[i] == lines[i + 1]);
        }
        lemma_split_join(rest);
        lemma_split_first(lines[0], join_lines(rest));
    }
}

/// The lines of `text`.
pub fn lines_of(text: &str) -> (lines: Vec<Vec<char>>)
    ensures
        lines_view(lines@) == split_lines(text@),
{
    let mut lines: Vec<Vec<char>> = Vec::new();
    let mut line: Vec<char> = Vec::new();
    proof {
        assert(line@ + text@.skip(0) =~= text@);
    }
    for c in it: text.chars()
        invariant
            it.seq() == text@,
            is_line(line@),
            split_lines(text@) == lines_view(lines@) + split_lines(line@ + text@.skip(it.index())),
    {
        let ghost rest = text@.skip(it.index() + 1);
        if c == '\n' {
            proof {
                lemma_split_first(line@, rest);
                assert(line@ + text@.skip(it.index()) =~= line@ + seq!['\n'] + rest);
            }
            lines.push(line);
            line = Vec::new();
        } else {
            assert(line@.push(c) + rest =~= line@ + text@.skip(it.index()));
            line.push(c);
        }
    }
    proof {
        lemma_split_single(line@);
    }
    lines.push(line);
    lines
}

} // verus!

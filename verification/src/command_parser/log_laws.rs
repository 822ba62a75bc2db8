//! What holds of every log, proved from the definitions in `log`.

use vstd::prelude::*;
use crate::command_parser::error::{
    all_ok, lemma_collect, lemma_collect_first, lemma_collect_ok, prepend, GuitParseError,
};
use crate::command_parser::log::{
    block_commits, block_len, commit_blocks, commit_hash, commit_lines, commit_of, commit_tag,
    is_commit_line, log_blocks, log_report, log_result_view, opens_commit, parse_log, CommitView,
    LogOutput,
};
use crate::lines::split_lines;
use crate::scan::{index_where, is_space, lemma_index_where};

verus! {

/// `block` has the shape of a commit block: a commit line, and then lines
/// that are no commit lines.
pub open spec fn is_block(block: Seq<Seq<char>>) -> bool {
    &&& block.len() >= 1
    &&& is_commit_line(block[0])
    &&& forall|j: int| 1 <= j < block.len() ==> !is_commit_line(#[trigger] block[j])
}

/// Reading a log block by block. No lines say nothing. A first line that
/// is no commit line is passed over. A commit line opens a block, which
/// gives the first commit, or the error of the whole log.
pub proof fn lemma_log_report_step(lines: Seq<Seq<char>>)
    ensures
        log_report(lines) == if lines.len() == 0 {
            Ok::<Seq<CommitView>, GuitParseError>(Seq::empty())
        } else if !is_commit_line(lines[0]) {
            log_report(lines.drop_first())
        } else {
            match commit_of(lines.take(block_len(lines))) {
                Ok(commit) => prepend(seq![commit], log_report(lines.skip(block_len(lines)))),
                Err(e) => Err(e),
            }
        },
{
    if lines.len() == 0 {
        assert(block_commits(log_blocks(lines)) =~= Seq::empty());
    } else if is_commit_line(lines[0]) {
        let block = lines.take(block_len(lines));
        let others = log_blocks(lines.skip(block_len(lines)));
        assert(block_commits(seq![block] + others) =~= seq![commit_of(block)] + block_commits(
            others,
        ));
        lemma_collect_first(commit_of(block), block_commits(others));
    }
}

/// A sequence without an element that satisfies `p` has nothing to keep.
proof fn lemma_filter_none<A>(s: Seq<A>, p: spec_fn(A) -> bool)
    requires
        forall|i: int| 0 <= i < s.len() ==> !p(#[trigger] s[i]),
    ensures
        s.filter(p) == Seq::<A>::empty(),
{
    let kept = s.filter(p);
    if kept.len() > 0 {
        s.lemma_filter_pred(p, 0);
        assert(kept.contains(kept[0]));
        s.lemma_filter_contains_rev(p, kept[0]);
        let i = choose|i: int| 0 <= i < s.len() && s[i] == kept[0];
        assert(!p(s[i]));
    }
    assert(kept =~= Seq::<A>::empty());
}

/// The blocks of a log: there is one for each commit line, opened by that
/// line; each has the shape of a block; and put end to end they are the
/// lines of the log from its first commit line on.
pub proof fn lemma_log_blocks(lines: Seq<Seq<char>>)
    ensures
        log_blocks(lines).len() == lines.filter(opens_commit()).len(),
        forall|i: int|
            0 <= i < log_blocks(lines).len() ==> {
                &&& is_block(#[trigger] log_blocks(lines)[i])
                &&& log_blocks(lines)[i][0] == lines.filter(opens_commit())[i]
            },
        log_blocks(lines).flatten() == lines.skip(index_where(lines, opens_commit())),
    decreases lines.len(),
{
    let blocks = log_blocks(lines);
    let marks = lines.filter(opens_commit());
    if lines.len() == 0 {
        lines.lemma_filter_len(opens_commit());
        assert(blocks.flatten() =~= lines.skip(0));
    } else if !is_commit_line(lines[0]) {
        let rest = lines.drop_first();
        lemma_log_blocks(rest);
        lemma_index_where(rest, opens_commit());
        assert(lines =~= seq![lines[0]] + rest);
        rest.lemma_filter_prepend(lines[0], opens_commit());
        assert(marks =~= rest.filter(opens_commit()));
        assert(lines.skip(1 + index_where(rest, opens_commit())) =~= rest.skip(
            index_where(rest, opens_commit()),
        ));
    } else {
        let n = block_len(lines);
        let tail = lines.drop_first();
        lemma_index_where(tail, opens_commit());
        let block = lines.take(n);
        let rest = lines.skip(n);
        lemma_log_blocks(rest);
        let inner = block.drop_first();
        assert forall|j: int| 0 <= j < inner.len() implies !opens_commit()(#[trigger] inner[j]) by {
            assert(inner[j] == tail[j]);
        }
        assert(is_block(block)) by {
            assert forall|j: int| 1 <= j < block.len() implies !is_commit_line(
                #[trigger] block[j],
            ) by {
                assert(block[j] == inner[j - 1]);
            }
        }
        lemma_filter_none(inner, opens_commit());
        assert(block =~= seq![lines[0]] + inner);
        inner.lemma_filter_prepend(lines[0], opens_commit());
        assert(block.filter(opens_commit()) =~= seq![lines[0]]);
        assert(lines =~= block + rest);
        Seq::filter_distributes_over_add(block, rest, opens_commit());
        assert(marks =~= seq![lines[0]] + rest.filter(opens_commit()));
        let others = log_blocks(rest);
        assert(blocks =~= seq![block] + others);
        assert forall|i: int| 0 <= i < blocks.len() implies {
            &&& is_block(#[trigger] blocks[i])
            &&& blocks[i][0] == marks[i]
        } by {
            if i > 0 {
                assert(blocks[i] == others[i - 1]);
                assert(marks[i] == rest.filter(opens_commit())[i - 1]);
            }
        }
        assert(blocks.drop_first() =~= others);
        assert(index_where(rest, opens_commit()) == 0) by {
            if rest.len() > 0 {
                assert(rest[0] == tail[n - 1]);
            }
        }
        assert(rest.skip(0) =~= rest);
        assert(blocks.flatten() =~= block + rest);
        assert(lines.skip(0) =~= lines);
    }
}

/// The hash of a commit line is one word, and not empty.
pub proof fn lemma_commit_hash(line: Seq<char>)
    requires
        is_commit_line(line),
    ensures
        commit_hash(line).len() > 0,
        forall|i: int| 0 <= i < commit_hash(line).len() ==> commit_hash(line)[i] != ' ',
{
    let rest = line.skip(commit_tag().len() as int);
    lemma_index_where(rest, is_space());
    let n = index_where(rest, is_space());
    assert(rest[0] != ' ');
    if n == 0 {
        assert(is_space()(rest[0]));
    }
    assert forall|i: int| 0 <= i < commit_hash(line).len() implies commit_hash(line)[i]
        != ' ' by {
        assert(!is_space()(rest[i]));
    }
}

/// What reading a log gives. It succeeds exactly when every block names
/// its author and its date, and fails with `MalformedLogBlock` when one
/// does not. The report of a log that can be read has one commit for each
/// commit line, in the same order, under the hash that the line names.
pub proof fn lemma_parse_log(text: Seq<char>)
    ensures
        parse_log(text) is Ok <==> all_ok(block_commits(commit_blocks(text))),
        parse_log(text) matches Err(e) ==> e == GuitParseError::MalformedLogBlock,
        parse_log(text) matches Ok(commits) ==> {
            &&& commits.len() == commit_blocks(text).len()
            &&& commits.len() == commit_lines(text).len()
            &&& forall|i: int|
                0 <= i < commits.len() ==> commit_of(#[trigger] commit_blocks(text)[i]) == Ok::<
                    CommitView,
                    GuitParseError,
                >(commits[i])
            &&& forall|i: int|
                0 <= i < commits.len() ==> {
                    &&& (#[trigger] commits[i]).wf()
                    &&& commits[i].hash == commit_hash(commit_lines(text)[i])
                }
        },
{
    let blocks = commit_blocks(text);
    let results = block_commits(blocks);
    lemma_collect(results);
    lemma_collect_ok(results);
    lemma_log_blocks(split_lines(text));
    match parse_log(text) {
        Ok(commits) => {
            assert forall|i: int| 0 <= i < commits.len() implies commit_of(
                #[trigger] commit_blocks(text)[i],
            ) == Ok::<CommitView, GuitParseError>(commits[i]) by {
                assert(results[i] == commit_of(blocks[i]));
            }
            assert forall|i: int| 0 <= i < commits.len() implies {
                &&& (#[trigger] commits[i]).wf()
                &&& commits[i].hash == commit_hash(commit_lines(text)[i])
            } by {
                assert(results[i] == commit_of(blocks[i]));
                assert(is_block(blocks[i]));
                lemma_commit_hash(blocks[i][0]);
            }
        },
        Err(e) => {
            let k = choose|k: int|
                0 <= k < results.len() && results[k] == Err::<CommitView, GuitParseError>(e);
            assert(results[k] == commit_of(blocks[k]));
        },
    }
}

/// Lines without a commit line make an empty log.
pub proof fn lemma_no_commit_line(text: Seq<char>)
    requires
        commit_lines(text).len() == 0,
    ensures
        parse_log(text) == Ok::<Seq<CommitView>, GuitParseError>(Seq::empty()),
{
    lemma_log_blocks(split_lines(text));
    assert(block_commits(commit_blocks(text)) =~= Seq::empty());
}

/// The empty text is an empty log, not an error.
pub proof fn lemma_empty_log()
    ensures
        parse_log(Seq::empty()) == Ok::<Seq<CommitView>, GuitParseError>(Seq::empty()),
{
    let lines = split_lines(Seq::empty());
    assert(lines =~= seq![Seq::<char>::empty()]);
    assert(!opens_commit()(lines[0]));
    lemma_filter_none(lines, opens_commit());
    lemma_no_commit_line(Seq::empty());
}

/// Reading the same text twice gives the same log: two results that
/// `parse_log_output` may return for equal texts stand for the same
/// commits, or for the same error.
pub proof fn lemma_same_text_same_log(
    text1: Seq<char>,
    r1: Result<LogOutput, GuitParseError>,
    text2: Seq<char>,
    r2: Result<LogOutput, GuitParseError>,
)
    requires
        text1 == text2,
        log_result_view(r1) == parse_log(text1),
        log_result_view(r2) == parse_log(text2),
    ensures
        log_result_view(r1) == log_result_view(r2),
{
}

} // verus!

use vstd::prelude::*;
use crate::command_parser::error::{
    all_ok, collect, lemma_prepend_nothing, lemma_prepend_twice, prepend, GuitParseError,
};
use crate::command_parser::log_laws::{lemma_log_report_step, lemma_parse_log};
use crate::lines::{join_lines, lemma_join_push, lines_of, lines_view, split_lines};
use crate::scan::{
    chars_of, find_space, first_word, index_where, lemma_index_where, lemma_index_where_unique,
    push_chars, skip_spaces, starts_with, string_of, trim_start,
};

verus! {

/// One commit of a log.
#[derive(Debug, PartialEq, Eq)]
pub struct Commit {
    pub hash: String,
    pub author: String,
    pub date: String,
    pub message: String,
}

/// What a `Commit` stands for.
pub struct CommitView {
    pub hash: Seq<char>,
    pub author: Seq<char>,
    pub date: Seq<char>,
    pub message: Seq<char>,
}

impl View for Commit {
    type V = CommitView;

    open spec fn view(&self) -> CommitView {
        CommitView {
            hash: self.hash@,
            author: self.author@,
            date: self.date@,
            message: self.message@,
        }
    }
}

impl CommitView {
    /// What every commit read from a log satisfies: its hash is one word,
    /// and not empty.
    pub open spec fn wf(self) -> bool {
        &&& self.hash.len() > 0
        &&& forall|i: int| 0 <= i < self.hash.len() ==> self.hash[i] != ' '
    }
}

/// The commits of a log, in the order of its blocks.
#[derive(Debug, PartialEq, Eq)]
pub struct LogOutput(pub Vec<Commit>);

impl View for LogOutput {
    type V = Seq<CommitView>;

    open spec fn view(&self) -> Seq<CommitView> {
        commits_view(self.0@)
    }
}

/// What a sequence of commits stands for.
pub open spec fn commits_view(commits: Seq<Commit>) -> Seq<CommitView> {
    Seq::new(commits.len(), |i: int| commits[i]@)
}

/// What the line that opens a commit block begins with.
pub open spec fn commit_tag() -> Seq<char> {
    "commit "@
}

/// The label of the header line that names the author.
pub open spec fn author_label() -> Seq<char> {
    "Author:"@
}

/// The label of the header line that gives the date.
pub open spec fn date_label() -> Seq<char> {
    "Date:"@
}

/// What `git log` puts in front of each line of a message.
pub open spec fn indent() -> Seq<char> {
    "    "@
}

/// `line` opens a commit block: it begins with `commit`, a space, and a
/// hash.
pub open spec fn is_commit_line(line: Seq<char>) -> bool {
    &&& commit_tag().is_prefix_of(line)
    &&& line.len() > commit_tag().len()
    &&& line[commit_tag().len() as int] != ' '
}

/// The predicate "opens a commit block".
pub open spec fn opens_commit() -> spec_fn(Seq<char>) -> bool {
    |line: Seq<char>| is_commit_line(line)
}

/// The predicate "is empty".
pub open spec fn is_blank() -> spec_fn(Seq<char>) -> bool {
    |line: Seq<char>| line.len() == 0
}

/// The predicate "begins with `label`".
pub open spec fn has_label(label: Seq<char>) -> spec_fn(Seq<char>) -> bool {
    |line: Seq<char>| label.is_prefix_of(line)
}

/// The hash that a commit line names: the word after `commit` and its
/// space.
pub open spec fn commit_hash(line: Seq<char>) -> Seq<char> {
    first_word(line.skip(commit_tag().len() as int))
}

/// The value of the first of `headers` that begins with `label`: the rest
/// of that line, from its first character that is no space. `None` where no
/// header begins with `label`.
pub open spec fn header_value(headers: Seq<Seq<char>>, label: Seq<char>) -> Option<Seq<char>> {
    let k = index_where(headers, has_label(label));
    if k < headers.len() {
        Some(trim_start(headers[k].skip(label.len() as int)))
    } else {
        None
    }
}

/// A line of a message as the author wrote it: without the indentation,
/// where the line has it.
pub open spec fn strip_indent(line: Seq<char>) -> Seq<char> {
    if indent().is_prefix_of(line) {
        line.skip(indent().len() as int)
    } else {
        line
    }
}

/// Each of `lines` as the author wrote it.
pub open spec fn strip_indents(lines: Seq<Seq<char>>) -> Seq<Seq<char>> {
    Seq::new(lines.len(), |i: int| strip_indent(lines[i]))
}

/// Where the lines of the message begin in what follows the headers of a
/// block: after one empty line, if there is one.
pub open spec fn message_start(lines: Seq<Seq<char>>) -> int {
    if lines.len() > 0 && lines[0].len() == 0 {
        1
    } else {
        0
    }
}

/// Where the lines of the message end in what follows the headers of a
/// block: before one empty line at the end, if there is one left after the
/// message's beginning.
pub open spec fn message_end(lines: Seq<Seq<char>>) -> int {
    if lines.len() > message_start(lines) && lines.last().len() == 0 {
        lines.len() - 1
    } else {
        lines.len() as int
    }
}

/// The message that the lines after the headers of a block hold: these
/// lines without one empty line at either end, each without its
/// indentation, with a newline between each two.
pub open spec fn message_of(lines: Seq<Seq<char>>) -> Seq<char> {
    join_lines(strip_indents(lines.subrange(message_start(lines), message_end(lines))))
}

/// How many of the lines after the commit line are headers: those before
/// the first empty line.
pub open spec fn header_count(body: Seq<Seq<char>>) -> int {
    index_where(body, is_blank())
}

/// What a commit block says. Its first line is the commit line; the
/// headers follow, up to the first empty line; the rest is the message. A
/// block whose headers name no author or no date is malformed.
pub open spec fn commit_of(block: Seq<Seq<char>>) -> Result<CommitView, GuitParseError> {
    let body = block.drop_first();
    let headers = body.take(header_count(body));
    match (header_value(headers, author_label()), header_value(headers, date_label())) {
        (Some(author), Some(date)) => Ok(
            CommitView {
                hash: commit_hash(block[0]),
                author,
                date,
                message: message_of(body.skip(header_count(body))),
            },
        ),
        _ => Err(GuitParseError::MalformedLogBlock),
    }
}

/// The length of the block that `lines` begins with: its commit line and
/// every line up to the next commit line.
pub open spec fn block_len(lines: Seq<Seq<char>>) -> int {
    1 + index_where(lines.drop_first(), opens_commit())
}

/// The commit blocks of `lines`. The lines before the first commit line
/// belong to no block; from there on each commit line opens a block, which
/// ends before the next commit line.
pub open spec fn log_blocks(lines: Seq<Seq<char>>) -> Seq<Seq<Seq<char>>>
    decreases lines.len(),
{
    if lines.len() == 0 {
        Seq::empty()
    } else if !is_commit_line(lines[0]) {
        log_blocks(lines.drop_first())
    } else {
        proof {
            lemma_index_where(lines.drop_first(), opens_commit());
        }
        seq![lines.take(block_len(lines))] + log_blocks(lines.skip(block_len(lines)))
    }
}

/// What each of `blocks` says, one by one.
pub open spec fn block_commits(blocks: Seq<Seq<Seq<char>>>) -> Seq<
    Result<CommitView, GuitParseError>,
> {
    Seq::new(blocks.len(), |i: int| commit_of(blocks[i]))
}

/// What a sequence of lines says as a log: one commit for each block, in
/// order; or the error of the first block that has one, whatever follows
/// it.
pub open spec fn log_report(lines: Seq<Seq<char>>) -> Result<Seq<CommitView>, GuitParseError> {
    collect(block_commits(log_blocks(lines)))
}

/// The commit lines of `text`, in their order.
pub open spec fn commit_lines(text: Seq<char>) -> Seq<Seq<char>> {
    split_lines(text).filter(opens_commit())
}

/// The commit blocks of `text`, in their order.
pub open spec fn commit_blocks(text: Seq<char>) -> Seq<Seq<Seq<char>>> {
    log_blocks(split_lines(text))
}

/// What the text of a log says.
pub open spec fn parse_log(text: Seq<char>) -> Result<Seq<CommitView>, GuitParseError> {
    log_report(split_lines(text))
}

/// What the result of reading a log stands for.
pub open spec fn log_result_view(r: Result<LogOutput, GuitParseError>) -> Result<
    Seq<CommitView>,
    GuitParseError,
> {
    match r {
        Ok(output) => Ok(output@),
        Err(e) => Err(e),
    }
}

/// Whether `line` opens a commit block.
fn opens_commit_block(line: &Vec<char>, tag: &Vec<char>) -> (b: bool)
    requires
        tag@ == commit_tag(),
    ensures
        b == is_commit_line(line@),
{
    starts_with(line, tag) && line.len() > tag.len() && line[tag.len()] != ' '
}

/// Looks in `lines[from..to]` for the first line that begins with `label`
/// and returns its value.
fn find_header(lines: &Vec<Vec<char>>, from: usize, to: usize, label: &Vec<char>) -> (value:
    Option<String>)
    requires
        from <= to <= lines.len(),
    ensures
        match value {
            Some(text) => header_value(
                lines_view(lines@).subrange(from as int, to as int),
                label@,
            ) == Some(text@),
            None => header_value(lines_view(lines@).subrange(from as int, to as int), label@)
                is None,
        },
{
    let ghost headers = lines_view(lines@).subrange(from as int, to as int);
    let mut k: usize = from;
    while k < to
        invariant
            from <= k <= to <= lines.len(),
            headers == lines_view(lines@).subrange(from as int, to as int),
            forall|j: int| 0 <= j < k - from ==> !has_label(label@)(#[trigger] headers[j]),
        decreases to - k,
    {
        let line = &lines[k];
        if starts_with(line, label) {
            proof {
                lemma_index_where_unique(headers, has_label(label@), k - from);
            }
            let start = skip_spaces(line, label.len());
            return Some(string_of(line, start, line.len()));
        }
        k += 1;
    }
    proof {
        lemma_index_where_unique(headers, has_label(label@), to - from);
    }
    None
}

/// Puts together the message held in `lines[from..to]`, the lines that
/// follow the headers of a block.
fn read_message(lines: &Vec<Vec<char>>, from: usize, to: usize) -> (message: String)
    requires
        from <= to <= lines.len(),
    ensures
        message@ == message_of(lines_view(lines@).subrange(from as int, to as int)),
{
    let ghost rest = lines_view(lines@).subrange(from as int, to as int);
    let margin = chars_of("    ");
    let mut start: usize = from;
    if start < to && lines[start].len() == 0 {
        start += 1;
    }
    let mut end: usize = to;
    if end > start && lines[end - 1].len() == 0 {
        end -= 1;
    }
    let ghost kept = strip_indents(rest.subrange(start - from, end - from));
    let mut message = String::new();
    let mut k: usize = start;
    while k < end
        invariant
            from <= start <= k <= end <= to <= lines.len(),
            margin@ == indent(),
            rest == lines_view(lines@).subrange(from as int, to as int),
            kept == strip_indents(rest.subrange(start - from, end - from)),
            message@ == join_lines(kept.take(k - start)),
        decreases end - k,
    {
        let line = &lines[k];
        let ghost done = kept.take(k - start);
        proof {
            assert(kept.take(k - start + 1) =~= done.push(strip_indent(line@)));
            lemma_join_push(done, strip_indent(line@));
        }
        if k > start {
            message.push('\n');
        }
        let first: usize = if starts_with(line, &margin) {
            margin.len()
        } else {
            0
        };
        push_chars(&mut message, line, first, line.len());
        k += 1;
    }
    assert(kept.take(end - start) =~= kept);
    message
}

/// Reads the commit block `lines[start..end]`, whose first line is a commit
/// line.
fn parse_commit(lines: &Vec<Vec<char>>, start: usize, end: usize) -> (r: Result<
    Commit,
    GuitParseError,
>)
    requires
        start < end <= lines.len(),
        is_commit_line(lines@[start as int]@),
    ensures
        match r {
            Ok(commit) => commit_of(lines_view(lines@).subrange(start as int, end as int)) == Ok::<
                CommitView,
                GuitParseError,
            >(commit@),
            Err(e) => commit_of(lines_view(lines@).subrange(start as int, end as int)) == Err::<
                CommitView,
                GuitParseError,
            >(e),
        },
{
    let ghost block = lines_view(lines@).subrange(start as int, end as int);
    let ghost body = block.drop_first();
    let tag = chars_of("commit ");
    let author_label = chars_of("Author:");
    let date_label = chars_of("Date:");

    let mut headers_end: usize = start + 1;
    while headers_end < end && lines[headers_end].len() > 0
        invariant
            start < headers_end <= end <= lines.len(),
            body == lines_view(lines@).subrange(start + 1, end as int),
            forall|j: int| 0 <= j < headers_end - start - 1 ==> !is_blank()(#[trigger] body[j]),
        decreases end - headers_end,
    {
        headers_end += 1;
    }
    proof {
        lemma_index_where_unique(body, is_blank(), headers_end - start - 1);
        assert(body.take(header_count(body)) =~= lines_view(lines@).subrange(
            start + 1,
            headers_end as int,
        ));
        assert(body.skip(header_count(body)) =~= lines_view(lines@).subrange(
            headers_end as int,
            end as int,
        ));
    }
    let author = match find_header(lines, start + 1, headers_end, &author_label) {
        Some(author) => author,
        None => {
            return Err(GuitParseError::MalformedLogBlock);
        },
    };
    let date = match find_header(lines, start + 1, headers_end, &date_label) {
        Some(date) => date,
        None => {
            return Err(GuitParseError::MalformedLogBlock);
        },
    };
    let line = &lines[start];
    let hash_end = find_space(line, tag.len());
    let hash = string_of(line, tag.len(), hash_end);
    assert(commit_hash(line@) =~= line@.subrange(tag@.len() as int, hash_end as int));
    let message = read_message(lines, headers_end, end);
    Ok(Commit { hash, author, date, message })
}

/// Reads the text of a log: one commit for each block, in the order of the
/// blocks. A text without any commit line gives an empty log. The first
/// block without author or date ends the reading with
/// `MalformedLogBlock`.
pub fn parse_log_output(log_output: &str) -> (r: Result<LogOutput, GuitParseError>)
    ensures
        log_result_view(r) == parse_log(log_output@),
        r is Ok <==> all_ok(block_commits(commit_blocks(log_output@))),
        r matches Err(e) ==> e == GuitParseError::MalformedLogBlock,
        r matches Ok(output) ==> {
            &&& output@.len() == commit_lines(log_output@).len()
            &&& output@.len() == commit_blocks(log_output@).len()
            &&& forall|i: int|
                0 <= i < output@.len() ==> commit_of(#[trigger] commit_blocks(log_output@)[i])
                    == Ok::<CommitView, GuitParseError>(output@[i])
            &&& forall|i: int|
                0 <= i < output@.len() ==> {
                    &&& (#[trigger] output@[i]).wf()
                    &&& output@[i].hash == commit_hash(commit_lines(log_output@)[i])
                }
        },
{
    let lines = lines_of(log_output);
    let tag = chars_of("commit ");
    let ghost all = lines_view(lines@);
    let mut commits: Vec<Commit> = Vec::new();
    let mut i: usize = 0;
    proof {
        assert(all.skip(0) =~= all);
        lemma_prepend_nothing(log_report(all));
    }
    while i < lines.len()
        invariant
            i <= lines.len(),
            tag@ == commit_tag(),
            all == lines_view(lines@),
            all == split_lines(log_output@),
            log_report(all) == prepend(commits_view(commits@), log_report(all.skip(i as int))),
        decreases lines.len() - i,
    {
        let ghost rest = all.skip(i as int);
        proof {
            assert(rest.drop_first() =~= all.skip(i + 1));
            lemma_log_report_step(rest);
        }
        if opens_commit_block(&lines[i], &tag) {
            let mut end: usize = i + 1;
            while end < lines.len() && !opens_commit_block(&lines[end], &tag)
                invariant
                    i < end <= lines.len(),
                    tag@ == commit_tag(),
                    all == lines_view(lines@),
                    forall|j: int| i < j < end ==> !is_commit_line(#[trigger] all[j]),
                decreases lines.len() - end,
            {
                end += 1;
            }
            proof {
                let tail = rest.drop_first();
                assert forall|j: int| 0 <= j < end - i - 1 implies !opens_commit()(
                    #[trigger] tail[j],
                ) by {
                    assert(tail[j] == all[i + 1 + j]);
                }
                lemma_index_where_unique(tail, opens_commit(), end - i - 1);
                assert(rest.take(end - i) =~= all.subrange(i as int, end as int));
                assert(rest.skip(end - i) =~= all.skip(end as int));
            }
            match parse_commit(&lines, i, end) {
                Ok(commit) => {
                    proof {
                        lemma_prepend_twice(
                            commits_view(commits@),
                            seq![commit@],
                            log_report(all.skip(end as int)),
                        );
                        assert(commits_view(commits@) + seq![commit@] =~= commits_view(
                            commits@.push(commit),
                        ));
                    }
                    commits.push(commit);
                },
                Err(e) => {
                    proof {
                        lemma_parse_log(log_output@);
                    }
                    return Err(e);
                },
            }
            i = end;
        } else {
            i += 1;
        }
    }
    proof {
        lemma_log_report_step(Seq::empty());
        lemma_parse_log(log_output@);
    }
    Ok(LogOutput(commits))
}

} // verus!

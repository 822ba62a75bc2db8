use vstd::prelude::*;
use crate::command_parser::error::{
    all_ok, collect, lemma_prepend_nothing, lemma_prepend_twice, prepend, GuitParseError,
};
use crate::command_parser::status_laws::{lemma_parse_status, lemma_status_report_step};
use crate::command_parser::status_table::StatusTable;
use crate::lines::{lines_of, lines_view, split_lines};
use crate::scan::string_of;

verus! {

/// A path, exactly as the status line spells it.
#[derive(Debug, PartialEq, Eq)]
pub struct Path(pub String);

impl View for Path {
    type V = Seq<char>;

    open spec fn view(&self) -> Seq<char> {
        self.0@
    }
}

/// One changed file: its state in the index (`x`) and in the working tree
/// (`y`), its path, and the path it was renamed from, if the line names one.
#[derive(Debug, PartialEq, Eq)]
pub struct StatusPath {
    pub x: StatusTable,
    pub y: StatusTable,
    pub orig_path: Option<Path>,
    pub path: Path,
}

/// What a `StatusPath` stands for.
pub struct StatusPathView {
    pub x: StatusTable,
    pub y: StatusTable,
    pub orig_path: Option<Seq<char>>,
    pub path: Seq<char>,
}

impl View for StatusPath {
    type V = StatusPathView;

    open spec fn view(&self) -> StatusPathView {
        StatusPathView {
            x: self.x,
            y: self.y,
            orig_path: match self.orig_path {
                Some(p) => Some(p@),
                None => None,
            },
            path: self.path@,
        }
    }
}

impl StatusPathView {
    /// What every entry read from a status line satisfies: a path that is
    /// not empty, and two states that have a place in a status line.
    pub open spec fn wf(self) -> bool {
        &&& self.path.len() > 0
        &&& self.x != StatusTable::Unknown
        &&& self.y != StatusTable::Unknown
    }

    /// The status line that spells this entry.
    pub open spec fn line(self) -> Seq<char> {
        let paths = match self.orig_path {
            Some(orig) => orig + arrow() + self.path,
            None => self.path,
        };
        seq![self.x.code(), self.y.code(), ' '] + paths
    }
}

/// The changed files of a status block, in the order of its lines.
#[derive(Debug, PartialEq, Eq)]
pub struct StatusOutput(pub Vec<StatusPath>);

impl View for StatusOutput {
    type V = Seq<StatusPathView>;

    open spec fn view(&self) -> Seq<StatusPathView> {
        entries_view(self.0@)
    }
}

/// What a sequence of entries stands for.
pub open spec fn entries_view(entries: Seq<StatusPath>) -> Seq<StatusPathView> {
    Seq::new(entries.len(), |i: int| entries[i]@)
}

/// The mark between the two paths of a rename.
pub open spec fn arrow() -> Seq<char> {
    seq![' ', '-', '>', ' ']
}

/// The rename mark stands in `s` at index `k`.
pub open spec fn arrow_at(s: Seq<char>, k: int) -> bool {
    &&& 0 <= k
    &&& k + 4 <= s.len()
    &&& s[k] == ' '
    &&& s[k + 1] == '-'
    &&& s[k + 2] == '>'
    &&& s[k + 3] == ' '
}

/// `s` holds a rename mark.
pub open spec fn has_arrow(s: Seq<char>) -> bool {
    exists|k: int| arrow_at(s, k)
}

/// The rename mark stands in `s` at `k` and nowhere further right.
pub open spec fn is_last_arrow(s: Seq<char>, k: int) -> bool {
    &&& arrow_at(s, k)
    &&& forall|j: int| arrow_at(s, j) ==> j <= k
}

/// Where the rightmost rename mark of `s` stands, if `s` has one.
pub open spec fn last_arrow(s: Seq<char>) -> int {
    choose|k: int| is_last_arrow(s, k)
}

/// The path a file was renamed from: what stands before the rightmost
/// rename mark of `paths`, where there is one.
pub open spec fn orig_path_of(paths: Seq<char>) -> Option<Seq<char>> {
    if has_arrow(paths) {
        Some(paths.take(last_arrow(paths)))
    } else {
        None
    }
}

/// The path of the file: what stands after the rightmost rename mark of
/// `paths`, or all of `paths` where there is no mark.
pub open spec fn path_of(paths: Seq<char>) -> Seq<char> {
    if has_arrow(paths) {
        paths.skip(last_arrow(paths) + 4)
    } else {
        paths
    }
}

/// `line` has the shape of a status line: two status characters, one space,
/// and then a path that is not empty (after the rename mark, if any).
pub open spec fn is_status_shaped(line: Seq<char>) -> bool {
    &&& line.len() >= 4
    &&& line[2] == ' '
    &&& path_of(line.skip(3)).len() > 0
}

/// What one line of a status block says. A line without the shape of a
/// status line is malformed; a line with the shape whose first or second
/// character is no status character has an unknown status.
pub open spec fn status_entry(line: Seq<char>) -> Result<StatusPathView, GuitParseError> {
    if !is_status_shaped(line) {
        Err(GuitParseError::MalformedStatusOutput)
    } else {
        match (StatusTable::from_code(line[0]), StatusTable::from_code(line[1])) {
            (Ok(x), Ok(y)) => Ok(
                StatusPathView {
                    x,
                    y,
                    orig_path: orig_path_of(line.skip(3)),
                    path: path_of(line.skip(3)),
                },
            ),
            _ => Err(GuitParseError::UnknownStatusTable),
        }
    }
}

/// The predicate "carries an entry": the line is not empty.
pub open spec fn has_entry() -> spec_fn(Seq<char>) -> bool {
    |line: Seq<char>| line.len() > 0
}

/// The lines that carry an entry, in their order: those that are not empty.
pub open spec fn entry_lines(lines: Seq<Seq<char>>) -> Seq<Seq<char>> {
    lines.filter(has_entry())
}

/// What each of `lines` says, one by one.
pub open spec fn status_entries(lines: Seq<Seq<char>>) -> Seq<
    Result<StatusPathView, GuitParseError>,
> {
    Seq::new(lines.len(), |i: int| status_entry(lines[i]))
}

/// What a sequence of lines says as a status block: one entry for each line
/// that is not empty, in order; or the error of the first line that has
/// one, whatever follows it.
pub open spec fn status_report(lines: Seq<Seq<char>>) -> Result<
    Seq<StatusPathView>,
    GuitParseError,
> {
    collect(status_entries(entry_lines(lines)))
}

/// The lines of `text` that carry an entry.
pub open spec fn status_lines(text: Seq<char>) -> Seq<Seq<char>> {
    entry_lines(split_lines(text))
}

/// What the text of a status block says.
pub open spec fn parse_status(text: Seq<char>) -> Result<Seq<StatusPathView>, GuitParseError> {
    status_report(split_lines(text))
}

/// What the result of reading a status block stands for.
pub open spec fn status_result_view(r: Result<StatusOutput, GuitParseError>) -> Result<
    Seq<StatusPathView>,
    GuitParseError,
> {
    match r {
        Ok(output) => Ok(output@),
        Err(e) => Err(e),
    }
}

/// Looks for the rightmost rename mark of `line[from..]`.
fn find_last_arrow(line: &Vec<char>, from: usize) -> (found: Option<usize>)
    requires
        from <= line.len(),
    ensures
        match found {
            Some(k) => from <= k && k + 4 <= line.len() && is_last_arrow(
                line@.skip(from as int),
                k - from,
            ),
            None => !has_arrow(line@.skip(from as int)),
        },
{
    let ghost paths = line@.skip(from as int);
    let mut end: usize = line.len();
    while end >= 4 && end - 4 >= from
        invariant
            from <= line.len(),
            end <= line.len(),
            paths == line@.skip(from as int),
            forall|j: int| j > end - 4 - from ==> !arrow_at(paths, j),
        decreases end,
    {
        let k = end - 4;
        if line[k] == ' ' && line[k + 1] == '-' && line[k + 2] == '>' && line[k + 3] == ' ' {
            return Some(k);
        }
        end -= 1;
    }
    assert forall|j: int| !arrow_at(paths, j) by {
        if 0 <= j {
            assert(j > end - 4 - from);
        }
    }
    None
}

/// Reads one line of a status block.
pub fn parse_status_line(line: &Vec<char>) -> (r: Result<StatusPath, GuitParseError>)
    ensures
        match r {
            Ok(entry) => status_entry(line@) == Ok::<StatusPathView, GuitParseError>(entry@),
            Err(e) => status_entry(line@) == Err::<StatusPathView, GuitParseError>(e),
        },
{
    if line.len() < 4 || line[2] != ' ' {
        return Err(GuitParseError::MalformedStatusOutput);
    }
    let ghost paths = line@.skip(3);
    let found = find_last_arrow(line, 3);
    let path_start: usize = match found {
        Some(k) => k + 4,
        None => 3,
    };
    proof {
        if let Some(k) = found {
            assert(path_of(paths) =~= line@.subrange(path_start as int, line.len() as int));
            assert(paths.take(k - 3) =~= line@.subrange(3, k as int));
        }
    }
    if path_start == line.len() {
        return Err(GuitParseError::MalformedStatusOutput);
    }
    let x = match StatusTable::from_char(line[0]) {
        Ok(x) => x,
        Err(e) => {
            return Err(e);
        },
    };
    let y = match StatusTable::from_char(line[1]) {
        Ok(y) => y,
        Err(e) => {
            return Err(e);
        },
    };
    let orig_path = match found {
        Some(k) => Some(Path(string_of(line, 3, k))),
        None => None,
    };
    let path = Path(string_of(line, path_start, line.len()));
    Ok(StatusPath { x, y, orig_path, path })
}

/// Reads the text of a status block: one entry for each line that is not
/// empty, in the order of the lines. The first line that cannot be read
/// ends the reading with its error.
pub fn parse_status_output(status_output: &str) -> (r: Result<StatusOutput, GuitParseError>)
    ensures
        status_result_view(r) == parse_status(status_output@),
        r is Ok <==> all_ok(status_entries(status_lines(status_output@))),
        r matches Ok(output) ==> {
            &&& output@.len() == status_lines(status_output@).len()
            &&& forall|i: int|
                0 <= i < output@.len() ==> status_entry(#[trigger] status_lines(status_output@)[i])
                    == Ok::<StatusPathView, GuitParseError>(output@[i])
            &&& forall|i: int| 0 <= i < output@.len() ==> (#[trigger] output@[i]).wf()
        },
{
    let lines = lines_of(status_output);
    let ghost all = lines_view(lines@);
    let mut entries: Vec<StatusPath> = Vec::new();
    let mut i: usize = 0;
    proof {
        assert(all.skip(0) =~= all);
        lemma_prepend_nothing(status_report(all));
    }
    while i < lines.len()
        invariant
            i <= lines.len(),
            all == lines_view(lines@),
            all == split_lines(status_output@),
            status_report(all) == prepend(entries_view(entries@), status_report(all.skip(i as int))),
        decreases lines.len() - i,
    {
        let ghost rest = all.skip(i as int);
        proof {
            assert(rest.drop_first() =~= all.skip(i + 1));
            lemma_status_report_step(rest);
        }
        if lines[i].len() > 0 {
            match parse_status_line(&lines[i]) {
                Ok(entry) => {
                    proof {
                        lemma_prepend_twice(
                            entries_view(entries@),
                            seq![entry@],
                            status_report(all.skip(i + 1)),
                        );
                        assert(entries_view(entries@) + seq![entry@] =~= entries_view(
                            entries@.push(entry),
                        ));
                    }
                    entries.push(entry);
                },
                Err(e) => {
                    proof {
                        lemma_parse_status(status_output@);
                    }
                    return Err(e);
                },
            }
        }
        i += 1;
    }
    proof {
        lemma_status_report_step(Seq::empty());
        lemma_parse_status(status_output@);
    }
    Ok(StatusOutput(entries))
}

} // verus!

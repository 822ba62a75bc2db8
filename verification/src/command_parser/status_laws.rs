//! What holds of every status block, proved from the definitions in
//! `status`.

use vstd::prelude::*;
use crate::command_parser::error::{
    all_ok, is_first_error, lemma_collect, lemma_collect_first, lemma_collect_first_error,
    lemma_collect_ok, prepend, GuitParseError,
};
use crate::command_parser::status::{
    arrow, arrow_at, entry_lines, has_arrow, has_entry, is_last_arrow, last_arrow, orig_path_of,
    parse_status, path_of, status_entries, status_entry, status_lines, status_report,
    status_result_view, StatusOutput, StatusPathView,
};

verus! {

proof fn lemma_last_arrow_below(s: Seq<char>, n: int)
    requires
        has_arrow(s),
        forall|j: int| arrow_at(s, j) ==> j < n,
    ensures
        is_last_arrow(s, last_arrow(s)),
    decreases n,
{
    if n <= 0 {
        let k = choose|k: int| arrow_at(s, k);
        assert(k < n);
    } else if arrow_at(s, n - 1) {
        assert(is_last_arrow(s, n - 1));
    } else {
        lemma_last_arrow_below(s, n - 1);
    }
}

/// A text that holds a rename mark has a rightmost one, and `last_arrow`
/// is where it stands.
pub proof fn lemma_last_arrow(s: Seq<char>)
    requires
        has_arrow(s),
    ensures
        is_last_arrow(s, last_arrow(s)),
{
    lemma_last_arrow_below(s, s.len() as int);
}

/// The two paths of a status line, with the mark between them where the
/// line has one, are the line's text after its first three characters.
pub proof fn lemma_paths_join(paths: Seq<char>)
    ensures
        match orig_path_of(paths) {
            Some(orig) => has_arrow(paths) && paths == orig + arrow() + path_of(paths),
            None => !has_arrow(paths) && paths == path_of(paths),
        },
{
    if has_arrow(paths) {
        lemma_last_arrow(paths);
        let k = last_arrow(paths);
        assert(paths =~= paths.take(k) + arrow() + paths.skip(k + 4));
    }
}

/// An entry read from a line is well formed, names the path that the file
/// was renamed from exactly when the line holds a rename mark, and spells
/// the line it was read from.
pub proof fn lemma_status_entry(line: Seq<char>)
    requires
        status_entry(line) is Ok,
    ensures
        status_entry(line)->Ok_0.wf(),
        status_entry(line)->Ok_0.orig_path is Some <==> has_arrow(line.skip(3)),
        status_entry(line)->Ok_0.line() == line,
{
    let entry = status_entry(line)->Ok_0;
    lemma_paths_join(line.skip(3));
    assert(line =~= seq![line[0], line[1], line[2]] + line.skip(3));
    assert(entry.x.code() == line[0]);
    assert(entry.y.code() == line[1]);
}

/// Reading a status block line by line. No lines say nothing. An empty
/// first line is passed over; any other first line gives the first entry,
/// or the error of the whole block.
pub proof fn lemma_status_report_step(lines: Seq<Seq<char>>)
    ensures
        status_report(lines) == if lines.len() == 0 {
            Ok::<Seq<StatusPathView>, GuitParseError>(Seq::empty())
        } else if lines[0].len() == 0 {
            status_report(lines.drop_first())
        } else {
            match status_entry(lines[0]) {
                Ok(entry) => prepend(seq![entry], status_report(lines.drop_first())),
                Err(e) => Err(e),
            }
        },
{
    if lines.len() == 0 {
        lines.lemma_filter_len(has_entry());
    } else {
        let rest = lines.drop_first();
        assert(lines =~= seq![lines[0]] + rest);
        rest.lemma_filter_prepend(lines[0], has_entry());
        if lines[0].len() == 0 {
            assert(entry_lines(lines) =~= entry_lines(rest));
        } else {
            assert(entry_lines(lines) =~= seq![lines[0]] + entry_lines(rest));
            assert(status_entries(entry_lines(lines)) =~= seq![status_entry(lines[0])]
                + status_entries(entry_lines(rest)));
            lemma_collect_first(status_entry(lines[0]), status_entries(entry_lines(rest)));
        }
    }
}

/// What reading a status text gives. It succeeds exactly when every line
/// that is not empty can be read. The report then has one entry for each
/// of these lines, in the same order, and every entry is well formed.
pub proof fn lemma_parse_status(text: Seq<char>)
    ensures
        parse_status(text) is Ok <==> all_ok(status_entries(status_lines(text))),
        parse_status(text) matches Ok(entries) ==> {
            &&& entries.len() == status_lines(text).len()
            &&& forall|i: int|
                0 <= i < entries.len() ==> status_entry(#[trigger] status_lines(text)[i]) == Ok::<
                    StatusPathView,
                    GuitParseError,
                >(entries[i])
            &&& forall|i: int| 0 <= i < entries.len() ==> (#[trigger] entries[i]).wf()
        },
{
    let results = status_entries(status_lines(text));
    lemma_collect(results);
    lemma_collect_ok(results);
    if let Ok(entries) = parse_status(text) {
        assert forall|i: int| 0 <= i < entries.len() implies status_entry(
            #[trigger] status_lines(text)[i],
        ) == Ok::<StatusPathView, GuitParseError>(entries[i]) by {
            assert(results[i] == status_entry(status_lines(text)[i]));
        }
        assert forall|i: int| 0 <= i < entries.len() implies (#[trigger] entries[i]).wf() by {
            assert(results[i] == status_entry(status_lines(text)[i]));
            lemma_status_entry(status_lines(text)[i]);
        }
    }
}

/// A status text with `n` lines that are not empty, each of them well
/// formed, gives a report of `n` entries, in the order of the lines.
pub proof fn lemma_line_count(text: Seq<char>, n: nat)
    requires
        status_lines(text).len() == n,
        forall|i: int| 0 <= i < n ==> status_entry(#[trigger] status_lines(text)[i]) is Ok,
    ensures
        parse_status(text) is Ok,
        parse_status(text)->Ok_0.len() == n,
        forall|i: int|
            0 <= i < n ==> status_entry(#[trigger] status_lines(text)[i]) == Ok::<
                StatusPathView,
                GuitParseError,
            >(parse_status(text)->Ok_0[i]),
{
    let results = status_entries(status_lines(text));
    assert forall|i: int| 0 <= i < results.len() implies (#[trigger] results[i]) is Ok by {
        assert(results[i] == status_entry(status_lines(text)[i]));
    }
    lemma_parse_status(text);
}

/// A status text is refused with the error of its first line that cannot
/// be read, whatever follows that line.
pub proof fn lemma_first_failure(text: Seq<char>, k: int)
    requires
        0 <= k < status_lines(text).len(),
        status_entry(status_lines(text)[k]) is Err,
        forall|j: int| 0 <= j < k ==> status_entry(#[trigger] status_lines(text)[j]) is Ok,
    ensures
        parse_status(text) == Err::<Seq<StatusPathView>, GuitParseError>(
            status_entry(status_lines(text)[k])->Err_0,
        ),
{
    let results = status_entries(status_lines(text));
    assert forall|j: int| 0 <= j < k implies (#[trigger] results[j]) is Ok by {
        assert(results[j] == status_entry(status_lines(text)[j]));
    }
    assert(is_first_error(results, k));
    lemma_collect_first_error(results, k);
}

/// Reading the same text twice gives the same report: two results that
/// `parse_status_output` may return for equal texts stand for the same
/// entries, or for the same error.
pub proof fn lemma_same_text_same_report(
    text1: Seq<char>,
    r1: Result<StatusOutput, GuitParseError>,
    text2: Seq<char>,
    r2: Result<StatusOutput, GuitParseError>,
)
    requires
        text1 == text2,
        status_result_view(r1) == parse_status(text1),
        status_result_view(r2) == parse_status(text2),
    ensures
        status_result_view(r1) == status_result_view(r2),
{
}

} // verus!

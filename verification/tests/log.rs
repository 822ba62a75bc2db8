use guit::command_parser::{parse_log_output, Commit, GuitParseError, LogOutput};

fn commit(hash: &str, author: &str, date: &str, message: &str) -> Commit {
    Commit {
        hash: hash.to_owned(),
        author: author.to_owned(),
        date: date.to_owned(),
        message: message.to_owned(),
    }
}

const LOG: &str = "commit 3f2a9c1d0e4b5a6978877665544332211ffeeddc
Author: Ada Lovelace <ada@example.org>
Date:   Mon Mar 4 10:12:13 2024 +0100

    Add the status parser

    It reads the short format,
    one entry per line.

commit 0123456789abcdef0123456789abcdef01234567
Author: Grace Hopper <grace@example.org>
Date:   Sun Mar 3 09:00:00 2024 +0100

    First commit
";

#[test]
fn empty_log_is_an_empty_report() {
    assert_eq!(parse_log_output(""), Ok(LogOutput(vec![])));
}

#[test]
fn text_without_commit_line_is_an_empty_report() {
    assert_eq!(parse_log_output("\n\n"), Ok(LogOutput(vec![])));
    assert_eq!(
        parse_log_output("fatal: your current branch has no commits yet\n"),
        Ok(LogOutput(vec![]))
    );
    assert_eq!(parse_log_output("commit\ncommit \ncommit  x\n"), Ok(LogOutput(vec![])));
}

#[test]
fn two_commits_in_order() {
    let expected = LogOutput(vec![
        commit(
            "3f2a9c1d0e4b5a6978877665544332211ffeeddc",
            "Ada Lovelace <ada@example.org>",
            "Mon Mar 4 10:12:13 2024 +0100",
            "Add the status parser\n\nIt reads the short format,\none entry per line.",
        ),
        commit(
            "0123456789abcdef0123456789abcdef01234567",
            "Grace Hopper <grace@example.org>",
            "Sun Mar 3 09:00:00 2024 +0100",
            "First commit",
        ),
    ]);
    assert_eq!(parse_log_output(LOG), Ok(expected));
}

#[test]
fn hash_is_the_first_word_after_commit() {
    let text = "commit abc123 (HEAD -> main, origin/main)\nAuthor: A\nDate: D\n\n    m\n";
    assert_eq!(parse_log_output(text), Ok(LogOutput(vec![commit("abc123", "A", "D", "m")])));
}

#[test]
fn other_headers_are_passed_over() {
    let text = "commit abc\nMerge: 111 222\nAuthor: A <a@b>\nDate:   today\n\n    Merge branch\n";
    assert_eq!(
        parse_log_output(text),
        Ok(LogOutput(vec![commit("abc", "A <a@b>", "today", "Merge branch")]))
    );
}

#[test]
fn header_values_keep_what_follows_the_leading_spaces() {
    let text = "commit abc\nDate:\t x  \nAuthor:   A  B  \n";
    assert_eq!(parse_log_output(text), Ok(LogOutput(vec![commit("abc", "A  B  ", "\t x  ", "")])));
}

#[test]
fn first_header_of_a_kind_is_the_one_read() {
    let text = "commit abc\nAuthor: first\nAuthor: second\nDate: 1\nDate: 2\n";
    assert_eq!(parse_log_output(text), Ok(LogOutput(vec![commit("abc", "first", "1", "")])));
}

#[test]
fn block_without_author_is_malformed() {
    let text = "commit abc\nDate:   today\n\n    message\n";
    assert_eq!(parse_log_output(text), Err(GuitParseError::MalformedLogBlock));
}

#[test]
fn block_without_date_is_malformed() {
    let text = "commit abc\nAuthor: A\n\n    message\n";
    assert_eq!(parse_log_output(text), Err(GuitParseError::MalformedLogBlock));
}

#[test]
fn headers_end_at_the_first_empty_line() {
    let text = "commit abc\nAuthor: A\n\nDate:   today\n";
    assert_eq!(parse_log_output(text), Err(GuitParseError::MalformedLogBlock));
}

#[test]
fn malformed_block_after_a_good_one_fails_the_whole_log() {
    let text = "commit abc\nAuthor: A\nDate: D\n\n    ok\n\ncommit def\nAuthor: B\n";
    assert_eq!(parse_log_output(text), Err(GuitParseError::MalformedLogBlock));
}

#[test]
fn lines_before_the_first_commit_are_passed_over() {
    let text = "warning: something\nAuthor: nobody\ncommit abc\nAuthor: A\nDate: D\n";
    assert_eq!(parse_log_output(text), Ok(LogOutput(vec![commit("abc", "A", "D", "")])));
}

#[test]
fn message_keeps_inner_blank_lines_and_loses_one_at_each_end() {
    let text = "commit abc\nAuthor: A\nDate: D\n\n\n    one\n    \n\n    two\n\n\n";
    assert_eq!(
        parse_log_output(text),
        Ok(LogOutput(vec![commit("abc", "A", "D", "\none\n\n\ntwo\n\n")]))
    );
}

#[test]
fn indentation_is_removed_once_and_only_where_it_stands() {
    let text = "commit abc\nAuthor: A\nDate: D\n\n        deep\n  shallow\nnone";
    assert_eq!(
        parse_log_output(text),
        Ok(LogOutput(vec![commit("abc", "A", "D", "    deep\n  shallow\nnone")]))
    );
}

#[test]
fn block_of_headers_only_has_an_empty_message() {
    assert_eq!(
        parse_log_output("commit abc\nAuthor: A\nDate: D"),
        Ok(LogOutput(vec![commit("abc", "A", "D", "")]))
    );
    assert_eq!(
        parse_log_output("commit abc\nAuthor: A\nDate: D\n\n"),
        Ok(LogOutput(vec![commit("abc", "A", "D", "")]))
    );
}

#[test]
fn commit_line_inside_a_message_is_indented_and_stays_there() {
    let text = "commit abc\nAuthor: A\nDate: D\n\n    commit def is reverted\n";
    assert_eq!(
        parse_log_output(text),
        Ok(LogOutput(vec![commit("abc", "A", "D", "commit def is reverted")]))
    );
}

#[test]
fn many_commits_keep_their_order() {
    let mut text = String::new();
    let mut expected = Vec::new();
    for i in 0..40 {
        let hash = format!("{i:040x}");
        if i > 0 {
            text.push('\n');
        }
        text.push_str(&format!("commit {hash}\nAuthor: dev {i}\nDate:   day {i}\n\n    change {i}\n"));
        expected.push(commit(&hash, &format!("dev {i}"), &format!("day {i}"), &format!("change {i}")));
    }
    assert_eq!(parse_log_output(&text), Ok(LogOutput(expected)));
}

#[test]
fn parsing_a_log_twice_gives_equal_reports() {
    assert_eq!(parse_log_output(LOG), parse_log_output(LOG));
}

use guit::command_parser::status::parse_status_line;
use guit::command_parser::{GuitParseError, Path, StatusPath, StatusTable};
use guit::lines::lines_of;
use guit::scan::chars_of;

fn chars(s: &str) -> Vec<char> {
    s.chars().collect()
}

#[test]
fn text_without_newline_is_one_line() {
    assert_eq!(lines_of(""), vec![chars("")]);
    assert_eq!(lines_of("abc"), vec![chars("abc")]);
}

#[test]
fn each_newline_ends_a_line() {
    assert_eq!(lines_of("a\nbc\n\nd"), vec![chars("a"), chars("bc"), chars(""), chars("d")]);
    assert_eq!(lines_of("a\n"), vec![chars("a"), chars("")]);
    assert_eq!(lines_of("\n"), vec![chars(""), chars("")]);
    assert_eq!(lines_of("\n\n"), vec![chars(""), chars(""), chars("")]);
}

#[test]
fn carriage_return_is_an_ordinary_character() {
    assert_eq!(lines_of("a\r\nb"), vec![chars("a\r"), chars("b")]);
}

#[test]
fn joining_the_lines_gives_the_text_back() {
    for text in ["", "\n", "a", "a\n", "\na", "un\ndeux\n\ntrois\n", "é\n→\n"] {
        let lines: Vec<String> = lines_of(text).iter().map(|l| l.iter().collect()).collect();
        assert_eq!(lines.join("\n"), text);
        assert_eq!(lines.len(), text.matches('\n').count() + 1);
    }
}

#[test]
fn chars_of_gives_the_characters_in_order() {
    assert_eq!(chars_of(""), Vec::<char>::new());
    assert_eq!(chars_of("a→é\n"), vec!['a', '→', 'é', '\n']);
}

#[test]
fn status_line_is_read_from_its_characters() {
    let expected = StatusPath {
        x: StatusTable::Added,
        y: StatusTable::Deleted,
        orig_path: None,
        path: Path("src/é.rs".to_owned()),
    };
    assert_eq!(parse_status_line(&chars("AD src/é.rs")), Ok(expected));
    assert_eq!(parse_status_line(&chars("")), Err(GuitParseError::MalformedStatusOutput));
    assert_eq!(parse_status_line(&chars("A")), Err(GuitParseError::MalformedStatusOutput));
    assert_eq!(parse_status_line(&chars("AD\tx")), Err(GuitParseError::MalformedStatusOutput));
    assert_eq!(parse_status_line(&chars("XD x")), Err(GuitParseError::UnknownStatusTable));
    assert_eq!(parse_status_line(&chars("A\n x")), Err(GuitParseError::UnknownStatusTable));
}

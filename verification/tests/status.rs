use guit::command_parser::{
    parse_status_output, GuitParseError, Path, StatusOutput, StatusPath, StatusTable,
};

const STATUS: &str = {
    r#" M compilateurs/projet_VS2017/ready.vcxproj
 M compilateurs/projet_VS2017/ready.vcxproj.filters
 M src/Ordonnanceur/TraitementNCTI.cpp
 M src/Ordonnanceur/TraitementNCTI.h
M  src/Sins/SinsService.cpp
M  src/Sins/SinsService.h"#
};

fn entry(x: StatusTable, y: StatusTable, orig_path: Option<&str>, path: &str) -> StatusPath {
    StatusPath {
        x,
        y,
        orig_path: orig_path.map(|p| Path(p.to_owned())),
        path: Path(path.to_owned()),
    }
}

#[test]
fn test_parse_status() {
    let expected = StatusOutput(
        vec![
            StatusPath { x: StatusTable::Unmodified, y: StatusTable::Modified, orig_path: None, path: Path("compilateurs/projet_VS2017/ready.vcxproj".to_owned()) },
            StatusPath { x: StatusTable::Unmodified, y: StatusTable::Modified, orig_path: None, path: Path("compilateurs/projet_VS2017/ready.vcxproj.filters".to_owned()) },
            StatusPath { x: StatusTable::Unmodified, y: StatusTable::Modified, orig_path: None, path: Path("src/Ordonnanceur/TraitementNCTI.cpp".to_owned()) },
            StatusPath { x: StatusTable::Unmodified, y: StatusTable::Modified, orig_path: None, path: Path("src/Ordonnanceur/TraitementNCTI.h".to_owned()) },

            StatusPath { x: StatusTable::Modified, y: StatusTable::Unmodified, orig_path: None, path: Path("src/Sins/SinsService.cpp".to_owned()) },
            StatusPath { x: StatusTable::Modified, y: StatusTable::Unmodified, orig_path: None, path: Path("src/Sins/SinsService.h".to_owned()) },
        ]
    );

    assert_eq!(parse_status_output(STATUS).unwrap(), expected);
}

#[test]
fn two_line_block() {
    let text = " M compilateurs/projet_VS2017/ready.vcxproj\nM  src/Sins/SinsService.cpp\n";
    let expected = StatusOutput(vec![
        entry(
            StatusTable::Unmodified,
            StatusTable::Modified,
            None,
            "compilateurs/projet_VS2017/ready.vcxproj",
        ),
        entry(StatusTable::Modified, StatusTable::Unmodified, None, "src/Sins/SinsService.cpp"),
    ]);
    assert_eq!(parse_status_output(text), Ok(expected));
}

#[test]
fn rename_line_has_both_paths() {
    let expected = StatusOutput(vec![entry(
        StatusTable::Renamed,
        StatusTable::Unmodified,
        Some("old/path.txt"),
        "new/path.txt",
    )]);
    assert_eq!(parse_status_output("R  old/path.txt -> new/path.txt"), Ok(expected));
}

#[test]
fn rename_mark_is_the_rightmost_one() {
    let expected = StatusOutput(vec![entry(
        StatusTable::Renamed,
        StatusTable::Modified,
        Some("a -> b"),
        "c",
    )]);
    assert_eq!(parse_status_output("RM a -> b -> c"), Ok(expected));

    let overlapping = StatusOutput(vec![entry(
        StatusTable::Renamed,
        StatusTable::Unmodified,
        Some("a ->"),
        "b",
    )]);
    assert_eq!(parse_status_output("R  a -> -> b"), Ok(overlapping));
}

#[test]
fn rename_from_an_empty_path_is_kept() {
    let expected = StatusOutput(vec![entry(
        StatusTable::Renamed,
        StatusTable::Unmodified,
        Some(""),
        "new",
    )]);
    assert_eq!(parse_status_output("R   -> new"), Ok(expected));
}

#[test]
fn untracked_marker_is_rejected() {
    assert_eq!(parse_status_output("?? newfile.txt"), Err(GuitParseError::UnknownStatusTable));
}

#[test]
fn other_real_world_codes_are_rejected() {
    assert_eq!(parse_status_output("C  copy.txt"), Err(GuitParseError::UnknownStatusTable));
    assert_eq!(parse_status_output("UU both.txt"), Err(GuitParseError::UnknownStatusTable));
    assert_eq!(parse_status_output("M? file.txt"), Err(GuitParseError::UnknownStatusTable));
    assert_eq!(parse_status_output("m  file.txt"), Err(GuitParseError::UnknownStatusTable));
}

#[test]
fn line_without_separating_space_is_malformed() {
    assert_eq!(parse_status_output("MMfile.txt"), Err(GuitParseError::MalformedStatusOutput));
    assert_eq!(parse_status_output("M file"), Err(GuitParseError::MalformedStatusOutput));
}

#[test]
fn shape_is_checked_before_the_status_characters() {
    assert_eq!(parse_status_output("garbage"), Err(GuitParseError::MalformedStatusOutput));
    assert_eq!(parse_status_output("??"), Err(GuitParseError::MalformedStatusOutput));
    assert_eq!(parse_status_output("?? a -> "), Err(GuitParseError::MalformedStatusOutput));
}

#[test]
fn truncated_line_is_malformed() {
    assert_eq!(parse_status_output("M"), Err(GuitParseError::MalformedStatusOutput));
    assert_eq!(parse_status_output(" M"), Err(GuitParseError::MalformedStatusOutput));
    assert_eq!(parse_status_output(" M "), Err(GuitParseError::MalformedStatusOutput));
    assert_eq!(parse_status_output("R  old -> "), Err(GuitParseError::MalformedStatusOutput));
}

#[test]
fn empty_text_gives_an_empty_report() {
    assert_eq!(parse_status_output(""), Ok(StatusOutput(vec![])));
    assert_eq!(parse_status_output("\n\n\n"), Ok(StatusOutput(vec![])));
}

#[test]
fn empty_lines_are_ignored() {
    let expected = StatusOutput(vec![
        entry(StatusTable::Added, StatusTable::Unmodified, None, "a"),
        entry(StatusTable::Unmodified, StatusTable::Deleted, None, "b"),
    ]);
    assert_eq!(parse_status_output("\nA  a\n\n\n D b\n\n"), Ok(expected));
}

#[test]
fn one_entry_per_line_in_order() {
    let mut text = String::new();
    let mut expected = Vec::new();
    for i in 0..50 {
        let path = format!("dir/file_{i}.rs");
        text.push_str("AM ");
        text.push_str(&path);
        text.push('\n');
        expected.push(entry(StatusTable::Added, StatusTable::Modified, None, &path));
    }
    let report = parse_status_output(&text).unwrap();
    assert_eq!(report.0.len(), 50);
    assert_eq!(report, StatusOutput(expected));
}

#[test]
fn first_failure_wins() {
    assert_eq!(
        parse_status_output("M  ok\nbad\n?? later"),
        Err(GuitParseError::MalformedStatusOutput)
    );
    assert_eq!(
        parse_status_output("M  ok\n?? first\nbad"),
        Err(GuitParseError::UnknownStatusTable)
    );
}

#[test]
fn paths_are_taken_verbatim() {
    let expected = StatusOutput(vec![entry(
        StatusTable::Modified,
        StatusTable::Unmodified,
        None,
        " \"dossier é\"/fichier->ñ.txt \r",
    )]);
    assert_eq!(parse_status_output("M   \"dossier é\"/fichier->ñ.txt \r\n"), Ok(expected));
}

#[test]
fn parsing_twice_gives_equal_reports() {
    assert_eq!(parse_status_output(STATUS), parse_status_output(STATUS));
    assert_eq!(parse_status_output("?? x"), parse_status_output("?? x"));
}

#[test]
fn status_code_round_trip() {
    for v in [
        StatusTable::Unmodified,
        StatusTable::Modified,
        StatusTable::Added,
        StatusTable::Deleted,
        StatusTable::Renamed,
    ] {
        assert_eq!(StatusTable::try_from(&v.to_string()), Ok(v));
    }
}

#[test]
fn status_code_characters() {
    assert_eq!(StatusTable::Unmodified.to_string(), " ");
    assert_eq!(StatusTable::Unknown.to_string(), "?");
    assert_eq!(StatusTable::Modified.to_string(), "M");
    assert_eq!(StatusTable::Added.to_string(), "A");
    assert_eq!(StatusTable::Deleted.to_string(), "D");
    assert_eq!(StatusTable::Renamed.to_string(), "R");
    assert_eq!(StatusTable::Renamed.to_char(), 'R');
    assert_eq!(StatusTable::from_char(' '), Ok(StatusTable::Unmodified));
    assert_eq!(StatusTable::from_char('x'), Err(GuitParseError::UnknownStatusTable));
}

#[test]
fn unknown_does_not_decode() {
    assert_eq!(
        StatusTable::try_from(&StatusTable::Unknown.to_string()),
        Err(GuitParseError::UnknownStatusTable)
    );
    assert_eq!(StatusTable::try_from("C"), Err(GuitParseError::UnknownStatusTable));
    assert_eq!(StatusTable::try_from("U"), Err(GuitParseError::UnknownStatusTable));
}

#[test]
fn decoding_wants_exactly_one_character() {
    assert_eq!(StatusTable::try_from(""), Err(GuitParseError::UnknownStatusTable));
    assert_eq!(StatusTable::try_from("MM"), Err(GuitParseError::UnknownStatusTable));
    assert_eq!(StatusTable::try_from(" M"), Err(GuitParseError::UnknownStatusTable));
    assert_eq!(StatusTable::try_from("é"), Err(GuitParseError::UnknownStatusTable));
}

#[test]
fn parse_error_messages() {
    assert_eq!(GuitParseError::UnknownStatusTable.to_string(), "Unknown status.");
    assert_eq!(GuitParseError::MalformedStatusOutput.to_string(), "Malformed status output.");
    assert_eq!(GuitParseError::MalformedLogBlock.to_string(), "Malformed log block.");
}

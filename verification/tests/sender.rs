use guit::command_sender::read_output;
use guit::GuitSendError;

#[test]
fn utf8_output_becomes_text() {
    let bytes = "commit abc\nAuthor: Zoé <zoe@example.org>\n".as_bytes().to_vec();
    assert_eq!(bytes.len(), 42);
    let text = read_output(Ok(bytes)).unwrap();
    assert_eq!(text, "commit abc\nAuthor: Zoé <zoe@example.org>\n");
    assert_eq!(text.chars().count(), 41);
}

#[test]
fn empty_output_is_empty_text() {
    assert_eq!(read_output(Ok(Vec::new())).unwrap(), "");
}

#[test]
fn output_that_is_not_utf8_is_refused() {
    let r = read_output(Ok(vec![b'o', b'k', 0xff, 0xfe]));
    assert!(matches!(r, Err(GuitSendError::ConvertToUtf8(_))));
    let truncated = read_output(Ok(vec![0xc3]));
    assert!(matches!(truncated, Err(GuitSendError::ConvertToUtf8(_))));
}

#[test]
fn command_that_did_not_run_is_reported() {
    let e = std::io::Error::new(std::io::ErrorKind::NotFound, "git: not found");
    match read_output(Err(e)) {
        Err(GuitSendError::CommandNotSent(e)) => {
            assert_eq!(e.kind(), std::io::ErrorKind::NotFound);
        }
        _ => panic!("expected CommandNotSent"),
    }
}

#[test]
fn send_error_messages() {
    let not_sent = read_output(Err(std::io::Error::from(std::io::ErrorKind::PermissionDenied)));
    assert_eq!(not_sent.unwrap_err().to_string(), "Can't send command.");
    let not_utf8 = read_output(Ok(vec![0x80]));
    assert_eq!(not_utf8.unwrap_err().to_string(), "Can't convert to UTF8.");
}

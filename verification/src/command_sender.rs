//! From what running a command left behind to the text it printed.

use vstd::prelude::*;
use vstd::utf8::{decode_utf8, valid_utf8};

verus! {

/// `std::io::Error`, carried through untouched.
#[verifier::external_type_specification]
#[verifier::external_body]
pub struct ExIoError(std::io::Error);

/// `std::string::FromUtf8Error`, carried through untouched.
#[verifier::external_type_specification]
#[verifier::external_body]
pub struct ExFromUtf8Error(std::string::FromUtf8Error);

/// `String::from_utf8` succeeds exactly on byte sequences that are valid
/// UTF-8, and the string it then returns holds the characters that these
/// bytes encode.
pub assume_specification[ String::from_utf8 ](vec: Vec<u8>) -> (r: Result<
    String,
    std::string::FromUtf8Error,
>)
    ensures
        match r {
            Ok(s) => valid_utf8(vec@) && s@ == decode_utf8(vec@),
            Err(_) => !valid_utf8(vec@),
        },
;

/// Why the output of a command could not be had.
#[derive(Debug)]
pub enum GuitSendError {
    /// The command could not be started, or did not run to its end.
    CommandNotSent(std::io::Error),
    /// What the command printed is not UTF-8.
    ConvertToUtf8(std::string::FromUtf8Error),
}

impl GuitSendError {
    /// The sentence shown to the user for this error.
    pub open spec fn message(self) -> Seq<char> {
        match self {
            GuitSendError::CommandNotSent(_) => "Can't send command."@,
            GuitSendError::ConvertToUtf8(_) => "Can't convert to UTF8."@,
        }
    }

    pub fn to_string(&self) -> (text: String)
        ensures
            text@ == self.message(),
    {
        match self {
            GuitSendError::CommandNotSent(_) => "Can't send command.".to_owned(),
            GuitSendError::ConvertToUtf8(_) => "Can't convert to UTF8.".to_owned(),
        }
    }
}

/// What `read_output` returns on `output`, as far as it can be said without
/// looking into an error of the standard library.
pub open spec fn output_text(output: Result<Vec<u8>, std::io::Error>, r: Result<
    String,
    GuitSendError,
>) -> bool {
    match output {
        Err(e) => r == Err::<String, GuitSendError>(GuitSendError::CommandNotSent(e)),
        Ok(bytes) => if valid_utf8(bytes@) {
            r matches Ok(text) && text@ == decode_utf8(bytes@)
        } else {
            r matches Err(GuitSendError::ConvertToUtf8(_))
        },
    }
}

/// The text that a command printed, given how running it ended: with the
/// bytes of its standard output, or with the error that kept it from
/// running. The bytes have to be UTF-8; the text holds the characters they
/// encode.
pub fn read_output(output: Result<Vec<u8>, std::io::Error>) -> (r: Result<String, GuitSendError>)
    ensures
        output_text(output, r),
{
    match output {
        Err(e) => Err(GuitSendError::CommandNotSent(e)),
        Ok(bytes) => match String::from_utf8(bytes) {
            Ok(text) => Ok(text),
            Err(e) => Err(GuitSendError::ConvertToUtf8(e)),
        },
    }
}

} // verus!

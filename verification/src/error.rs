//! The errors of the client.

use vstd::prelude::*;

verus! {

/// `std::io::Error`, carried through and never looked into.
#[verifier::external_type_specification]
#[verifier::external_body]
pub struct ExIoError(std::io::Error);

/// Why an operation of the client failed.
#[derive(Debug)]
pub enum NewcamdError {
    /// Reading from or writing to the server failed.
    Io(std::io::Error),
    /// The server, or a caller, broke the protocol.
    Protocol(&'static str),
    /// The server refused the user name or the password.
    AuthenticationFailed,
    /// A value given by the user cannot be used.
    InvalidData(String),
    /// A message could not be decrypted.
    Crypto(&'static str),
}

/// The outcome of an operation of the client.
pub type Result<T> = core::result::Result<T, NewcamdError>;

/// A `NewcamdError` with its texts as sequences of characters.
pub enum ErrorView {
    Io(std::io::Error),
    Protocol(Seq<char>),
    AuthenticationFailed,
    InvalidData(Seq<char>),
    Crypto(Seq<char>),
}

impl View for NewcamdError {
    type V = ErrorView;

    open spec fn view(&self) -> ErrorView {
        match *self {
            NewcamdError::Io(err) => ErrorView::Io(err),
            NewcamdError::Protocol(text) => ErrorView::Protocol(text@),
            NewcamdError::AuthenticationFailed => ErrorView::AuthenticationFailed,
            NewcamdError::InvalidData(text) => ErrorView::InvalidData(text@),
            NewcamdError::Crypto(text) => ErrorView::Crypto(text@),
        }
    }
}

/// Whether `r` is what `expected` says, errors and values taken by their views.
pub open spec fn agrees<T: View>(
    r: Result<T>,
    expected: core::result::Result<T::V, ErrorView>,
) -> bool {
    match (r, expected) {
        (Ok(value), Ok(expected)) => value@ == expected,
        (Err(err), Err(expected)) => err@ == expected,
        _ => false,
    }
}

impl From<std::io::Error> for NewcamdError {
    fn from(value: std::io::Error) -> (r: NewcamdError) {
        NewcamdError::Io(value)
    }
}

impl vstd::std_specs::convert::FromSpecImpl<std::io::Error> for NewcamdError {
    open spec fn obeys_from_spec() -> bool {
        true
    }

    open spec fn from_spec(value: std::io::Error) -> NewcamdError {
        NewcamdError::Io(value)
    }
}

/// The text of an I/O error, from its `Display`.
///
/// Trusted: `ToString::to_string` of `std::io::Error`. The text comes from
/// the operating system, so nothing is claimed of it.
#[verifier::external_body]
fn io_error_text(err: &std::io::Error) -> (text: String) {
    err.to_string()
}

/// What a user is shown for an error, given the text of the I/O error where it
/// holds one.
pub open spec fn error_message(err: ErrorView, io_text: Seq<char>) -> Seq<char> {
    match err {
        ErrorView::Io(_) => "I/O error: "@ + io_text,
        ErrorView::Protocol(text) => "Protocol error: "@ + text,
        ErrorView::AuthenticationFailed => "Authentication failed"@,
        ErrorView::InvalidData(text) => "Invalid data: "@ + text,
        ErrorView::Crypto(text) => "Crypto error: "@ + text,
    }
}

impl NewcamdError {
    /// What a user is shown for this error.
    pub fn message(&self) -> (r: String)
        ensures
            exists|io_text: Seq<char>| r@ == #[trigger] error_message(self@, io_text),
            self@ !is Io ==> forall|io_text: Seq<char>|
                r@ == #[trigger] error_message(self@, io_text),
    {
        let io_text = match self {
            NewcamdError::Io(err) => io_error_text(err),
            _ => String::new(),
        };
        self.message_with(io_text.as_str())
    }

    /// What a user is shown for this error, `io_text` being the text of the
    /// I/O error where it holds one.
    pub fn message_with(&self, io_text: &str) -> (r: String)
        ensures
            r@ == error_message(self@, io_text@),
    {
        match self {
            NewcamdError::Io(_) => "I/O error: ".to_string().concat(io_text),
            NewcamdError::Protocol(text) => "Protocol error: ".to_string().concat(text),
            NewcamdError::AuthenticationFailed => "Authentication failed".to_string(),
            NewcamdError::InvalidData(text) => "Invalid data: ".to_string().concat(text.as_str()),
            NewcamdError::Crypto(text) => "Crypto error: ".to_string().concat(text),
        }
    }
}

/// What is shown of an error says of what kind it is, and then all of its text.
pub proof fn law_error_message(text: Seq<char>, io_text: Seq<char>)
    ensures
        error_message(ErrorView::Protocol(text), io_text) == "Protocol error: "@ + text,
        error_message(ErrorView::InvalidData(text), io_text) == "Invalid data: "@ + text,
        error_message(ErrorView::Crypto(text), io_text) == "Crypto error: "@ + text,
        error_message(ErrorView::AuthenticationFailed, io_text) == "Authentication failed"@,
        forall|err: std::io::Error|
            #[trigger] error_message(ErrorView::Io(err), io_text) == "I/O error: "@ + io_text,
{
}

} // verus!

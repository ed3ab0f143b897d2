//! The ways in which a request fails, and the status each is answered with.

use crate::category::{media_name, Type};
use vstd::prelude::*;

verus! {

/// Why a request could not be answered.
#[derive(Debug, Clone, PartialEq, Eq)]
pub enum Error {
    /// A preview was asked of a file whose media type has none.
    InvalidType(Type),
    /// The conversion process started but offers no output to read.
    NoStdout,
    /// The path names neither a file nor a directory.
    NotFound,
    /// The directory could not be opened; the text says why.
    Unreadable(String),
    /// The conversion process could not be started; the text says why.
    Spawn(String),
    /// The conversion process ended with a failure status; what it had
    /// written is kept for diagnosis.
    Failed(Vec<u8>),
}

/// The mathematical value of an `Error`.
pub enum ErrorView {
    InvalidType(Type),
    NoStdout,
    NotFound,
    Unreadable(Seq<char>),
    Spawn(Seq<char>),
    Failed(Seq<u8>),
}

impl View for Error {
    type V = ErrorView;

    open spec fn view(&self) -> ErrorView {
        match self {
            Error::InvalidType(t) => ErrorView::InvalidType(*t),
            Error::NoStdout => ErrorView::NoStdout,
            Error::NotFound => ErrorView::NotFound,
            Error::Unreadable(why) => ErrorView::Unreadable(why@),
            Error::Spawn(why) => ErrorView::Spawn(why@),
            Error::Failed(output) => ErrorView::Failed(output@),
        }
    }
}

/// The HTTP status of an error: 400 for a request that cannot be met, 404
/// for a path that is not there, 500 for everything that went wrong on the
/// server's side.
pub open spec fn status_of(e: ErrorView) -> u16 {
    match e {
        ErrorView::InvalidType(_) => 400,
        ErrorView::NotFound => 404,
        _ => 500,
    }
}

/// What an error says of itself. Of a failed conversion it says no more than
/// that it failed: the captured output stays in the error.
pub open spec fn message_of(e: ErrorView) -> Seq<char> {
    match e {
        ErrorView::InvalidType(t) => "invalid type: "@ + media_name(t),
        ErrorView::NoStdout => "no stdout"@,
        ErrorView::NotFound => "not found"@,
        ErrorView::Unreadable(why) => why,
        ErrorView::Spawn(why) => why,
        ErrorView::Failed(_) => "conversion failed"@,
    }
}

impl Error {
    /// The HTTP status that answers a request which failed in this way.
    pub fn status(&self) -> (r: u16)
        ensures
            r == status_of(self@),
    {
        match self {
            Error::InvalidType(_) => 400,
            Error::NotFound => 404,
            _ => 500,
        }
    }

    /// The error in words.
    pub fn message(&self) -> (r: String)
        ensures
            r@ == message_of(self@),
    {
        match self {
            Error::InvalidType(t) => {
                let mut out = String::from_str("invalid type: ");
                out.append(t.name());
                out
            },
            Error::NoStdout => String::from_str("no stdout"),
            Error::NotFound => String::from_str("not found"),
            Error::Unreadable(why) => why.clone(),
            Error::Spawn(why) => why.clone(),
            Error::Failed(_) => String::from_str("conversion failed"),
        }
    }
}

} // verus!

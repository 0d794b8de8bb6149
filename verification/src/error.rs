//! The library's error type.

use vstd::prelude::*;

verus! {

/// Why an operation failed.
#[derive(Debug)]
pub enum Error {
    /// A failure that the tool itself detected, described for the user.
    Msg(String),
    /// A failed system call, by its `errno`.
    Os(i32),
}

/// What an [`Error`] says, with its text as a sequence of characters.
pub enum ErrorView {
    Msg(Seq<char>),
    Os(i32),
}

impl View for Error {
    type V = ErrorView;

    open spec fn view(&self) -> ErrorView {
        match self {
            Error::Msg(text) => ErrorView::Msg(text@),
            Error::Os(errno) => ErrorView::Os(*errno),
        }
    }
}

/// A result whose error is taken by its view.
pub open spec fn outcome<T>(r: Result<T, Error>) -> Result<T, ErrorView> {
    match r {
        Ok(value) => Ok(value),
        Err(e) => Err(e@),
    }
}

/// An error that carries the given text.
pub fn msg(text: &str) -> (e: Error)
    ensures
        e@ == ErrorView::Msg(text@),
{
    Error::Msg(text.to_owned())
}

} // verus!

use vstd::prelude::*;

verus! {

/// The category of an [`Error`], mirroring the `std::io::ErrorKind` that the
/// error is reported with.
#[derive(Debug, Clone, Copy, PartialEq, Eq, Structural)]
pub enum ErrorKind {
    /// A failure with a descriptive message.
    Other,
    /// The input ended before a field that it announces.
    UnexpectedEof,
}

/// An error of the protocol and of the HTTP scanner: a kind and a message.
#[derive(Debug)]
pub struct Error {
    pub kind: ErrorKind,
    pub message: String,
}

/// The abstract value of an [`Error`].
pub struct ErrorView {
    pub kind: ErrorKind,
    pub message: Seq<char>,
}

impl View for Error {
    type V = ErrorView;

    open spec fn view(&self) -> ErrorView {
        ErrorView { kind: self.kind, message: self.message@ }
    }
}

/// The abstract value of an error of kind `Other` with the given message.
pub open spec fn other_error(message: Seq<char>) -> ErrorView {
    ErrorView { kind: ErrorKind::Other, message }
}

/// Builds an error of kind `Other` with the given message.
pub fn error(err_msg: &str) -> (e: Error)
    ensures
        e@ == other_error(err_msg@),
{
    Error { kind: ErrorKind::Other, message: err_msg.to_owned() }
}

} // verus!

//! The error that every operation of the store reports.

use vstd::prelude::*;

verus! {

/// The kinds of failure that the store tells apart or hands through.
#[derive(Clone, Copy, Debug, PartialEq, Eq, Structural)]
pub enum ErrorKind {
    NotFound,
    PermissionDenied,
    ConnectionRefused,
    ConnectionReset,
    ConnectionAborted,
    NotConnected,
    AddrInUse,
    AddrNotAvailable,
    BrokenPipe,
    AlreadyExists,
    WouldBlock,
    InvalidInput,
    InvalidData,
    TimedOut,
    WriteZero,
    Interrupted,
    UnexpectedEof,
    Other,
}

/// A failure: its kind, and a message where there is one.
#[derive(Debug)]
pub struct StoreError {
    pub kind: ErrorKind,
    pub message: Option<String>,
}

/// What a [`StoreError`] says.
pub struct ErrorView {
    pub kind: ErrorKind,
    pub message: Option<Seq<char>>,
}

impl View for StoreError {
    type V = ErrorView;

    open spec fn view(&self) -> ErrorView {
        ErrorView {
            kind: self.kind,
            message: match self.message {
                Some(text) => Some(text@),
                None => None,
            },
        }
    }
}

impl StoreError {
    /// An error of the given kind that carries `message`.
    pub fn new(kind: ErrorKind, message: String) -> (error: StoreError)
        ensures
            error@ == (ErrorView { kind, message: Some(message@) }),
    {
        StoreError { kind, message: Some(message) }
    }
}

} // verus!

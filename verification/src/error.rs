//! Errors that the stack reports.

use vstd::prelude::*;

verus! {

/// The kind of a failure.
#[derive(Debug, Clone, Copy, PartialEq, Eq, PartialOrd, Ord, Structural)]
pub enum ErrorKind {
    /// The peer answered with RST.
    ConnectionReset,
    /// No connection is open on the port.
    NotConnected,
    /// The peer stayed silent for too long.
    TimedOut,
    /// The peer, or the transport, closed its side.
    UnexpectedEof,
    /// Bytes that do not form a packet.
    InvalidData,
    /// The other end of a channel is gone.
    BrokenPipe,
    /// The background task of the stack is gone.
    NetworkUnreachable,
}

/// A failure: its kind, and a message for people.
#[derive(Debug, Clone, Copy)]
pub struct Error {
    pub kind: ErrorKind,
    pub message: &'static str,
}

impl Error {
    /// Whether the error is of this kind and carries this message.
    pub open spec fn is(self, kind: ErrorKind, message: Seq<char>) -> bool {
        self.kind == kind && self.message@ == message
    }

    /// An error of the given kind with the given message.
    pub fn new(kind: ErrorKind, message: &'static str) -> (error: Error)
        ensures
            error.is(kind, message@),
    {
        Error { kind, message }
    }
}

} // verus!

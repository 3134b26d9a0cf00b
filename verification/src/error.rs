//! Error classification shared by the tracker's subsystems.

use vstd::prelude::*;

verus! {

/// The class of an I/O failure, as far as the tracker's logic reads it.
#[derive(Clone, Copy, Debug, PartialEq, Eq, Structural)]
pub enum IoKind {
    /// The peer closed the stream: a normal end of a connection.
    UnexpectedEof,
    /// Any other transport failure.
    Other,
}

/// Everything that can go wrong in the tracker, by kind. Failures carrying
/// an outside payload in the running process (transport, node RPC, decode)
/// are reduced to their classification before they reach this logic.
#[derive(Clone, Debug)]
pub enum TrackerError {
    /// The directory store's mailbox loop ended.
    DbManagerExited,
    /// The protocol server failed as a whole (listener bind, accept).
    ServerError,
    /// A node-RPC failure aborted an indexer cycle.
    MempoolIndexerError,
    /// The process is shutting down.
    Shutdown,
    /// A frame or message failed to decode.
    ParsingError,
    /// A mailbox send failed: the peer mailbox is closed.
    SendError,
    /// A transport failure, by class.
    IOError(IoKind),
    /// A node-RPC failure, with the node's message.
    RPCError(String),
    /// A structured-encoding failure, with the codec's message.
    SerdeCbor(String),
    /// A catch-all internal failure.
    General(String),
}

impl TrackerError {
    /// The I/O class of this error, when it is a transport failure.
    pub fn io_error_kind(&self) -> (r: Option<IoKind>)
        ensures
            r is Some <==> *self is IOError,
            r matches Some(k) ==> (*self matches TrackerError::IOError(k2) && k == k2),
    {
        match self {
            TrackerError::IOError(e) => Some(*e),
            _ => None,
        }
    }

    /// A fixed label for this error's kind.
    pub fn kind(&self) -> (r: &'static str)
        ensures
            r@ == spec_kind(*self),
    {
        match self {
            TrackerError::DbManagerExited => "DbManagerExited",
            TrackerError::ServerError => "ServerError",
            TrackerError::MempoolIndexerError => "MempoolIndexerError",
            TrackerError::Shutdown => "Shutdown",
            TrackerError::ParsingError => "ParsingError",
            TrackerError::SendError => "SendError",
            TrackerError::IOError(_) => "IOError",
            TrackerError::RPCError(_) => "RPCError",
            TrackerError::SerdeCbor(_) => "SerdeCbor",
            TrackerError::General(_) => "General",
        }
    }
}

/// The label `kind` returns for each error.
pub open spec fn spec_kind(e: TrackerError) -> Seq<char> {
    match e {
        TrackerError::DbManagerExited => "DbManagerExited"@,
        TrackerError::ServerError => "ServerError"@,
        TrackerError::MempoolIndexerError => "MempoolIndexerError"@,
        TrackerError::Shutdown => "Shutdown"@,
        TrackerError::ParsingError => "ParsingError"@,
        TrackerError::SendError => "SendError"@,
        TrackerError::IOError(_) => "IOError"@,
        TrackerError::RPCError(_) => "RPCError"@,
        TrackerError::SerdeCbor(_) => "SerdeCbor"@,
        TrackerError::General(_) => "General"@,
    }
}

} // verus!

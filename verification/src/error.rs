//! The failures that the pipeline tells apart.

use vstd::prelude::*;

verus! {

/// What a failure means for the task that met it.
#[derive(Debug, Clone, Copy, PartialEq, Eq, Structural)]
pub enum ErrorKind {
    /// The peer broke the wire protocol: the byte offset can no longer be
    /// trusted and the extractor has to start over with a new handshake.
    Protocol,
    /// The destination refused a write or a delete: handled where it
    /// happens, by applying the records one at a time.
    Destination,
    /// The configuration asks for something that cannot be done: the
    /// feature it configures is switched off.
    Config,
    /// The connection or the pool is gone: the stage stops and its
    /// caller restarts the task.
    Connectivity,
}

/// A failure of the pipeline.
#[derive(Debug, Clone, Copy, PartialEq, Eq, Structural)]
pub enum Error {
    /// The stream held a value that is not an array of byte strings.
    UnexpectedAofValue,
    /// A `SELECT` command without a database index that can be read.
    MalformedSelect,
    /// The reply to a handshake command was not the one that the
    /// protocol asks for.
    UnexpectedHandshakeReply,
    /// The reply to `PSYNC` names no run identifier.
    MissingRunId,
    /// The reply to `PSYNC` names no offset that can be read.
    MalformedOffset,
    /// A wire value that is cut short or breaks the grammar.
    MalformedValue,
    /// The stream is longer than the replication offset can count.
    OffsetOverflow,
    /// A transaction ends that never began.
    CommitWithoutBegin,
    /// A row change that lacks the row image that its kind calls for.
    MissingRowImage,
    /// An entry of a kind that cannot be written as commands.
    RewriteNotImplemented,
    /// The destination refused an operation.
    DestinationRejected,
    /// The metadata of a table is needed and not fetched yet.
    TableMetaMissing,
    /// The connection to the peer, or its pool, is closed.
    ConnectionClosed,
}

impl Error {
    /// The class of the failure.
    pub open spec fn spec_kind(self) -> ErrorKind {
        match self {
            Error::UnexpectedAofValue => ErrorKind::Protocol,
            Error::MalformedSelect => ErrorKind::Protocol,
            Error::UnexpectedHandshakeReply => ErrorKind::Protocol,
            Error::MissingRunId => ErrorKind::Protocol,
            Error::MalformedOffset => ErrorKind::Protocol,
            Error::MalformedValue => ErrorKind::Protocol,
            Error::OffsetOverflow => ErrorKind::Protocol,
            Error::CommitWithoutBegin => ErrorKind::Protocol,
            Error::MissingRowImage => ErrorKind::Protocol,
            Error::RewriteNotImplemented => ErrorKind::Destination,
            Error::DestinationRejected => ErrorKind::Destination,
            Error::TableMetaMissing => ErrorKind::Config,
            Error::ConnectionClosed => ErrorKind::Connectivity,
        }
    }

    /// The class of the failure.
    pub fn kind(&self) -> (k: ErrorKind)
        ensures
            k == self.spec_kind(),
    {
        match self {
            Error::UnexpectedAofValue => ErrorKind::Protocol,
            Error::MalformedSelect => ErrorKind::Protocol,
            Error::UnexpectedHandshakeReply => ErrorKind::Protocol,
            Error::MissingRunId => ErrorKind::Protocol,
            Error::MalformedOffset => ErrorKind::Protocol,
            Error::MalformedValue => ErrorKind::Protocol,
            Error::OffsetOverflow => ErrorKind::Protocol,
            Error::CommitWithoutBegin => ErrorKind::Protocol,
            Error::MissingRowImage => ErrorKind::Protocol,
            Error::RewriteNotImplemented => ErrorKind::Destination,
            Error::DestinationRejected => ErrorKind::Destination,
            Error::TableMetaMissing => ErrorKind::Config,
            Error::ConnectionClosed => ErrorKind::Connectivity,
        }
    }

    /// Whether the failure ends the task that met it: protocol and
    /// connectivity failures do, the others are handled in place.
    pub fn is_fatal(&self) -> (fatal: bool)
        ensures
            fatal == (self.spec_kind() == ErrorKind::Protocol || self.spec_kind()
                == ErrorKind::Connectivity),
    {
        let k = self.kind();
        k == ErrorKind::Protocol || k == ErrorKind::Connectivity
    }

    /// A sentence for the log.
    pub open spec fn spec_message(self) -> Seq<char> {
        match self {
            Error::UnexpectedAofValue => "received unexpected aof value"@,
            Error::MalformedSelect => "select command without a readable database index"@,
            Error::UnexpectedHandshakeReply => "unexpected reply during the replication handshake"@,
            Error::MissingRunId => "psync reply names no run id"@,
            Error::MalformedOffset => "psync reply names no readable offset"@,
            Error::MalformedValue => "malformed value on the wire"@,
            Error::OffsetOverflow => "replication offset out of range"@,
            Error::CommitWithoutBegin => "commit without a begin before it"@,
            Error::MissingRowImage => "row change without the row image of its kind"@,
            Error::RewriteNotImplemented => "rewrite not implemented"@,
            Error::DestinationRejected => "the destination rejected the operation"@,
            Error::TableMetaMissing => "table metadata not fetched"@,
            Error::ConnectionClosed => "connection closed"@,
        }
    }

    /// A sentence for the log.
    pub fn message(&self) -> (text: &'static str)
        ensures
            text@ == self.spec_message(),
    {
        match self {
            Error::UnexpectedAofValue => "received unexpected aof value",
            Error::MalformedSelect => "select command without a readable database index",
            Error::UnexpectedHandshakeReply => "unexpected reply during the replication handshake",
            Error::MissingRunId => "psync reply names no run id",
            Error::MalformedOffset => "psync reply names no readable offset",
            Error::MalformedValue => "malformed value on the wire",
            Error::OffsetOverflow => "replication offset out of range",
            Error::CommitWithoutBegin => "commit without a begin before it",
            Error::MissingRowImage => "row change without the row image of its kind",
            Error::RewriteNotImplemented => "rewrite not implemented",
            Error::DestinationRejected => "the destination rejected the operation",
            Error::TableMetaMissing => "table metadata not fetched",
            Error::ConnectionClosed => "connection closed",
        }
    }
}

} // verus!

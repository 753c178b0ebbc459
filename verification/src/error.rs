//! The errors of the proxy, their kinds, and how far each kind travels.

use vstd::prelude::*;

verus! {

/// An error that ends the proxy, or keeps it from starting.
#[derive(Debug, PartialEq, Eq)]
pub enum SlyError {
    /// A listener could not bind its port, or could not accept.
    IoError(String),
    /// A task ended abnormally.
    JoinError(String),
    /// The intake channel was closed under a sender.
    SendError(String),
    /// The configuration cannot be used.
    Config(String),
    /// No backend is configured.
    RegistryEmpty,
    /// Anything else.
    Generic(String),
}

/// The kinds of error that the proxy tells apart.
#[derive(Clone, Copy, Debug, PartialEq, Eq, Structural)]
pub enum ErrorKind {
    /// A listener cannot bind a configured port.
    Bind,
    /// The configuration cannot be used.
    Config,
    /// No backend is configured.
    RegistryEmpty,
    /// An outbound connect failed.
    Connect,
    /// Reading or writing failed after the copying had begun.
    RelayIo,
    /// The sender of the intake channel is gone.
    ChannelClosed,
    /// A discovery poll failed, or its answer could not be read.
    Discovery,
    /// A task ended abnormally.
    TaskJoin,
}

/// How far an error travels.
#[derive(Clone, Copy, Debug, PartialEq, Eq, Structural)]
pub enum Propagation {
    /// The error ends the one connection it belongs to: it is logged, the
    /// connection is dropped, and nothing else is told.
    Contain,
    /// The error is logged and dropped; the work is tried again at its next
    /// turn.
    Suppress,
    /// The error is no failure: the proxy takes in no more connections,
    /// serves those it has, and ends.
    Drain,
    /// The error stops the process.
    Halt,
}

/// The rule that says how far each kind of error travels.
pub open spec fn propagation_of(kind: ErrorKind) -> Propagation {
    match kind {
        ErrorKind::Bind => Propagation::Halt,
        ErrorKind::Config => Propagation::Halt,
        ErrorKind::RegistryEmpty => Propagation::Halt,
        ErrorKind::TaskJoin => Propagation::Halt,
        ErrorKind::Connect => Propagation::Contain,
        ErrorKind::RelayIo => Propagation::Contain,
        ErrorKind::Discovery => Propagation::Suppress,
        ErrorKind::ChannelClosed => Propagation::Drain,
    }
}

impl ErrorKind {
    /// Whether an error of this kind stops the process.
    pub open spec fn is_fatal_kind(self) -> bool {
        propagation_of(self) is Halt
    }

    pub fn propagation(self) -> (how: Propagation)
        ensures
            how == propagation_of(self),
    {
        match self {
            ErrorKind::Bind => Propagation::Halt,
            ErrorKind::Config => Propagation::Halt,
            ErrorKind::RegistryEmpty => Propagation::Halt,
            ErrorKind::TaskJoin => Propagation::Halt,
            ErrorKind::Connect => Propagation::Contain,
            ErrorKind::RelayIo => Propagation::Contain,
            ErrorKind::Discovery => Propagation::Suppress,
            ErrorKind::ChannelClosed => Propagation::Drain,
        }
    }

    /// Whether an error of this kind stops the process.
    pub fn is_fatal(self) -> (yes: bool)
        ensures
            yes == self.is_fatal_kind(),
            yes == (self is Bind || self is Config || self is RegistryEmpty || self is TaskJoin),
    {
        match self.propagation() {
            Propagation::Halt => true,
            _ => false,
        }
    }
}

impl SlyError {
    /// The kind of the error.
    pub open spec fn kind_of(self) -> ErrorKind {
        match self {
            SlyError::IoError(_) => ErrorKind::Bind,
            SlyError::JoinError(_) => ErrorKind::TaskJoin,
            SlyError::SendError(_) => ErrorKind::ChannelClosed,
            SlyError::Config(_) => ErrorKind::Config,
            SlyError::RegistryEmpty => ErrorKind::RegistryEmpty,
            SlyError::Generic(_) => ErrorKind::TaskJoin,
        }
    }

    pub fn kind(&self) -> (kind: ErrorKind)
        ensures
            kind == self.kind_of(),
    {
        match self {
            SlyError::IoError(_) => ErrorKind::Bind,
            SlyError::JoinError(_) => ErrorKind::TaskJoin,
            SlyError::SendError(_) => ErrorKind::ChannelClosed,
            SlyError::Config(_) => ErrorKind::Config,
            SlyError::RegistryEmpty => ErrorKind::RegistryEmpty,
            SlyError::Generic(_) => ErrorKind::TaskJoin,
        }
    }

    /// The text of the error.
    pub open spec fn text(self) -> Seq<char> {
        match self {
            SlyError::IoError(cause) => "Unexpected I/O error: "@ + cause@,
            SlyError::JoinError(cause) => "Error while joining: "@ + cause@,
            SlyError::SendError(cause) => "Channel closed unexpectedly: "@ + cause@,
            SlyError::Config(cause) => "Configuration error: "@ + cause@,
            SlyError::RegistryEmpty => "Services list can't be 0"@,
            SlyError::Generic(cause) => "Error encountered: "@ + cause@,
        }
    }

    pub fn message(&self) -> (text: String)
        ensures
            text@ == self.text(),
    {
        match self {
            SlyError::IoError(cause) => prefixed("Unexpected I/O error: ", cause),
            SlyError::JoinError(cause) => prefixed("Error while joining: ", cause),
            SlyError::SendError(cause) => prefixed("Channel closed unexpectedly: ", cause),
            SlyError::Config(cause) => prefixed("Configuration error: ", cause),
            SlyError::RegistryEmpty => String::from_str("Services list can't be 0"),
            SlyError::Generic(cause) => prefixed("Error encountered: ", cause),
        }
    }

    /// The error of a task that could not be joined.
    pub fn join_failure(cause: &String) -> (error: SlyError)
        ensures
            error matches SlyError::Generic(text) && text@ == "Unable to join threads: "@
                + cause@,
    {
        SlyError::Generic(prefixed("Unable to join threads: ", cause))
    }
}

/// The kind of an error of a relay: a failure before the copying began is a
/// failed connect, one after it a failure of the relay.
pub fn relay_error_kind(relaying: bool) -> (kind: ErrorKind)
    ensures
        kind == (if relaying {
            ErrorKind::RelayIo
        } else {
            ErrorKind::Connect
        }),
        propagation_of(kind) is Contain,
{
    if relaying {
        ErrorKind::RelayIo
    } else {
        ErrorKind::Connect
    }
}

/// `head` followed by `tail`.
pub fn prefixed(head: &str, tail: &String) -> (text: String)
    ensures
        text@ == head@ + tail@,
{
    let mut text = String::from_str(head);
    text.append(tail.as_str());
    text
}

} // verus!

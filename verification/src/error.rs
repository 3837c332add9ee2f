use vstd::prelude::*;

verus! {

/// Everything that can go wrong in the protocol.
#[derive(Debug, PartialEq)]
pub enum BluefinError {
    /// Bytes could not be read as the requested wire type.
    DeserialiseError(String),
    /// A datagram is not a stream of packets.
    ReadError(&'static str),
    /// The writer could not take more data.
    WriteError(&'static str),
    /// A buffer has no room for what was handed to it.
    BufferFullError(String),
    /// There is nothing to read.
    BufferEmptyError,
    /// An operation is not allowed in the current state.
    InvalidState(String),
    /// A peer did not answer in time.
    TimedOut(&'static str),
    /// A packet number is outside of what the receiver expects.
    UnexpectedPacketNumberError,
    /// The connection is already registered.
    ConnectionAlreadyExists,
    /// The connection is not registered.
    NoSuchConnectionError,
    /// Nobody waits for the data that was buffered.
    NoSuchWakerError,
    /// The connection was closed locally.
    ConnectionClosed,
    /// Any other failure.
    Unexpected(String),
}

/// The result of a protocol operation.
pub type BluefinResult<T> = Result<T, BluefinError>;

/// The mathematical value of a [`BluefinError`]: its variant and its message.
pub ghost enum ErrorView {
    DeserialiseError(Seq<char>),
    ReadError(Seq<char>),
    WriteError(Seq<char>),
    BufferFullError(Seq<char>),
    BufferEmptyError,
    InvalidState(Seq<char>),
    TimedOut(Seq<char>),
    UnexpectedPacketNumberError,
    ConnectionAlreadyExists,
    NoSuchConnectionError,
    NoSuchWakerError,
    ConnectionClosed,
    Unexpected(Seq<char>),
}

impl View for BluefinError {
    type V = ErrorView;

    open spec fn view(&self) -> ErrorView {
        match *self {
            BluefinError::DeserialiseError(s) => ErrorView::DeserialiseError(s@),
            BluefinError::ReadError(s) => ErrorView::ReadError(s@),
            BluefinError::WriteError(s) => ErrorView::WriteError(s@),
            BluefinError::BufferFullError(s) => ErrorView::BufferFullError(s@),
            BluefinError::BufferEmptyError => ErrorView::BufferEmptyError,
            BluefinError::InvalidState(s) => ErrorView::InvalidState(s@),
            BluefinError::TimedOut(s) => ErrorView::TimedOut(s@),
            BluefinError::UnexpectedPacketNumberError => ErrorView::UnexpectedPacketNumberError,
            BluefinError::ConnectionAlreadyExists => ErrorView::ConnectionAlreadyExists,
            BluefinError::NoSuchConnectionError => ErrorView::NoSuchConnectionError,
            BluefinError::NoSuchWakerError => ErrorView::NoSuchWakerError,
            BluefinError::ConnectionClosed => ErrorView::ConnectionClosed,
            BluefinError::Unexpected(s) => ErrorView::Unexpected(s@),
        }
    }
}

/// `r` fails, and its error has the value `e`.
pub open spec fn fails_with<T>(r: BluefinResult<T>, e: ErrorView) -> bool {
    r matches Err(err) && err@ == e
}

} // verus!

//! What can go wrong with a socket.
use vstd::prelude::*;

use crate::error::{BluefinError, ErrorView};

verus! {

/// The result of an operation on a socket.
pub type BluefinIoResult<T> = Result<T, BluefinIoError>;

/// Everything that can go wrong with a socket.
#[derive(Debug, PartialEq)]
pub enum BluefinIoError {
    /// The operating system refused a call.
    StdIoError(String),
    /// A buffer has no room for what was to be put into it.
    InsufficientBufferSize(String),
    /// Something that the socket cannot do.
    Unsupported(String),
}

/// The mathematical value of a [`BluefinIoError`].
pub ghost enum IoErrorView {
    StdIoError(Seq<char>),
    InsufficientBufferSize(Seq<char>),
    Unsupported(Seq<char>),
}

impl IoErrorView {
    /// The error as it is told to a user.
    pub open spec fn message(self) -> Seq<char> {
        match self {
            IoErrorView::StdIoError(text) => "std::io::Error: `"@ + text + "`"@,
            IoErrorView::InsufficientBufferSize(text) => "`"@ + text + "`"@,
            IoErrorView::Unsupported(text) => "`"@ + text + "`"@,
        }
    }
}

impl View for BluefinIoError {
    type V = IoErrorView;

    open spec fn view(&self) -> IoErrorView {
        match *self {
            BluefinIoError::StdIoError(text) => IoErrorView::StdIoError(text@),
            BluefinIoError::InsufficientBufferSize(text) => IoErrorView::InsufficientBufferSize(
                text@,
            ),
            BluefinIoError::Unsupported(text) => IoErrorView::Unsupported(text@),
        }
    }
}

impl BluefinIoError {
    /// The error as it is told to a user.
    pub fn message(&self) -> (message: String)
        ensures
            message@ == self@.message(),
    {
        broadcast use vstd::string::group_string_axioms;

        let mut message: String = String::new();
        match self {
            BluefinIoError::StdIoError(text) => {
                message.append("std::io::Error: `");
                message.append(text.as_str());
                message.append("`");
                assert(message@ =~= "std::io::Error: `"@ + text@ + "`"@);
            },
            BluefinIoError::InsufficientBufferSize(text) => {
                message.append("`");
                message.append(text.as_str());
                message.append("`");
                assert(message@ =~= "`"@ + text@ + "`"@);
            },
            BluefinIoError::Unsupported(text) => {
                message.append("`");
                message.append(text.as_str());
                message.append("`");
                assert(message@ =~= "`"@ + text@ + "`"@);
            },
        }
        message
    }

    /// The error of a connection whose socket failed.
    pub fn into_connection_error(self) -> (error: BluefinError)
        ensures
            error@ == ErrorView::Unexpected(self@.message()),
    {
        BluefinError::Unexpected(self.message())
    }
}

/// What went wrong can be read from the message of every error: it stands there between
/// two quotes, and the second is the end of the message.
pub proof fn law_message_tells_what_went_wrong(text: Seq<char>)
    ensures
        IoErrorView::StdIoError(text).message().subrange(17, 17 + text.len() as int) == text,
        IoErrorView::StdIoError(text).message().len() == text.len() + 18,
        IoErrorView::InsufficientBufferSize(text).message().subrange(1, 1 + text.len() as int)
            == text,
        IoErrorView::InsufficientBufferSize(text).message().len() == text.len() + 2,
        IoErrorView::Unsupported(text).message() == IoErrorView::InsufficientBufferSize(
            text,
        ).message(),
{
    reveal_strlit("std::io::Error: `");
    reveal_strlit("`");
    assert(IoErrorView::StdIoError(text).message().subrange(17, 17 + text.len() as int) =~= text);
    assert(IoErrorView::InsufficientBufferSize(text).message().subrange(
        1,
        1 + text.len() as int,
    ) =~= text);
}

} // verus!

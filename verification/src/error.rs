//! What can go wrong in talking to the server.

use crate::frame::FramingError;
use crate::wire::{copy_bytes, copy_words, words_view};
use vstd::prelude::*;

verus! {

/// A failure of a query, of decoding, or of the connection.
#[derive(Debug, Clone, PartialEq, Eq)]
pub enum RconError {
    /// The byte stream is not a sequence of frames. The connection cannot go on.
    Framing(FramingError),
    /// The connection is closed, or closed before the answer came.
    ConnectionClosed,
    /// The server does not know the command.
    UnknownCommand { our_query: Vec<Vec<u8>> },
    /// The server knows the command and rejects its arguments.
    InvalidArguments { our_query: Vec<Vec<u8>> },
    /// A value does not have the shape that the protocol gives it; the message, where
    /// there is one, names the offending text.
    ProtocolViolation(Option<Vec<u8>>),
    /// Text that must be seven-bit is not.
    NotAscii,
    /// Any other error that the server reports, in the server's words.
    Other(Vec<u8>),
}

/// An error as a mathematical value.
pub enum RconErrorView {
    Framing(FramingError),
    ConnectionClosed,
    UnknownCommand { our_query: Seq<Seq<u8>> },
    InvalidArguments { our_query: Seq<Seq<u8>> },
    ProtocolViolation(Option<Seq<u8>>),
    NotAscii,
    Other(Seq<u8>),
}

impl View for RconError {
    type V = RconErrorView;

    open spec fn view(&self) -> RconErrorView {
        match *self {
            RconError::Framing(e) => RconErrorView::Framing(e),
            RconError::ConnectionClosed => RconErrorView::ConnectionClosed,
            RconError::UnknownCommand { our_query } => RconErrorView::UnknownCommand {
                our_query: words_view(our_query@),
            },
            RconError::InvalidArguments { our_query } => RconErrorView::InvalidArguments {
                our_query: words_view(our_query@),
            },
            RconError::ProtocolViolation(None) => RconErrorView::ProtocolViolation(None),
            RconError::ProtocolViolation(Some(message)) => RconErrorView::ProtocolViolation(
                Some(message@),
            ),
            RconError::NotAscii => RconErrorView::NotAscii,
            RconError::Other(text) => RconErrorView::Other(text@),
        }
    }
}

impl RconError {
    /// An error in the server's own words.
    pub fn other(text: Vec<u8>) -> (e: RconError)
        ensures
            e@ == RconErrorView::Other(text@),
    {
        RconError::Other(text)
    }

    /// A protocol violation without a message.
    pub fn protocol() -> (e: RconError)
        ensures
            e@ == RconErrorView::ProtocolViolation(None),
    {
        RconError::ProtocolViolation(None)
    }

    /// A protocol violation with a message.
    pub fn protocol_msg(message: Vec<u8>) -> (e: RconError)
        ensures
            e@ == RconErrorView::ProtocolViolation(Some(message@)),
    {
        RconError::ProtocolViolation(Some(message))
    }

    /// A copy of the error.
    pub fn duplicate(&self) -> (copy: RconError)
        ensures
            copy@ == self@,
    {
        match self {
            RconError::Framing(e) => RconError::Framing(*e),
            RconError::ConnectionClosed => RconError::ConnectionClosed,
            RconError::UnknownCommand { our_query } => RconError::UnknownCommand {
                our_query: copy_words(our_query.as_slice()),
            },
            RconError::InvalidArguments { our_query } => RconError::InvalidArguments {
                our_query: copy_words(our_query.as_slice()),
            },
            RconError::ProtocolViolation(None) => RconError::ProtocolViolation(None),
            RconError::ProtocolViolation(Some(message)) => RconError::ProtocolViolation(
                Some(copy_bytes(message.as_slice())),
            ),
            RconError::NotAscii => RconError::NotAscii,
            RconError::Other(text) => RconError::Other(copy_bytes(text.as_slice())),
        }
    }
}

} // verus!

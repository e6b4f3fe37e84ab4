//! What an interactive console computes around a query: the words of a line that
//! was typed, and the text that shows the answer.

use crate::error::{RconError, RconErrorView};
use crate::frame::FramingError;
use crate::query::outcome_view;
use crate::text::{
    borrow_string, is_seven_bit_text, split_at_spaces, split_on, str_to_bytes, string_from_text,
    SPACE,
};
use crate::wire::{ascii_text, copy_bytes, push_bytes, words_view};
use vstd::prelude::*;

verus! {

/// The words of a line: the parts between its spaces. A line with a character
/// outside the seven-bit range has no words.
pub open spec fn words_of_line(line: Seq<char>) -> Result<Seq<Seq<u8>>, RconErrorView> {
    if is_seven_bit_text(line) {
        Ok(split_on(ascii_text(line), SPACE))
    } else {
        Err(RconErrorView::NotAscii)
    }
}

/// The words of a list of texts, each text one word. A text with a character outside
/// the seven-bit range makes the list unusable.
pub open spec fn words_of_texts(texts: Seq<String>) -> Result<Seq<Seq<u8>>, RconErrorView> {
    if forall|i: int| 0 <= i < texts.len() ==> is_seven_bit_text(#[trigger] texts[i]@) {
        Ok(Seq::new(texts.len(), |i: int| ascii_text(texts[i]@)))
    } else {
        Err(RconErrorView::NotAscii)
    }
}

/// The words after `OK` as they are shown: each with a space in front of it.
pub open spec fn shown_words(words: Seq<Seq<u8>>) -> Seq<u8>
    decreases words.len(),
{
    if words.len() == 0 {
        Seq::empty()
    } else {
        shown_words(words.drop_last()) + seq![SPACE] + words.last()
    }
}

/// How the outcome of a query is shown. Every outcome is shown: there is no error
/// that a console cannot print.
#[derive(Debug, Clone, PartialEq, Eq)]
pub enum Shown {
    /// `OK`, followed by this text.
    Success { text: Vec<u8> },
    /// `Error`, followed by a space and the server's message.
    Message { text: Vec<u8> },
    /// An error that is shown by its kind alone.
    Kind { label: ErrorKind },
    /// An error that is shown by its kind, followed by a space and what the error
    /// says of itself.
    Detail { label: ErrorKind, text: Vec<u8> },
}

/// The kinds of error that are shown by a label.
#[derive(Debug, Clone, Copy, PartialEq, Eq, Structural)]
pub enum ErrorKind {
    ConnectionClosed,
    InvalidArguments,
    UnknownCommand,
    ProtocolViolation,
    NotAscii,
    Framing(FramingError),
}

/// How an outcome is shown, as a mathematical value.
pub enum ShownView {
    Success { text: Seq<u8> },
    Message { text: Seq<u8> },
    Kind { label: ErrorKind },
    Detail { label: ErrorKind, text: Seq<u8> },
}

impl View for Shown {
    type V = ShownView;

    open spec fn view(&self) -> ShownView {
        match *self {
            Shown::Success { text } => ShownView::Success { text: text@ },
            Shown::Message { text } => ShownView::Message { text: text@ },
            Shown::Kind { label } => ShownView::Kind { label },
            Shown::Detail { label, text } => ShownView::Detail { label, text: text@ },
        }
    }
}

/// How the outcome of a query is shown.
///
/// A success shows its words. A message of the server is shown as it came. Every
/// other error is shown by its kind, and a protocol violation that has a message
/// shows the message after the kind.
pub open spec fn shown_outcome(outcome: Result<Seq<Seq<u8>>, RconErrorView>) -> ShownView {
    match outcome {
        Ok(words) => ShownView::Success { text: shown_words(words) },
        Err(RconErrorView::Other(text)) => ShownView::Message { text },
        Err(RconErrorView::ConnectionClosed) => ShownView::Kind {
            label: ErrorKind::ConnectionClosed,
        },
        Err(RconErrorView::InvalidArguments { our_query }) => ShownView::Kind {
            label: ErrorKind::InvalidArguments,
        },
        Err(RconErrorView::UnknownCommand { our_query }) => ShownView::Kind {
            label: ErrorKind::UnknownCommand,
        },
        Err(RconErrorView::ProtocolViolation(None)) => ShownView::Kind {
            label: ErrorKind::ProtocolViolation,
        },
        Err(RconErrorView::ProtocolViolation(Some(text))) => ShownView::Detail {
            label: ErrorKind::ProtocolViolation,
            text,
        },
        Err(RconErrorView::NotAscii) => ShownView::Kind { label: ErrorKind::NotAscii },
        Err(RconErrorView::Framing(e)) => ShownView::Kind { label: ErrorKind::Framing(e) },
    }
}

/// The words that name a kind of error on the screen.
pub open spec fn label_text(kind: ErrorKind) -> Seq<char> {
    match kind {
        ErrorKind::ConnectionClosed => "Connection Closed"@,
        ErrorKind::InvalidArguments => "Invalid Arguments"@,
        ErrorKind::UnknownCommand => "Unknown Command"@,
        ErrorKind::ProtocolViolation => "Protocol Violation"@,
        ErrorKind::NotAscii => "Not ASCII"@,
        ErrorKind::Framing(FramingError::HeaderTruncated) => "Framing Error: header truncated"@,
        ErrorKind::Framing(FramingError::SizeMismatch) => "Framing Error: size mismatch"@,
        ErrorKind::Framing(FramingError::WordCountMismatch) => "Framing Error: word count mismatch"@,
        ErrorKind::Framing(FramingError::WordLengthMismatch) => "Framing Error: word length mismatch"@,
        ErrorKind::Framing(FramingError::SequenceOutOfRange) => "Framing Error: sequence out of range"@,
        ErrorKind::Framing(FramingError::WordHoldsTerminator) => "Framing Error: word holds terminator"@,
        ErrorKind::Framing(FramingError::TooLarge) => "Framing Error: frame too large"@,
    }
}

impl ErrorKind {
    /// The words that name the kind on the screen.
    pub fn label(self) -> (text: &'static str)
        ensures
            text@ == label_text(self),
    {
        match self {
            ErrorKind::ConnectionClosed => "Connection Closed",
            ErrorKind::InvalidArguments => "Invalid Arguments",
            ErrorKind::UnknownCommand => "Unknown Command",
            ErrorKind::ProtocolViolation => "Protocol Violation",
            ErrorKind::NotAscii => "Not ASCII",
            ErrorKind::Framing(FramingError::HeaderTruncated) => "Framing Error: header truncated",
            ErrorKind::Framing(FramingError::SizeMismatch) => "Framing Error: size mismatch",
            ErrorKind::Framing(FramingError::WordCountMismatch) => "Framing Error: word count mismatch",
            ErrorKind::Framing(FramingError::WordLengthMismatch) => "Framing Error: word length mismatch",
            ErrorKind::Framing(FramingError::SequenceOutOfRange) => "Framing Error: sequence out of range",
            ErrorKind::Framing(FramingError::WordHoldsTerminator) => "Framing Error: word holds terminator",
            ErrorKind::Framing(FramingError::TooLarge) => "Framing Error: frame too large",
        }
    }
}

/// The words of a line that was typed.
pub fn query_from_line(line: &str) -> (r: Result<Vec<Vec<u8>>, RconError>)
    ensures
        outcome_view(r) == words_of_line(line@),
{
    match string_from_text(line) {
        Some(ascii) => Ok(split_at_spaces(borrow_string(&ascii))),
        None => Err(RconError::NotAscii),
    }
}

/// The words of a query that was given word by word.
pub fn query_from_words(texts: &Vec<String>) -> (r: Result<Vec<Vec<u8>>, RconError>)
    ensures
        outcome_view(r) == words_of_texts(texts@),
{
    let mut words: Vec<Vec<u8>> = Vec::new();
    let mut i: usize = 0;
    while i < texts.len()
        invariant
            i <= texts@.len(),
            words@.len() == i,
            forall|j: int| 0 <= j < i ==> is_seven_bit_text(#[trigger] texts@[j]@),
            forall|j: int| 0 <= j < i ==> (#[trigger] words@[j])@ == ascii_text(texts@[j]@),
        decreases texts@.len() - i,
    {
        match string_from_text(texts[i].as_str()) {
            Some(ascii) => {
                words.push(str_to_bytes(borrow_string(&ascii)));
            },
            None => {
                return Err(RconError::NotAscii);
            },
        }
        i = i + 1;
    }
    assert(words_view(words@) =~= Seq::new(texts@.len(), |i: int| ascii_text(texts@[i]@)));
    Ok(words)
}

/// How the outcome of a query is shown. There is a showing for every outcome.
pub fn show_outcome(outcome: &Result<Vec<Vec<u8>>, RconError>) -> (shown: Shown)
    ensures
        shown@ == shown_outcome(outcome_view(*outcome)),
{
    match outcome {
        Ok(words) => {
            let ghost all = words_view(words@);
            let mut text: Vec<u8> = Vec::new();
            let mut i: usize = 0;
            while i < words.len()
                invariant
                    i <= words@.len(),
                    all == words_view(words@),
                    text@ == shown_words(all.take(i as int)),
                decreases words@.len() - i,
            {
                proof {
                    assert(all.take(i + 1).drop_last() =~= all.take(i as int));
                }
                text.push(SPACE);
                push_bytes(&mut text, words[i].as_slice());
                i = i + 1;
            }
            assert(all.take(i as int) =~= all);
            Shown::Success { text }
        },
        Err(RconError::Other(message)) => Shown::Message { text: copy_bytes(message.as_slice()) },
        Err(RconError::ConnectionClosed) => Shown::Kind { label: ErrorKind::ConnectionClosed },
        Err(RconError::InvalidArguments { our_query: _ }) => Shown::Kind {
            label: ErrorKind::InvalidArguments,
        },
        Err(RconError::UnknownCommand { our_query: _ }) => Shown::Kind {
            label: ErrorKind::UnknownCommand,
        },
        Err(RconError::ProtocolViolation(None)) => Shown::Kind {
            label: ErrorKind::ProtocolViolation,
        },
        Err(RconError::ProtocolViolation(Some(message))) => Shown::Detail {
            label: ErrorKind::ProtocolViolation,
            text: copy_bytes(message.as_slice()),
        },
        Err(RconError::NotAscii) => Shown::Kind { label: ErrorKind::NotAscii },
        Err(RconError::Framing(e)) => Shown::Kind { label: ErrorKind::Framing(*e) },
    }
}

} // verus!

//! What a response means, and how a caller's own result types are made from it.

use crate::error::{RconError, RconErrorView};
use crate::wire::{ascii_text, spells, words_view};
use vstd::prelude::*;

verus! {

/// The outcome that a response's words signal for the query that was sent.
///
/// The first word is the status: `OK` for success, with the remaining words as the
/// result; `UnknownCommand` and `InvalidArguments` for the two errors that every
/// command can meet; any other word is the server's own error message. A response
/// without words is not a response.
pub open spec fn outcome_of_response(words: Seq<Seq<u8>>, query: Seq<Seq<u8>>) -> Result<
    Seq<Seq<u8>>,
    RconErrorView,
> {
    if words.len() == 0 {
        Err(RconErrorView::ProtocolViolation(None))
    } else if words[0] == ascii_text("OK"@) {
        Ok(words.skip(1))
    } else if words[0] == ascii_text("UnknownCommand"@) {
        Err(RconErrorView::UnknownCommand { our_query: query })
    } else if words[0] == ascii_text("InvalidArguments"@) {
        Err(RconErrorView::InvalidArguments { our_query: query })
    } else {
        Err(RconErrorView::Other(words[0]))
    }
}

/// The outcome of a query as a mathematical value.
pub open spec fn outcome_view(outcome: Result<Vec<Vec<u8>>, RconError>) -> Result<
    Seq<Seq<u8>>,
    RconErrorView,
> {
    match outcome {
        Ok(payload) => Ok(words_view(payload@)),
        Err(e) => Err(e@),
    }
}

/// The outcome that a response's words signal for the query that was sent.
pub fn interpret_response(words: Vec<Vec<u8>>, query: Vec<Vec<u8>>) -> (r: Result<
    Vec<Vec<u8>>,
    RconError,
>)
    ensures
        outcome_view(r) == outcome_of_response(words_view(words@), words_view(query@)),
{
    proof {
        reveal_strlit("OK");
        reveal_strlit("UnknownCommand");
        reveal_strlit("InvalidArguments");
    }
    if words.len() == 0 {
        return Err(RconError::protocol());
    }
    let mut words = words;
    let ghost all = words_view(words@);
    let status: Vec<u8> = words.remove(0);
    assert(words_view(words@) =~= all.skip(1));
    assert(status@ == all[0]);
    if spells(status.as_slice(), "OK") {
        Ok(words)
    } else if spells(status.as_slice(), "UnknownCommand") {
        Err(RconError::UnknownCommand { our_query: query })
    } else if spells(status.as_slice(), "InvalidArguments") {
        Err(RconError::InvalidArguments { our_query: query })
    } else {
        Err(RconError::Other(status))
    }
}

/// The error of a query whose caller has an error type of its own.
#[derive(Debug)]
pub enum QueryError<E> {
    /// An error of the transport or of the protocol.
    Rcon(RconError),
    /// An error that the caller's own mapping made from the server's message.
    Custom(E),
}

/// Makes the caller's result from the outcome of a query, by exactly one of the two
/// mappings.
///
/// A success goes through `on_success`. A server message goes through `on_error`,
/// which may decline it: the message then stays a plain `RconError::Other`. Any
/// other error passes through unchanged.
pub fn resolve<T, E, S, F>(outcome: Result<Vec<Vec<u8>>, RconError>, on_success: S, on_error: F) -> (r:
    Result<T, QueryError<E>>) where
    S: FnOnce(&Vec<Vec<u8>>) -> Result<T, E>,
    F: FnOnce(&Vec<u8>) -> Option<E>,

    requires
        forall|payload: &Vec<Vec<u8>>| call_requires(on_success, (payload,)),
        forall|reason: &Vec<u8>| call_requires(on_error, (reason,)),
    ensures
        match outcome {
            Ok(payload) => match r {
                Ok(value) => call_ensures(on_success, (&payload,), Ok::<T, E>(value)),
                Err(QueryError::Custom(e)) => call_ensures(on_success, (&payload,), Err::<T, E>(e)),
                Err(QueryError::Rcon(_)) => false,
            },
            Err(RconError::Other(reason)) => match r {
                Ok(_) => false,
                Err(QueryError::Custom(e)) => call_ensures(on_error, (&reason,), Some(e)),
                Err(QueryError::Rcon(kept)) => call_ensures(on_error, (&reason,), None::<E>)
                    && kept == outcome->Err_0,
            },
            Err(other) => r matches Err(QueryError::Rcon(kept)) && kept == other,
        },
{
    match outcome {
        Ok(payload) => match on_success(&payload) {
            Ok(value) => Ok(value),
            Err(e) => Err(QueryError::Custom(e)),
        },
        Err(RconError::Other(reason)) => match on_error(&reason) {
            Some(e) => Err(QueryError::Custom(e)),
            None => Err(QueryError::Rcon(RconError::Other(reason))),
        },
        Err(other) => Err(QueryError::Rcon(other)),
    }
}

} // verus!

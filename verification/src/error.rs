//! The library's error taxonomy: a server-reported error, a frame that could
//! not be understood, a failed transport, a broken internal hand-off, and an
//! invariant violation.

use vstd::prelude::*;
use crate::model::{rep, Json, JsonV};

verus! {

/// An error object reported by the server inside a response envelope.
#[derive(Debug)]
#[verifier::ext_equal]
pub struct ApiError {
    pub code: i64,
    pub message: String,
    pub data: Option<Json>,
}

/// The mathematical shape of a server error.
#[verifier::ext_equal]
pub struct ErrV {
    pub code: i64,
    pub message: Seq<char>,
    pub data: Option<JsonV>,
}

impl View for ApiError {
    type V = ErrV;

    open spec fn view(&self) -> ErrV {
        ErrV {
            code: self.code,
            message: self.message@,
            data: match self.data {
                Some(j) => Some(rep(j)),
                None => None,
            },
        }
    }
}

/// The single error type every request-style operation returns.
#[derive(Debug)]
pub enum Error {
    /// The server rejected the call; never retried automatically.
    Api(ApiError),
    /// A frame could not be parsed as either a response or a notification;
    /// recovered locally, one bad frame never takes the reader down.
    Protocol(String),
    /// The underlying stream failed or closed; fatal to the connection.
    Transport(String),
    /// An internal hand-off failed, e.g. a reply slot whose receiver is gone.
    Channel(String),
    /// An invariant violation not attributable to the wire, e.g. a response
    /// carrying neither a result nor an error.
    Logic(String),
}

impl Error {
    /// A short human-readable account of the error kind and message.
    pub fn describe(&self) -> String {
        match self {
            Error::Api(e) => {
                let mut s = String::from_str("API error: ");
                s.append(e.message.as_str());
                s
            },
            Error::Protocol(m) => {
                let mut s = String::from_str("protocol error: ");
                s.append(m.as_str());
                s
            },
            Error::Transport(m) => {
                let mut s = String::from_str("transport error: ");
                s.append(m.as_str());
                s
            },
            Error::Channel(m) => {
                let mut s = String::from_str("channel error: ");
                s.append(m.as_str());
                s
            },
            Error::Logic(m) => {
                let mut s = String::from_str("logic error: ");
                s.append(m.as_str());
                s
            },
        }
    }
}

} // verus!

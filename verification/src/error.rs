//! The library's error type.

use vstd::prelude::*;

verus! {

/// Errors reported by the library. Each carries a human-readable message.
#[derive(Debug, Clone)]
pub enum Error {
    InvalidPath(String),
    NotFound(String),
    AlreadyExists(String),
    Auth(String),
    Config(String),
    Protocol(String),
    Network(String),
    WebSocket(String),
    Vault(String),
    TooLarge(String),
    /// An error the replicated document's library reported.
    Automerge(String),
    InvalidUtf8,
    Other(String),
}

impl Error {
    /// The message an error carries: the text of its variant, empty for
    /// `InvalidUtf8`.
    pub open spec fn message_spec(&self) -> Seq<char> {
        match self {
            Error::InvalidPath(m) => m@,
            Error::NotFound(m) => m@,
            Error::AlreadyExists(m) => m@,
            Error::Auth(m) => m@,
            Error::Config(m) => m@,
            Error::Protocol(m) => m@,
            Error::Network(m) => m@,
            Error::WebSocket(m) => m@,
            Error::Vault(m) => m@,
            Error::TooLarge(m) => m@,
            Error::Automerge(m) => m@,
            Error::InvalidUtf8 => Seq::empty(),
            Error::Other(m) => m@,
        }
    }

    /// The message this error carries (empty for `InvalidUtf8`).
    pub fn message(&self) -> (r: String)
        ensures
            r@ == self.message_spec(),
    {
        match self {
            Error::InvalidPath(m) => m.clone(),
            Error::NotFound(m) => m.clone(),
            Error::AlreadyExists(m) => m.clone(),
            Error::Auth(m) => m.clone(),
            Error::Config(m) => m.clone(),
            Error::Protocol(m) => m.clone(),
            Error::Network(m) => m.clone(),
            Error::WebSocket(m) => m.clone(),
            Error::Vault(m) => m.clone(),
            Error::TooLarge(m) => m.clone(),
            Error::Automerge(m) => m.clone(),
            Error::InvalidUtf8 => String::new(),
            Error::Other(m) => m.clone(),
        }
    }
}

} // verus!

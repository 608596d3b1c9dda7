//! The error taxonomy for memory backend operations.

use vstd::prelude::*;
use vstd::string::StringExecFns;

verus! {

/// Errors returned by memory backend operations.
#[derive(Debug)]
pub enum MemoryError {
    /// Error from the store's server client.
    Server(String),
    /// Server socket not found or connection refused.
    ServerUnavailable(String),
    /// Error from a partition schema operation.
    Schema(String),
    /// Error from a secondary index operation.
    Index(String),
    /// Invalid parameters provided by the caller.
    InvalidParams(String),
    /// Internal error during operation.
    Internal(String),
}

impl MemoryError {
    /// A one-line rendering: the error's kind, then its message.
    pub fn message(&self) -> (r: String)
        ensures
            match self {
                MemoryError::Server(m) => r@ == "Server error: "@ + m@,
                MemoryError::ServerUnavailable(m) => r@ == "Server unavailable: "@ + m@,
                MemoryError::Schema(m) => r@ == "Schema error: "@ + m@,
                MemoryError::Index(m) => r@ == "Index error: "@ + m@,
                MemoryError::InvalidParams(m) => r@ == "Invalid parameters: "@ + m@,
                MemoryError::Internal(m) => r@ == "Internal error: "@ + m@,
            },
    {
        let (head, msg) = match self {
            MemoryError::Server(m) => (String::from_str("Server error: "), m),
            MemoryError::ServerUnavailable(m) => (String::from_str("Server unavailable: "), m),
            MemoryError::Schema(m) => (String::from_str("Schema error: "), m),
            MemoryError::Index(m) => (String::from_str("Index error: "), m),
            MemoryError::InvalidParams(m) => (String::from_str("Invalid parameters: "), m),
            MemoryError::Internal(m) => (String::from_str("Internal error: "), m),
        };
        let mut out = head;
        out.append(msg.as_str());
        out
    }

    /// A copy of the error.
    pub fn clone_err(&self) -> (r: MemoryError)
        ensures
            r == self,
    {
        match self {
            MemoryError::Server(m) => MemoryError::Server(m.clone()),
            MemoryError::ServerUnavailable(m) => MemoryError::ServerUnavailable(m.clone()),
            MemoryError::Schema(m) => MemoryError::Schema(m.clone()),
            MemoryError::Index(m) => MemoryError::Index(m.clone()),
            MemoryError::InvalidParams(m) => MemoryError::InvalidParams(m.clone()),
            MemoryError::Internal(m) => MemoryError::Internal(m.clone()),
        }
    }
}

} // verus!

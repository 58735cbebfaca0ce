//! The server's error taxonomy. Per-request failures are absorbed inside the
//! connection loop and turned into a client-visible response plus a log
//! entry; only pool-construction failures propagate to the embedding
//! application.

use vstd::prelude::*;
use vstd::string::StringExecFns;

use crate::frame::{dec_digits, dec_string, spec_digit_count};

verus! {

/// Error conditions strictly related to the server's execution.
#[derive(Debug)]
pub enum BunkerError {
    /// Malformed or unroutable input; recoverable per request, surfaced to
    /// the client as the configured error text, never fatal.
    BadRequest(String),
    /// Fatal construction-time failure: the worker pool was given size zero.
    InvalidPoolSize(usize),
    /// A transport failure, described as text.
    IO(String),
    /// No path matched the request and no `NotFound` fallback is registered.
    NoControllerFound(String),
    /// A response whose length (held here) exceeds the configured maximum.
    FrameTooLarge(usize),
}

/// The text `describe` produces for each error condition.
pub open spec fn describe_spec(e: BunkerError) -> Seq<char> {
    match e {
        BunkerError::BadRequest(m) => "E01 Bad Request: "@ + m@,
        BunkerError::InvalidPoolSize(n) => "Invalid size assigned to the threadpool! Given: "@
            + dec_digits(n as int, spec_digit_count(n as int))
            + ". Expected a number greater than 0."@,
        BunkerError::IO(m) => "IO Error: "@ + m@,
        BunkerError::NoControllerFound(m) => "E02 No Controller Found: "@ + m@,
        BunkerError::FrameTooLarge(n) => "Response of length "@ + dec_digits(
            n as int,
            spec_digit_count(n as int),
        ) + " exceeds the configured maximum."@,
    }
}

impl BunkerError {
    /// A human-readable account of the error, used for logging.
    pub fn describe(&self) -> (r: String)
        ensures
            r@ == describe_spec(*self),
    {
        match self {
            BunkerError::BadRequest(m) => {
                let mut s = "E01 Bad Request: ".to_owned();
                s.append(m.as_str());
                s
            },
            BunkerError::InvalidPoolSize(n) => {
                let mut s = "Invalid size assigned to the threadpool! Given: ".to_owned();
                s.append(dec_string(*n).as_str());
                s.append(". Expected a number greater than 0.");
                s
            },
            BunkerError::IO(m) => {
                let mut s = "IO Error: ".to_owned();
                s.append(m.as_str());
                s
            },
            BunkerError::NoControllerFound(m) => {
                let mut s = "E02 No Controller Found: ".to_owned();
                s.append(m.as_str());
                s
            },
            BunkerError::FrameTooLarge(n) => {
                let mut s = "Response of length ".to_owned();
                s.append(dec_string(*n).as_str());
                s.append(" exceeds the configured maximum.");
                s
            },
        }
    }
}

} // verus!

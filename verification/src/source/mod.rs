//! Metric sources: their errors, the steps of reading promphp metrics from
//! Redis, and how the registry combines the sources' results.

use vstd::prelude::*;
use vstd::string::*;
use crate::text::concat;

pub mod promphp;
pub mod registry;

verus! {

/// Errors of a source.
#[derive(Debug)]
pub enum SourceError {
    Connection(String),
    Parse(String),
    Timeout,
    Redis(String),
}

/// The message that a source error displays.
pub open spec fn source_error_text(e: SourceError) -> Seq<char> {
    match e {
        SourceError::Connection(s) => "Connection error: "@ + s@,
        SourceError::Parse(s) => "Parse error: "@ + s@,
        SourceError::Timeout => "Timeout"@,
        SourceError::Redis(s) => "Redis error: "@ + s@,
    }
}

impl SourceError {
    /// The error's message.
    pub fn to_string(&self) -> (r: String)
        ensures
            r@ == source_error_text(*self),
    {
        match self {
            SourceError::Connection(s) => concat("Connection error: ", s.as_str()),
            SourceError::Parse(s) => concat("Parse error: ", s.as_str()),
            SourceError::Timeout => String::from_str("Timeout"),
            SourceError::Redis(s) => concat("Redis error: ", s.as_str()),
        }
    }
}

} // verus!

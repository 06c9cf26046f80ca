//! The library's error type.

use vstd::prelude::*;
use crate::text::{append_str, chars_of, push_decimal, string_of, append, decimal};

verus! {

broadcast use vstd::string::group_string_axioms;

#[derive(Debug, Clone, PartialEq, Eq)]
pub enum CoreError {
    Playlist { line: usize, reason: String },
    Xmltv(String),
    Provider(String),
    Rule { pattern: String, reason: String },
}

/// The message each error reads as.
pub open spec fn error_message(e: CoreError) -> Seq<char> {
    match e {
        CoreError::Playlist { line, reason } => "malformed playlist at line "@ + decimal(
            line as nat,
        ) + ": "@ + reason@,
        CoreError::Xmltv(m) => "malformed XMLTV: "@ + m@,
        CoreError::Provider(m) => "provider returned an unexpected payload: "@ + m@,
        CoreError::Rule { pattern, reason } => "invalid rule pattern \""@ + pattern@ + "\": "@
            + reason@,
    }
}

impl CoreError {
    /// The human-readable message, as the UI shows it.
    pub fn to_string(&self) -> (r: String)
        ensures
            r@ == error_message(*self),
    {
        let mut out: Vec<char> = Vec::new();
        match self {
            CoreError::Playlist { line, reason } => {
                append_str(&mut out, "malformed playlist at line ");
                push_decimal(&mut out, *line as u64);
                append_str(&mut out, ": ");
                append_str(&mut out, reason.as_str());
            },
            CoreError::Xmltv(m) => {
                append_str(&mut out, "malformed XMLTV: ");
                append_str(&mut out, m.as_str());
            },
            CoreError::Provider(m) => {
                append_str(&mut out, "provider returned an unexpected payload: ");
                append_str(&mut out, m.as_str());
            },
            CoreError::Rule { pattern, reason } => {
                append_str(&mut out, "invalid rule pattern \"");
                append_str(&mut out, pattern.as_str());
                append_str(&mut out, "\": ");
                append_str(&mut out, reason.as_str());
            },
        }
        string_of(out.as_slice())
    }
}

} // verus!

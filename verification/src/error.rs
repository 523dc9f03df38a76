//! The library's error type.
use vstd::prelude::*;

use crate::text::{copy_str, push_str};

verus! {

/// Errors that the library's logic reports.
#[derive(Debug)]
pub enum AppError {
    /// A date that does not read as "YYYY-MM-DD".
    DateParse(chrono::ParseError),
    InvalidCommand(String),
    NotFound(String),
    InvalidInput(String),
    Other(String),
}

pub type AppResult<T> = Result<T, AppError>;

/// What chrono's `ParseError` writes through `Display`.
#[verifier::external_body]
fn parse_error_text(e: &chrono::ParseError) -> String {
    e.to_string()
}

impl AppError {
    /// The message of each variant: its label, ": " and its payload;
    /// `Other` shows its payload alone.
    pub open spec fn message_of(self) -> Seq<char> {
        match self {
            AppError::DateParse(_) => Seq::empty(),
            AppError::InvalidCommand(s) => "invalid command: "@ + s@,
            AppError::NotFound(s) => "not found: "@ + s@,
            AppError::InvalidInput(s) => "invalid input: "@ + s@,
            AppError::Other(s) => s@,
        }
    }

    /// The error's message, as its `Display` would write it.
    pub fn message(&self) -> (res: String)
        ensures
            !(self is DateParse) ==> res@ == self.message_of(),
            self is DateParse ==> exists|detail: Seq<char>| res@ == "date parse error: "@ + detail,
    {
        let (label, body) = match self {
            AppError::DateParse(e) => ("date parse error: ", parse_error_text(e)),
            AppError::InvalidCommand(s) => ("invalid command: ", copy_str(s.as_str())),
            AppError::NotFound(s) => ("not found: ", copy_str(s.as_str())),
            AppError::InvalidInput(s) => ("invalid input: ", copy_str(s.as_str())),
            AppError::Other(s) => ("", copy_str(s.as_str())),
        };
        let mut out = copy_str(label);
        push_str(&mut out, body.as_str());
        proof {
            if self is Other {
                reveal_strlit("");
                assert(out@ =~= body@);
            }
        }
        out
    }
}

} // verus!

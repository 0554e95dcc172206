//! The library's errors.

use vstd::prelude::*;
use crate::format::{decimal, decimal_string, signed_decimal, signed_decimal_string};

verus! {

/// What can go wrong while scanning or analysing a repository. The payload
/// of the variants that wrap another library's error is that error's text.
#[derive(Debug)]
pub enum CoreError {
    /// An I/O operation failed.
    Io(String),
    /// A git operation failed.
    Git2(String),
    /// The path does not hold a git repository.
    NotAGitRepository(String),
    /// JSON serialisation failed.
    Serde(String),
    /// CSV serialisation failed.
    Csv(String),
    /// No date is the first of the month `month` of year `year`.
    InvalidDate(i32, u32),
}

/// The result type of fallible library functions.
pub type CoreResult<T> = Result<T, CoreError>;

/// The text that describes an error.
pub open spec fn error_text(e: CoreError) -> Seq<char> {
    match e {
        CoreError::Io(s) => "IO error: "@ + s@,
        CoreError::Git2(s) => "Git error: "@ + s@,
        CoreError::NotAGitRepository(s) => "Not a git repository: "@ + s@,
        CoreError::Serde(s) => "JSON serialization error: "@ + s@,
        CoreError::Csv(s) => "CSV error: "@ + s@,
        CoreError::InvalidDate(y, m) => "Invalid date: year="@ + signed_decimal(y as int) + " month="@
            + decimal(m as nat),
    }
}

impl CoreError {
    /// The text that describes the error.
    pub fn message(&self) -> (r: String)
        ensures
            r@ == error_text(*self),
    {
        match self {
            CoreError::Io(s) => String::from_str("IO error: ").concat(s.as_str()),
            CoreError::Git2(s) => String::from_str("Git error: ").concat(s.as_str()),
            CoreError::NotAGitRepository(s) => String::from_str("Not a git repository: ").concat(s.as_str()),
            CoreError::Serde(s) => String::from_str("JSON serialization error: ").concat(s.as_str()),
            CoreError::Csv(s) => String::from_str("CSV error: ").concat(s.as_str()),
            CoreError::InvalidDate(y, m) => {
                let mut t = String::from_str("Invalid date: year=");
                let ys = signed_decimal_string(*y as i64);
                t.append(ys.as_str());
                t.append(" month=");
                let ms = decimal_string(*m as u64);
                t.append(ms.as_str());
                t
            },
        }
    }
}

} // verus!

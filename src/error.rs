//! Error values carrying a numeric code.
use vstd::prelude::*;

verus! {

/// Failure to build a quadratic arithmetic program: code 101 (unequal
/// lengths of `u`, `v`, `w`), 102 (`l + 1 > m`) or 103 (a polynomial of
/// degree other than `n - 1`).
#[derive(Debug, Clone)]
pub struct QAPError {
    pub message: String,
    pub file: String,
    pub line: u32,
    pub code: u32,
}

impl QAPError {
    pub fn create(message: &str, file: &str, line: u32, code: u32) -> (r: Self)
        ensures
            r.message@ == message@,
            r.file@ == file@,
            r.line == line,
            r.code == code,
    {
        QAPError { message: message.to_owned(), file: file.to_owned(), line, code }
    }
}

/// Failure of a polynomial operation: code 201 for evaluating the
/// polynomial of degree -1.
#[derive(Debug, Clone)]
pub struct PolyError {
    pub message: String,
    pub file: String,
    pub line: u32,
    pub code: u32,
}

impl PolyError {
    pub fn create(message: &str, file: &str, line: u32, code: u32) -> (r: Self)
        ensures
            r.message@ == message@,
            r.file@ == file@,
            r.line == line,
            r.code == code,
    {
        PolyError { message: message.to_owned(), file: file.to_owned(), line, code }
    }
}

/// A general failure, with its cause and where it was raised.
#[derive(Debug, Clone)]
pub struct SnarkyError {
    pub message: String,
    pub cause: String,
    pub file: String,
    pub line: u32,
    pub code: u32,
}

impl SnarkyError {
    pub fn create(message: &str, cause: &str, file: &str, line: u32, code: u32) -> (r: Self)
        ensures
            r.message@ == message@,
            r.cause@ == cause@,
            r.file@ == file@,
            r.line == line,
            r.code == code,
    {
        SnarkyError {
            message: message.to_owned(),
            cause: cause.to_owned(),
            file: file.to_owned(),
            line,
            code,
        }
    }

    /// The text shown to a user: code, origin, message and cause.
    pub fn describe(&self) -> (r: String)
        ensures
            r@.len() > 0,
    {
        let mut s = String::new();
        proof {
            reveal_strlit("SnarkyError: ");
        }
        s.append("SnarkyError: ");
        let mut out = self.message.clone();
        s.append(out.as_str());
        s.append(": ");
        out = self.cause.clone();
        s.append(out.as_str());
        s
    }
}

} // verus!

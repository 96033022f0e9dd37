use vstd::prelude::*;
use crate::text::{nat_decimal, push_str, push_u64, string_of};

verus! {

/// A diagnostic produced by the front end: a code such as `E001`, the file
/// being compiled and the line at which the problem was noticed.
#[derive(Debug, Clone, PartialEq)]
pub struct CompileError {
    pub code: String,
    pub filename: String,
    pub line: usize,
}

/// The mathematical content of a `CompileError`.
pub struct ErrorView {
    pub code: Seq<char>,
    pub filename: Seq<char>,
    pub line: nat,
}

impl View for CompileError {
    type V = ErrorView;

    open spec fn view(&self) -> ErrorView {
        ErrorView { code: self.code@, filename: self.filename@, line: self.line as nat }
    }
}

impl CompileError {
    pub fn new(code: &str, filename: &str, line: usize) -> (e: Self)
        ensures
            e.code@ == code@,
            e.filename@ == filename@,
            e.line == line,
    {
        Self { code: code.to_string(), filename: filename.to_string(), line }
    }

    /// The text of the error, `<code> (<file>:<line>)`, as it is displayed.
    pub fn message(&self) -> (r: String)
        ensures
            r@ == self.code@ + " ("@ + self.filename@ + ":"@ + nat_decimal(self.line as nat) + ")"@,
    {
        let mut r = string_of(self.code.as_str());
        push_str(&mut r, " (");
        push_str(&mut r, self.filename.as_str());
        push_str(&mut r, ":");
        push_u64(&mut r, self.line as u64);
        push_str(&mut r, ")");
        r
    }
}

} // verus!

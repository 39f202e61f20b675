//! Error types reported by the profile parser and the profile-name
//! validator. Parsing fails fast: the first faulty line aborts the parse
//! and is reported with the display path and 1-based line number.

use vstd::prelude::*;

verus! {

/// What went wrong on a profile line.
#[derive(Debug, Clone, Copy, PartialEq, Eq, Structural)]
pub enum ErrorKind {
    /// A non-blank, non-comment line holds no `=`.
    MissingAssignmentOperator,
    /// The text left of the first `=` trims to nothing.
    EmptyVariableName,
    /// The key breaks the naming rule; carries the first offending character.
    InvalidVariableName(char),
    /// The value opens with a quote but has no well-formed closing quote.
    UnclosedQuote,
}

/// A positioned parse failure: enough for a caller to print
/// `path:line: message`.
#[derive(Debug, Clone)]
pub struct ParseError {
    /// Display path of the source, used only for messages.
    pub path: String,
    /// 1-based line number of the faulty line.
    pub line: usize,
    /// What went wrong there.
    pub kind: ErrorKind,
}

/// Why a candidate profile name was rejected.
#[derive(Debug, Clone, Copy, PartialEq, Eq, Structural)]
pub enum NameError {
    /// The name is empty.
    Empty,
    /// The name is `.` or `..`.
    Reserved,
    /// The name starts with `-`.
    LeadingDash,
    /// The name holds a character outside the allowed set; carries the
    /// first such character.
    InvalidChar(char),
}

} // verus!

//! The ways in which reading a file can fail.

use crate::number::{decimal_digits, push_decimal};
use vstd::prelude::*;
use vstd::string::StringExecFns;

verus! {

/// What was wrong with a line, or with the end of the input.
#[derive(Debug, Clone, Copy, PartialEq, Eq)]
pub enum ParseErrorKind {
    /// An atom line ends before a label and three coordinates were read.
    MissingValue,
    /// A count line holds something other than one unsigned integer.
    ParseIntError,
    /// A coordinate is not a decimal floating-point literal.
    ParseFloatError,
    /// The input ends inside a record.
    UnexpectedEndOfInput,
}

/// A [`ParseErrorKind`] together with the line at which it was found.  Lines
/// are counted from zero.
#[derive(Debug, Clone, Copy, PartialEq, Eq)]
pub struct ParseError {
    pub kind: ParseErrorKind,
    pub line: usize,
}

/// The number of the line that stands `n` lines after line zero.  Numbers
/// that do not fit in `usize` are given as the greatest number that does.
pub open spec fn line_number(n: nat) -> usize {
    if n <= usize::MAX {
        n as usize
    } else {
        usize::MAX
    }
}

impl ParseErrorKind {
    /// The text of [`ParseErrorKind::message`].
    pub open spec fn message_text(self) -> Seq<char> {
        match self {
            ParseErrorKind::MissingValue => "Missing label and/or value"@,
            ParseErrorKind::ParseIntError => "Could not parse data as atom count"@,
            ParseErrorKind::ParseFloatError => "Could not parse data as atom position"@,
            ParseErrorKind::UnexpectedEndOfInput => "Unexpected end of input"@,
        }
    }

    /// A sentence that describes the error.
    pub fn message(&self) -> (s: String)
        ensures
            s@ == self.message_text(),
    {
        match self {
            ParseErrorKind::MissingValue => String::from_str("Missing label and/or value"),
            ParseErrorKind::ParseIntError => String::from_str("Could not parse data as atom count"),
            ParseErrorKind::ParseFloatError => String::from_str(
                "Could not parse data as atom position",
            ),
            ParseErrorKind::UnexpectedEndOfInput => String::from_str("Unexpected end of input"),
        }
    }
}

impl ParseError {
    /// An error of the given kind at the given line.
    pub fn new(kind: ParseErrorKind, line: usize) -> (e: ParseError)
        ensures
            e.kind == kind,
            e.line == line,
    {
        ParseError { kind, line }
    }

    /// The text of [`ParseError::to_string`]: the message of the kind, the
    /// words ` at line `, and the line number in decimal.
    pub open spec fn text(self) -> Seq<char> {
        self.kind.message_text() + " at line "@ + decimal_digits(self.line as nat)
    }

    /// A sentence that describes the error and names its line.
    pub fn to_string(&self) -> (s: String)
        ensures
            s@ == self.text(),
    {
        let mut s = self.kind.message();
        s.append(" at line ");
        push_decimal(&mut s, self.line);
        s
    }
}

} // verus!

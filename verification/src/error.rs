use vstd::prelude::*;

use crate::decimal::{dec_digits, dec_string_u64};

verus! {

/// A zero-based (line, column) pair identifying a source position.
/// It is displayed one-based for humans.
#[derive(Debug, Clone, Copy, PartialEq, Eq, Structural)]
pub struct Location {
    pub line: usize,
    pub col: usize,
}

/// The two structural faults a token stream can have.
#[derive(Debug, Clone, Copy, PartialEq, Eq, Structural)]
pub enum ParseErrorKind {
    UnmatchedLoopStart,
    UnmatchedLoopEnd,
}

/// A structural parse failure: which delimiter was unmatched, and where.
#[derive(Debug, Clone, Copy, PartialEq, Eq, Structural)]
pub struct ParseError {
    pub loc: Location,
    pub kind: ParseErrorKind,
}

impl Location {
    /// The position as humans read it: one-based line and column with a
    /// colon between them.
    pub fn describe(&self) -> (r: String)
        requires
            self.line < usize::MAX,
            self.col < usize::MAX,
        ensures
            r@ == dec_digits((self.line + 1) as nat) + ":"@ + dec_digits((self.col + 1) as nat),
    {
        let mut out = String::new();
        let line_str = dec_string_u64(self.line as u64 + 1);
        let col_str = dec_string_u64(self.col as u64 + 1);
        out.append(line_str.as_str());
        out.append(":");
        out.append(col_str.as_str());
        out
    }
}

impl ParseErrorKind {
    /// The human-readable name of the fault.
    pub fn describe(&self) -> (r: &'static str)
        ensures
            *self is UnmatchedLoopStart ==> r@ == "unmatched loop start"@,
            *self is UnmatchedLoopEnd ==> r@ == "unmatched loop end"@,
    {
        match self {
            ParseErrorKind::UnmatchedLoopStart => "unmatched loop start",
            ParseErrorKind::UnmatchedLoopEnd => "unmatched loop end",
        }
    }
}

} // verus!

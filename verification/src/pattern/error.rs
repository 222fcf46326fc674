//! What the parser of path patterns reports.

use crate::pattern::symbol::{width_of, Char};
use vstd::prelude::*;

verus! {

/// Why a pattern was refused.
#[derive(Debug, Clone, Copy, PartialEq)]
pub enum ParseErrorKind {
    ExpectedNumber,
    ExpectedPipeOrExprEnd,
    ExpectedRange,
    ExpectedSubstitution,
    ExpectedTransform,
    ExpectedVariable,
    ExprStartInsideExpr,
    IntegerOverflow,
    PipeOutsideExpr,
    /// The end of a range, then its start, both as they were written.
    RangeEndBeforeStart(usize, usize),
    RangeIndexZero,
    SubstituteWithoutValue(Char),
    UnknownTransform(Char),
    UnknownVariable(Char),
    UnmatchedExprEnd,
    UnterminatedExprStart,
}

/// A refusal: its reason and the byte range of the pattern it is about.
#[derive(Debug, Clone, Copy, PartialEq)]
pub struct ParseError {
    pub kind: ParseErrorKind,
    pub start: usize,
    pub end: usize,
}

/// What a refusal holds.
pub struct Refusal {
    pub kind: ParseErrorKind,
    pub start: int,
    pub end: int,
}

impl View for ParseError {
    type V = Refusal;

    open spec fn view(&self) -> Refusal {
        Refusal { kind: self.kind, start: self.start as int, end: self.end as int }
    }
}

impl Refusal {
    /// The same refusal about a range that lies `offset` bytes further.
    pub open spec fn shifted(self, offset: int) -> Refusal {
        Refusal { kind: self.kind, start: self.start + offset, end: self.end + offset }
    }

    /// True where the refusal lies within the symbols it is about.
    pub open spec fn within(self, chars: Seq<Char>) -> bool {
        0 <= self.start <= self.end <= width_of(chars)
    }
}

/// Outcome of parsing one member of an expression from a symbol index on:
/// the value with the index after it, or a refusal whose range is relative
/// to the first symbol.
pub type Step<V> = Result<(V, int), Refusal>;

} // verus!

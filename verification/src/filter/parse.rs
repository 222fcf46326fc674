//! What parsing a filter pattern is configured with, and what it reports.

use crate::pattern::lexer::Spanned;
use crate::pattern::symbol::Char;
use std::ops::Range;
use vstd::prelude::*;

verus! {

/// How a value is split into fields.
#[derive(Debug, PartialEq)]
pub enum Separator {
    /// At each occurrence of a text.
    String(String),
    /// At each match of a regular expression, given by its source.
    Regex(String),
}

/// What a separator holds.
pub enum SeparatorView {
    String(Seq<char>),
    Regex(Seq<char>),
}

impl View for Separator {
    type V = SeparatorView;

    open spec fn view(&self) -> SeparatorView {
        match self {
            Separator::String(value) => SeparatorView::String(value@),
            Separator::Regex(value) => SeparatorView::Regex(value@),
        }
    }
}

impl Separator {
    /// A separator that holds the same as this one.
    pub fn duplicate(&self) -> (copy: Separator)
        ensures
            copy@ == self@,
    {
        match self {
            Separator::String(value) => Separator::String(value.clone()),
            Separator::Regex(value) => Separator::Regex(value.clone()),
        }
    }
}

/// The settings of the parser.
pub struct Config {
    /// The character that makes the next one ordinary.
    pub escape: char,
    /// The separator of the field filter where it names none.
    pub separator: Separator,
}

/// What the settings hold.
pub struct ConfigView {
    pub escape: char,
    pub separator: SeparatorView,
}

impl View for Config {
    type V = ConfigView;

    open spec fn view(&self) -> ConfigView {
        ConfigView { escape: self.escape, separator: self.separator@ }
    }
}

/// A value together with the byte range of the pattern it was read from.
#[derive(Debug, PartialEq)]
pub struct Parsed<T> {
    pub value: T,
    pub range: Range<usize>,
}

impl<T: View> View for Parsed<T> {
    type V = Spanned<T::V>;

    open spec fn view(&self) -> Spanned<T::V> {
        Spanned { value: self.value@, start: self.range.start as int, end: self.range.end as int }
    }
}

/// Why a pattern was refused.
#[derive(Debug, PartialEq)]
pub enum ErrorKind {
    ExpectedFilter,
    ExpectedFilterOrExprEnd,
    ExpectedNumber,
    ExpectedPipeOrExprEnd,
    ExpectedRange,
    ExpectedSubstitution,
    ExprStartInsideExpr,
    IndexZero,
    IntegerOverflow(String),
    PaddingPrefixInvalid(char, Option<Char>),
    PipeOutsideExpr,
    RangeStartOverEnd(String, String),
    RepetitionWithoutDelimiter,
    SubstitutionWithoutTarget(Char),
    UnknownFilter(Char),
    UnmatchedExprEnd,
    UnmatchedExprStart,
}

/// What the reason of a refusal holds.
pub enum ErrorKindView {
    ExpectedFilter,
    ExpectedFilterOrExprEnd,
    ExpectedNumber,
    ExpectedPipeOrExprEnd,
    ExpectedRange,
    ExpectedSubstitution,
    ExprStartInsideExpr,
    IndexZero,
    IntegerOverflow(Seq<char>),
    PaddingPrefixInvalid(char, Option<Char>),
    PipeOutsideExpr,
    RangeStartOverEnd(Seq<char>, Seq<char>),
    RepetitionWithoutDelimiter,
    SubstitutionWithoutTarget(Char),
    UnknownFilter(Char),
    UnmatchedExprEnd,
    UnmatchedExprStart,
}

impl View for ErrorKind {
    type V = ErrorKindView;

    open spec fn view(&self) -> ErrorKindView {
        match self {
            ErrorKind::ExpectedFilter => ErrorKindView::ExpectedFilter,
            ErrorKind::ExpectedFilterOrExprEnd => ErrorKindView::ExpectedFilterOrExprEnd,
            ErrorKind::ExpectedNumber => ErrorKindView::ExpectedNumber,
            ErrorKind::ExpectedPipeOrExprEnd => ErrorKindView::ExpectedPipeOrExprEnd,
            ErrorKind::ExpectedRange => ErrorKindView::ExpectedRange,
            ErrorKind::ExpectedSubstitution => ErrorKindView::ExpectedSubstitution,
            ErrorKind::ExprStartInsideExpr => ErrorKindView::ExprStartInsideExpr,
            ErrorKind::IndexZero => ErrorKindView::IndexZero,
            ErrorKind::IntegerOverflow(digits) => ErrorKindView::IntegerOverflow(digits@),
            ErrorKind::PaddingPrefixInvalid(prefix, found) => ErrorKindView::PaddingPrefixInvalid(
                *prefix,
                *found,
            ),
            ErrorKind::PipeOutsideExpr => ErrorKindView::PipeOutsideExpr,
            ErrorKind::RangeStartOverEnd(start, end) => ErrorKindView::RangeStartOverEnd(
                start@,
                end@,
            ),
            ErrorKind::RepetitionWithoutDelimiter => ErrorKindView::RepetitionWithoutDelimiter,
            ErrorKind::SubstitutionWithoutTarget(separator) => {
                ErrorKindView::SubstitutionWithoutTarget(*separator)
            },
            ErrorKind::UnknownFilter(found) => ErrorKindView::UnknownFilter(*found),
            ErrorKind::UnmatchedExprEnd => ErrorKindView::UnmatchedExprEnd,
            ErrorKind::UnmatchedExprStart => ErrorKindView::UnmatchedExprStart,
        }
    }
}

/// A refusal: its reason and the byte range of the pattern it is about.
#[derive(Debug, PartialEq)]
pub struct Error {
    pub kind: ErrorKind,
    pub range: Range<usize>,
}

/// What a refusal holds.
pub struct ErrorView {
    pub kind: ErrorKindView,
    pub start: int,
    pub end: int,
}

impl View for Error {
    type V = ErrorView;

    open spec fn view(&self) -> ErrorView {
        ErrorView { kind: self.kind@, start: self.range.start as int, end: self.range.end as int }
    }
}

impl ErrorView {
    /// The same refusal about a range that lies `offset` bytes further.
    pub open spec fn shifted(self, offset: int) -> ErrorView {
        ErrorView { kind: self.kind, start: self.start + offset, end: self.end + offset }
    }
}

/// Outcome of parsing one member of an expression from a symbol index on:
/// the value with the index after it, or a refusal whose range is relative
/// to the first symbol.
pub type Step<V> = Result<(V, int), ErrorView>;

} // verus!

//! The steps that change the value of an expression.

use crate::pattern::error::{ParseError, ParseErrorKind, Refusal, Step};
use crate::pattern::range::{range_at, Range};
use crate::pattern::reader::{span_at, text_between, Reader};
use crate::pattern::substitution::{substitution_at, Substitution, SubstitutionView};
use crate::pattern::symbol::Char;
use vstd::prelude::*;

verus! {

/// One step of an expression: it takes a value and gives a value.
#[derive(Debug, PartialEq)]
pub enum Transform {
    /// `n`: a range of characters.
    Substring(Range),
    /// `r`: the first occurrence of a text replaced.
    ReplaceFirst(Substitution),
    /// `R`: every occurrence of a text replaced.
    ReplaceAll(Substitution),
    /// `t`: white space removed from both ends.
    Trim,
    /// `l`: lower case.
    Lowercase,
    /// `u`: upper case.
    Uppercase,
    /// `<`: filled up on the left with the characters of a text.
    LeftPad(String),
    /// `>`: filled up on the right with the characters of a text.
    RightPad(String),
}

/// What a transform holds.
pub enum TransformView {
    Substring(Range),
    ReplaceFirst(SubstitutionView),
    ReplaceAll(SubstitutionView),
    Trim,
    Lowercase,
    Uppercase,
    LeftPad(Seq<char>),
    RightPad(Seq<char>),
}

impl View for Transform {
    type V = TransformView;

    open spec fn view(&self) -> TransformView {
        match self {
            Transform::Substring(range) => TransformView::Substring(*range),
            Transform::ReplaceFirst(substitution) => TransformView::ReplaceFirst(substitution@),
            Transform::ReplaceAll(substitution) => TransformView::ReplaceAll(substitution@),
            Transform::Trim => TransformView::Trim,
            Transform::Lowercase => TransformView::Lowercase,
            Transform::Uppercase => TransformView::Uppercase,
            Transform::LeftPad(padding) => TransformView::LeftPad(padding@),
            Transform::RightPad(padding) => TransformView::RightPad(padding@),
        }
    }
}

/// The transform that the symbols spell from the first one on, with the
/// index of the symbol after it. The first symbol, a raw character, names
/// the transform; what it needs to know follows.
pub open spec fn transform_at(chars: Seq<Char>) -> Step<TransformView> {
    if chars.len() == 0 {
        Err(Refusal { kind: ParseErrorKind::ExpectedTransform, start: 0, end: 0 })
    } else if chars[0] is Escaped {
        Err(
            Refusal {
                kind: ParseErrorKind::UnknownTransform(chars[0]),
                start: span_at(chars, 0).0 as int,
                end: span_at(chars, 0).1 as int,
            },
        )
    } else {
        let name = chars[0].value();
        let end = chars.len() as int;
        if name == 't' {
            Ok((TransformView::Trim, 1))
        } else if name == 'l' {
            Ok((TransformView::Lowercase, 1))
        } else if name == 'u' {
            Ok((TransformView::Uppercase, 1))
        } else if name == 'n' {
            match range_at(chars, 1) {
                Ok((range, after)) => Ok((TransformView::Substring(range), after)),
                Err(error) => Err(error),
            }
        } else if name == 'r' {
            match substitution_at(chars, 1) {
                Ok(substitution) => Ok((TransformView::ReplaceFirst(substitution), end)),
                Err(error) => Err(error),
            }
        } else if name == 'R' {
            match substitution_at(chars, 1) {
                Ok(substitution) => Ok((TransformView::ReplaceAll(substitution), end)),
                Err(error) => Err(error),
            }
        } else if name == '<' {
            Ok((TransformView::LeftPad(text_between(chars, 1, end)), end))
        } else if name == '>' {
            Ok((TransformView::RightPad(text_between(chars, 1, end)), end))
        } else {
            Err(
                Refusal {
                    kind: ParseErrorKind::UnknownTransform(chars[0]),
                    start: span_at(chars, 0).0 as int,
                    end: span_at(chars, 0).1 as int,
                },
            )
        }
    }
}

impl Transform {
    /// Reads a transform from the first symbol on.
    pub(crate) fn parse(reader: &mut Reader) -> (result: Result<Transform, ParseError>)
        requires
            old(reader).index() == 0,
        ensures
            final(reader).chars() == old(reader).chars(),
            match transform_at(old(reader).chars()) {
                Ok((transform, end)) => result is Ok && result->Ok_0@ == transform
                    && final(reader).index() == end && 0 <= end <= old(reader).chars().len(),
                Err(error) => result is Err && result->Err_0@ == error && error.within(
                    old(reader).chars(),
                ),
            },
    {
        let span = reader.span();
        let first = match reader.read() {
            Some(first) => first,
            None => {
                return Err(
                    ParseError { kind: ParseErrorKind::ExpectedTransform, start: 0, end: 0 },
                );
            },
        };
        let name = match first {
            Char::Raw(name) => name,
            Char::Escaped(_, _) => {
                return Err(
                    ParseError {
                        kind: ParseErrorKind::UnknownTransform(first),
                        start: span.0,
                        end: span.1,
                    },
                );
            },
        };
        if name == 't' {
            Ok(Transform::Trim)
        } else if name == 'l' {
            Ok(Transform::Lowercase)
        } else if name == 'u' {
            Ok(Transform::Uppercase)
        } else if name == 'n' {
            match Range::parse(reader) {
                Ok(range) => Ok(Transform::Substring(range)),
                Err(error) => Err(error),
            }
        } else if name == 'r' {
            match Substitution::parse(reader) {
                Ok(substitution) => Ok(Transform::ReplaceFirst(substitution)),
                Err(error) => Err(error),
            }
        } else if name == 'R' {
            match Substitution::parse(reader) {
                Ok(substitution) => Ok(Transform::ReplaceAll(substitution)),
                Err(error) => Err(error),
            }
        } else if name == '<' {
            Ok(Transform::LeftPad(reader.read_to_end()))
        } else if name == '>' {
            Ok(Transform::RightPad(reader.read_to_end()))
        } else {
            Err(
                ParseError {
                    kind: ParseErrorKind::UnknownTransform(first),
                    start: span.0,
                    end: span.1,
                },
            )
        }
    }
}

} // verus!

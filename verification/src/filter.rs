//! Patterns whose expressions are chains of filters.

pub mod explain;
pub mod field;
pub mod number;
pub mod padding;
pub mod parse;
pub mod parser;
pub mod range;
pub mod substitution;

use crate::filter::field::{field_at, Field, FieldView};
use crate::filter::number::within;
use crate::filter::padding::{padding_at, Padding, PaddingView};
use crate::filter::parse::{Config, ConfigView, Error, ErrorKind, ErrorKindView, ErrorView, Step};
use crate::filter::range::{range_at, Range};
use crate::filter::substitution::{substitution_at, Substitution, SubstitutionView};
use crate::pattern::reader::{span_at, Reader};
use crate::pattern::symbol::Char;
use vstd::prelude::*;

verus! {

/// One step of an expression: it takes a value and gives a value.
#[derive(Debug, PartialEq)]
pub enum Filter {
    /// `f`: the last component of a path.
    FileName,
    /// `b`: the file name without its extension.
    BaseName,
    /// `e`: the extension of the file name.
    Extension,
    /// `E`: the extension with the dot before it.
    ExtensionWithDot,
    /// `#`: a range of characters.
    Substring(Range),
    /// `&`: one of the fields of the value.
    Field(Field),
    /// `r`: the first occurrence of a text replaced.
    ReplaceFirst(Substitution),
    /// `R`: every occurrence of a text replaced.
    ReplaceAll(Substitution),
    /// `t`: white space removed from both ends.
    Trim,
    /// `v`: lower case.
    ToLowercase,
    /// `^`: upper case.
    ToUppercase,
    /// `<`: filled up on the left.
    LeftPad(Padding),
    /// `>`: filled up on the right.
    RightPad(Padding),
    /// `c`: the counter of the directory.
    LocalCounter,
    /// `C`: the counter of the whole run.
    GlobalCounter,
}

/// What a filter holds.
pub enum FilterView {
    FileName,
    BaseName,
    Extension,
    ExtensionWithDot,
    Substring(Range),
    Field(FieldView),
    ReplaceFirst(SubstitutionView),
    ReplaceAll(SubstitutionView),
    Trim,
    ToLowercase,
    ToUppercase,
    LeftPad(PaddingView),
    RightPad(PaddingView),
    LocalCounter,
    GlobalCounter,
}

impl View for Filter {
    type V = FilterView;

    open spec fn view(&self) -> FilterView {
        match self {
            Filter::FileName => FilterView::FileName,
            Filter::BaseName => FilterView::BaseName,
            Filter::Extension => FilterView::Extension,
            Filter::ExtensionWithDot => FilterView::ExtensionWithDot,
            Filter::Substring(range) => FilterView::Substring(*range),
            Filter::Field(field) => FilterView::Field(field@),
            Filter::ReplaceFirst(substitution) => FilterView::ReplaceFirst(substitution@),
            Filter::ReplaceAll(substitution) => FilterView::ReplaceAll(substitution@),
            Filter::Trim => FilterView::Trim,
            Filter::ToLowercase => FilterView::ToLowercase,
            Filter::ToUppercase => FilterView::ToUppercase,
            Filter::LeftPad(padding) => FilterView::LeftPad(padding@),
            Filter::RightPad(padding) => FilterView::RightPad(padding@),
            Filter::LocalCounter => FilterView::LocalCounter,
            Filter::GlobalCounter => FilterView::GlobalCounter,
        }
    }
}

/// The filter that the character `name` alone stands for.
pub open spec fn plain_filter(name: char) -> Option<FilterView> {
    if name == 'f' {
        Some(FilterView::FileName)
    } else if name == 'b' {
        Some(FilterView::BaseName)
    } else if name == 'e' {
        Some(FilterView::Extension)
    } else if name == 'E' {
        Some(FilterView::ExtensionWithDot)
    } else if name == 't' {
        Some(FilterView::Trim)
    } else if name == 'v' {
        Some(FilterView::ToLowercase)
    } else if name == '^' {
        Some(FilterView::ToUppercase)
    } else if name == 'c' {
        Some(FilterView::LocalCounter)
    } else if name == 'C' {
        Some(FilterView::GlobalCounter)
    } else {
        None
    }
}

/// The filter that the symbols spell from the first one on, with the index
/// of the symbol after it. The first symbol, a raw character, names the
/// filter; what it needs to know follows.
pub open spec fn filter_at(chars: Seq<Char>, config: ConfigView) -> Step<FilterView> {
    if chars.len() == 0 {
        Err(ErrorView { kind: ErrorKindView::ExpectedFilter, start: 0, end: 0 })
    } else {
        let unknown = Err(
            ErrorView {
                kind: ErrorKindView::UnknownFilter(chars[0]),
                start: span_at(chars, 0).0 as int,
                end: span_at(chars, 0).1 as int,
            },
        );
        let end = chars.len() as int;
        match chars[0] {
            Char::Escaped(_, _) => unknown,
            Char::Raw(name) => if plain_filter(name) is Some {
                Ok((plain_filter(name)->0, 1))
            } else if name == '#' {
                match range_at(chars, 1) {
                    Ok((range, after)) => Ok((FilterView::Substring(range), after)),
                    Err(error) => Err(error),
                }
            } else if name == '&' {
                match field_at(chars, 1, config) {
                    Ok(field) => Ok((FilterView::Field(field), end)),
                    Err(error) => Err(error),
                }
            } else if name == 'r' {
                match substitution_at(chars, 1) {
                    Ok(substitution) => Ok((FilterView::ReplaceFirst(substitution), end)),
                    Err(error) => Err(error),
                }
            } else if name == 'R' {
                match substitution_at(chars, 1) {
                    Ok(substitution) => Ok((FilterView::ReplaceAll(substitution), end)),
                    Err(error) => Err(error),
                }
            } else if name == '<' {
                match padding_at(chars, 1, '<') {
                    Ok(padding) => Ok((FilterView::LeftPad(padding), end)),
                    Err(error) => Err(error),
                }
            } else if name == '>' {
                match padding_at(chars, 1, '>') {
                    Ok(padding) => Ok((FilterView::RightPad(padding), end)),
                    Err(error) => Err(error),
                }
            } else {
                unknown
            },
        }
    }
}

impl Filter {
    /// Reads a filter from the first symbol on.
    pub(crate) fn parse(reader: &mut Reader, config: &Config) -> (result: Result<Filter, Error>)
        requires
            old(reader).index() == 0,
        ensures
            final(reader).chars() == old(reader).chars(),
            match filter_at(old(reader).chars(), config@) {
                Ok((filter, end)) => result is Ok && result->Ok_0@ == filter
                    && final(reader).index() == end && 0 <= end <= old(reader).chars().len(),
                Err(error) => result is Err && result->Err_0@ == error && within(
                    error,
                    old(reader).chars(),
                ),
            },
    {
        let span = reader.span();
        let first = match reader.read() {
            Some(first) => first,
            None => {
                return Err(Error { kind: ErrorKind::ExpectedFilter, range: 0..0 });
            },
        };
        let name = match first {
            Char::Raw(name) => name,
            Char::Escaped(_, _) => {
                return Err(Error { kind: ErrorKind::UnknownFilter(first), range: span.0..span.1 });
            },
        };
        if name == 'f' {
            Ok(Filter::FileName)
        } else if name == 'b' {
            Ok(Filter::BaseName)
        } else if name == 'e' {
            Ok(Filter::Extension)
        } else if name == 'E' {
            Ok(Filter::ExtensionWithDot)
        } else if name == 't' {
            Ok(Filter::Trim)
        } else if name == 'v' {
            Ok(Filter::ToLowercase)
        } else if name == '^' {
            Ok(Filter::ToUppercase)
        } else if name == 'c' {
            Ok(Filter::LocalCounter)
        } else if name == 'C' {
            Ok(Filter::GlobalCounter)
        } else if name == '#' {
            match Range::parse(reader) {
                Ok(range) => Ok(Filter::Substring(range)),
                Err(error) => Err(error),
            }
        } else if name == '&' {
            match Field::parse(reader, config) {
                Ok(field) => Ok(Filter::Field(field)),
                Err(error) => Err(error),
            }
        } else if name == 'r' {
            match Substitution::parse(reader) {
                Ok(substitution) => Ok(Filter::ReplaceFirst(substitution)),
                Err(error) => Err(error),
            }
        } else if name == 'R' {
            match Substitution::parse(reader) {
                Ok(substitution) => Ok(Filter::ReplaceAll(substitution)),
                Err(error) => Err(error),
            }
        } else if name == '<' {
            match Padding::parse(reader, '<') {
                Ok(padding) => Ok(Filter::LeftPad(padding)),
                Err(error) => Err(error),
            }
        } else if name == '>' {
            match Padding::parse(reader, '>') {
                Ok(padding) => Ok(Filter::RightPad(padding)),
                Err(error) => Err(error),
            }
        } else {
            Err(Error { kind: ErrorKind::UnknownFilter(first), range: span.0..span.1 })
        }
    }
}

} // verus!

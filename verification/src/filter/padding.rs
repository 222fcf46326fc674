//! What a padding filter fills a value up with.

use crate::filter::number::{number_at, parse_number, within};
use crate::filter::parse::{Error, ErrorKind, ErrorKindView, ErrorView};
use crate::pattern::reader::{span_at, text_between, Reader};
use crate::pattern::symbol::{width_before, Char};
use crate::text::{is_decimal_digit, is_digit};
use vstd::prelude::*;

verus! {

/// A text and the number of times it is repeated.
#[derive(Debug, PartialEq)]
pub struct Repetition {
    pub count: usize,
    pub value: String,
}

/// What a repetition holds.
pub struct RepetitionView {
    pub count: nat,
    pub value: Seq<char>,
}

impl View for Repetition {
    type V = RepetitionView;

    open spec fn view(&self) -> RepetitionView {
        RepetitionView { count: self.count as nat, value: self.value@ }
    }
}

/// The repetition written from symbol `i` to the last symbol: a number,
/// one symbol that delimits it, and the text to repeat.
pub open spec fn repetition_at(chars: Seq<Char>, i: int) -> Result<RepetitionView, ErrorView> {
    match number_at(chars, i) {
        Err(error) => Err(error),
        Ok((count, delimiter)) => if delimiter >= chars.len() {
            Err(
                ErrorView {
                    kind: ErrorKindView::RepetitionWithoutDelimiter,
                    start: width_before(chars, delimiter) as int,
                    end: width_before(chars, delimiter) as int,
                },
            )
        } else {
            Ok(
                RepetitionView {
                    count,
                    value: text_between(chars, delimiter + 1, chars.len() as int),
                },
            )
        },
    }
}

impl Repetition {
    /// Reads a repetition, which takes all the symbols that are left.
    pub fn parse(reader: &mut Reader) -> (result: Result<Repetition, Error>)
        ensures
            final(reader).chars() == old(reader).chars(),
            0 <= old(reader).index() <= old(reader).chars().len(),
            match repetition_at(old(reader).chars(), old(reader).index()) {
                Ok(repetition) => result is Ok && result->Ok_0@ == repetition
                    && final(reader).index() == old(reader).chars().len(),
                Err(error) => result is Err && result->Err_0@ == error && within(
                    error,
                    old(reader).chars(),
                ),
            },
    {
        let count = match parse_number(reader) {
            Ok(count) => count,
            Err(error) => {
                return Err(error);
            },
        };
        let span = reader.span();
        match reader.read() {
            None => Err(Error { kind: ErrorKind::RepetitionWithoutDelimiter, range: span.0..span.1 }),
            Some(_) => {
                let value = reader.read_to_end();
                Ok(Repetition { count, value })
            },
        }
    }
}

/// The filling of a padding filter.
#[derive(Debug, PartialEq)]
pub enum Padding {
    /// The text itself.
    Fixed(String),
    /// A text repeated a number of times.
    Repeated(Repetition),
}

/// What a padding holds.
pub enum PaddingView {
    Fixed(Seq<char>),
    Repeated(RepetitionView),
}

impl View for Padding {
    type V = PaddingView;

    open spec fn view(&self) -> PaddingView {
        match self {
            Padding::Fixed(value) => PaddingView::Fixed(value@),
            Padding::Repeated(repetition) => PaddingView::Repeated(repetition@),
        }
    }
}

/// The padding written from symbol `i` to the last symbol, for the filter
/// named by `prefix`. The prefix once more announces the text itself; a
/// digit starts a repetition.
pub open spec fn padding_at(chars: Seq<Char>, i: int, prefix: char) -> Result<
    PaddingView,
    ErrorView,
> {
    if 0 <= i < chars.len() && chars[i].value() == prefix {
        Ok(PaddingView::Fixed(text_between(chars, i + 1, chars.len() as int)))
    } else if 0 <= i < chars.len() && is_decimal_digit(chars[i].value()) {
        match repetition_at(chars, i) {
            Err(error) => Err(error),
            Ok(repetition) => Ok(PaddingView::Repeated(repetition)),
        }
    } else {
        Err(
            ErrorView {
                kind: ErrorKindView::PaddingPrefixInvalid(
                    prefix,
                    if 0 <= i < chars.len() {
                        Some(chars[i])
                    } else {
                        None
                    },
                ),
                start: span_at(chars, i).0 as int,
                end: span_at(chars, i).1 as int,
            },
        )
    }
}

impl Padding {
    /// Reads a padding, which takes all the symbols that are left.
    pub fn parse(reader: &mut Reader, prefix: char) -> (result: Result<Padding, Error>)
        ensures
            final(reader).chars() == old(reader).chars(),
            0 <= old(reader).index() <= old(reader).chars().len(),
            match padding_at(old(reader).chars(), old(reader).index(), prefix) {
                Ok(padding) => result is Ok && result->Ok_0@ == padding && final(reader).index()
                    == old(reader).chars().len(),
                Err(error) => result is Err && result->Err_0@ == error && within(
                    error,
                    old(reader).chars(),
                ),
            },
    {
        let span = reader.span();
        match reader.peek() {
            Some(first) => {
                if first.as_char() == prefix {
                    reader.read();
                    Ok(Padding::Fixed(reader.read_to_end()))
                } else if is_digit(first.as_char()) {
                    match Repetition::parse(reader) {
                        Ok(repetition) => Ok(Padding::Repeated(repetition)),
                        Err(error) => Err(error),
                    }
                } else {
                    Err(
                        Error {
                            kind: ErrorKind::PaddingPrefixInvalid(prefix, Some(first)),
                            range: span.0..span.1,
                        },
                    )
                }
            },
            None => Err(
                Error { kind: ErrorKind::PaddingPrefixInvalid(prefix, None), range: span.0..span.1 },
            ),
        }
    }
}

} // verus!

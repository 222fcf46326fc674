//! The part of a value that a substring filter keeps.

use crate::filter::number::{index_at, number_at, parse_index, parse_number, within};
use crate::filter::parse::{Error, ErrorKind, ErrorKindView, ErrorView, Step};
use crate::pattern::reader::{digits_end, lemma_digits_end, span_at, text_between, Reader};
use crate::pattern::symbol::{lemma_width_monotonic, width_before, Char};
use crate::text::string_of;
use vstd::prelude::*;

verus! {

/// Separates the two ends of a range.
pub const RANGE_DELIMITER: char = '-';

/// A range of character indices: its first index, counted from 0, and the
/// index after its last one, or nothing where it runs to the end.
#[derive(Debug, Clone, Copy, PartialEq, Eq)]
pub struct Range(pub usize, pub Option<usize>);

/// The range written from symbol `i` on: `A-B` runs from the character
/// `A` to the character `B`, both counted from 1 and included; `A-` runs
/// from `A` to the end; `A` is the single character `A`.
pub open spec fn range_at(chars: Seq<Char>, i: int) -> Step<Range> {
    if digits_end(chars, i) == i {
        Err(
            ErrorView {
                kind: ErrorKindView::ExpectedRange,
                start: span_at(chars, i).0 as int,
                end: span_at(chars, i).1 as int,
            },
        )
    } else {
        match index_at(chars, i) {
            Err(error) => Err(error),
            Ok((start, delimiter)) => if delimiter < chars.len() && chars[delimiter].value()
                == RANGE_DELIMITER {
                if digits_end(chars, delimiter + 1) == delimiter + 1 {
                    Ok((Range(start as usize, None), delimiter + 1))
                } else {
                    match number_at(chars, delimiter + 1) {
                        Err(error) => Err(error),
                        Ok((end, after)) => if start >= end {
                            Err(
                                ErrorView {
                                    kind: ErrorKindView::RangeStartOverEnd(
                                        text_between(chars, i, delimiter),
                                        text_between(chars, delimiter + 1, after),
                                    ),
                                    start: width_before(chars, i) as int,
                                    end: width_before(chars, after) as int,
                                },
                            )
                        } else {
                            Ok((Range(start as usize, Some(end as usize)), after))
                        },
                    }
                }
            } else {
                Ok((Range(start as usize, Some((start + 1) as usize)), delimiter))
            },
        }
    }
}

impl Range {
    /// Reads a range.
    pub fn parse(reader: &mut Reader) -> (result: Result<Range, Error>)
        ensures
            final(reader).chars() == old(reader).chars(),
            0 <= old(reader).index() <= old(reader).chars().len(),
            match range_at(old(reader).chars(), old(reader).index()) {
                Ok((range, end)) => result == Ok::<Range, Error>(range) && final(reader).index()
                    == end && old(reader).index() <= end <= old(reader).chars().len(),
                Err(error) => result is Err && result->Err_0@ == error && within(
                    error,
                    old(reader).chars(),
                ),
            },
    {
        let ghost chars = reader.chars();
        let ghost begin = reader.index();
        let span = reader.span();
        let is_number = match reader.peek() {
            Some(first) => crate::text::is_digit(first.as_char()),
            None => false,
        };
        if !is_number {
            return Err(Error { kind: ErrorKind::ExpectedRange, range: span.0..span.1 });
        }
        proof {
            lemma_digits_end(chars, begin + 1);
        }
        let start_digits = Self::peek_digits(reader);
        let start = match parse_index(reader) {
            Ok(start) => start,
            Err(error) => {
                return Err(error);
            },
        };
        let delimited = match reader.peek() {
            Some(next) => next.as_char() == RANGE_DELIMITER,
            None => false,
        };
        if !delimited {
            return Ok(Range(start, Some(start + 1)));
        }
        reader.read();
        let ghost delimiter = reader.index() - 1;
        let bounded = match reader.peek() {
            Some(next) => crate::text::is_digit(next.as_char()),
            None => false,
        };
        if !bounded {
            return Ok(Range(start, None));
        }
        proof {
            lemma_digits_end(chars, delimiter + 2);
        }
        let end_digits = Self::peek_digits(reader);
        let end = match parse_number(reader) {
            Ok(end) => end,
            Err(error) => {
                return Err(error);
            },
        };
        if start >= end {
            let position = reader.position();
            proof {
                lemma_width_monotonic(chars, begin, reader.index());
            }
            Err(
                Error {
                    kind: ErrorKind::RangeStartOverEnd(
                        string_of(&start_digits),
                        string_of(&end_digits),
                    ),
                    range: span.0..position,
                },
            )
        } else {
            Ok(Range(start, Some(end)))
        }
    }

    /// The run of digits at the next symbol, which stays to be read.
    fn peek_digits(reader: &mut Reader) -> (digits: Vec<char>)
        ensures
            final(reader).chars() == old(reader).chars(),
            final(reader).index() == old(reader).index(),
            digits@ == text_between(
                old(reader).chars(),
                old(reader).index(),
                digits_end(old(reader).chars(), old(reader).index()),
            ),
    {
        let mut ahead = reader.fork();
        ahead.read_digits()
    }
}

} // verus!

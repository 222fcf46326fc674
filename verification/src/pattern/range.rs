//! The part of a value that a substring transform keeps.

use crate::pattern::error::{ParseError, ParseErrorKind, Refusal, Step};
use crate::pattern::reader::{digits_end, lemma_digits_end, span_at, text_between, Reader};
use crate::pattern::symbol::{lemma_width_monotonic, width_before, Char};
use crate::text::{decimal_value, is_digit, parse_decimal};
use vstd::prelude::*;

verus! {

/// Separates the two ends of a range.
pub const RANGE_DELIMITER: char = '-';

/// A range of characters: the index of its first one, counted from 0, and
/// the number of characters, where 0 stands for all that follow.
#[derive(Debug, Clone, Copy, PartialEq, Eq)]
pub struct Range {
    pub offset: usize,
    pub length: usize,
}

impl View for Range {
    type V = Range;

    open spec fn view(&self) -> Range {
        *self
    }
}

/// The number written from symbol `i` on: a run of decimal digits that
/// spells a value within `usize`.
pub open spec fn number_at(chars: Seq<Char>, i: int) -> Step<nat> {
    let end = digits_end(chars, i);
    if end == i {
        Err(
            Refusal {
                kind: ParseErrorKind::ExpectedNumber,
                start: span_at(chars, i).0 as int,
                end: span_at(chars, i).1 as int,
            },
        )
    } else if decimal_value(text_between(chars, i, end)) > usize::MAX {
        Err(
            Refusal {
                kind: ParseErrorKind::IntegerOverflow,
                start: width_before(chars, i) as int,
                end: width_before(chars, end) as int,
            },
        )
    } else {
        Ok((decimal_value(text_between(chars, i, end)), end))
    }
}

/// The range written from symbol `i` on, where `from` is the first number
/// and `to` the second, both counted from 1 and included: `A-B` runs from
/// `A` to `B`, `A-` from `A` to the end, `-B` from the start to `B`, and
/// `A` is the single character `A`.
pub open spec fn range_at(chars: Seq<Char>, i: int) -> Step<Range> {
    let zero = |end: int|
        Err::<(Range, int), Refusal>(
            Refusal {
                kind: ParseErrorKind::RangeIndexZero,
                start: width_before(chars, i) as int,
                end: width_before(chars, end) as int,
            },
        );
    let dash = 0 <= i < chars.len() && chars[i].value() == RANGE_DELIMITER;
    if digits_end(chars, i) == i && !dash {
        Err(
            Refusal {
                kind: ParseErrorKind::ExpectedRange,
                start: span_at(chars, i).0 as int,
                end: span_at(chars, i).1 as int,
            },
        )
    } else if dash {
        match number_at(chars, i + 1) {
            Err(error) => Err(error),
            Ok((to, after)) => if to == 0 {
                zero(after)
            } else {
                Ok((Range { offset: 0, length: to as usize }, after))
            },
        }
    } else {
        match number_at(chars, i) {
            Err(error) => Err(error),
            Ok((from, delimiter)) => if from == 0 {
                zero(delimiter)
            } else if delimiter < chars.len() && chars[delimiter].value() == RANGE_DELIMITER {
                if digits_end(chars, delimiter + 1) == delimiter + 1 {
                    Ok((Range { offset: (from - 1) as usize, length: 0 }, delimiter + 1))
                } else {
                    match number_at(chars, delimiter + 1) {
                        Err(error) => Err(error),
                        Ok((to, after)) => if to < from {
                            Err(
                                Refusal {
                                    kind: ParseErrorKind::RangeEndBeforeStart(
                                        to as usize,
                                        from as usize,
                                    ),
                                    start: width_before(chars, i) as int,
                                    end: width_before(chars, after) as int,
                                },
                            )
                        } else {
                            Ok(
                                (
                                    Range {
                                        offset: (from - 1) as usize,
                                        length: (to - from + 1) as usize,
                                    },
                                    after,
                                ),
                            )
                        },
                    }
                }
            } else {
                Ok((Range { offset: (from - 1) as usize, length: 1 }, delimiter))
            },
        }
    }
}

/// Reads a number.
pub fn parse_number(reader: &mut Reader) -> (result: Result<usize, ParseError>)
    ensures
        final(reader).chars() == old(reader).chars(),
        0 <= old(reader).index() <= old(reader).chars().len(),
        match number_at(old(reader).chars(), old(reader).index()) {
            Ok((number, end)) => result == Ok::<usize, ParseError>(number as usize)
                && final(reader).index() == end && number <= usize::MAX
                && old(reader).index() < end <= old(reader).chars().len(),
            Err(error) => result is Err && result->Err_0@ == error && error.within(
                old(reader).chars(),
            ),
        },
{
    let span = reader.span();
    let digits = reader.read_digits();
    let end = reader.position();
    proof {
        lemma_width_monotonic(reader.chars(), old(reader).index(), reader.index());
    }
    if digits.len() == 0 {
        return Err(ParseError { kind: ParseErrorKind::ExpectedNumber, start: span.0, end: span.1 });
    }
    match parse_decimal(&digits) {
        Some(number) => Ok(number),
        None => Err(ParseError { kind: ParseErrorKind::IntegerOverflow, start: span.0, end }),
    }
}

impl Range {
    /// Reads a range.
    pub fn parse(reader: &mut Reader) -> (result: Result<Range, ParseError>)
        ensures
            final(reader).chars() == old(reader).chars(),
            0 <= old(reader).index() <= old(reader).chars().len(),
            match range_at(old(reader).chars(), old(reader).index()) {
                Ok((range, end)) => result == Ok::<Range, ParseError>(range)
                    && final(reader).index() == end
                    && old(reader).index() <= end <= old(reader).chars().len(),
                Err(error) => result is Err && result->Err_0@ == error && error.within(
                    old(reader).chars(),
                ),
            },
    {
        let ghost chars = reader.chars();
        let ghost begin = reader.index();
        let span = reader.span();
        let first = match reader.peek() {
            Some(first) => first.as_char(),
            None => {
                return Err(
                    ParseError { kind: ParseErrorKind::ExpectedRange, start: span.0, end: span.1 },
                );
            },
        };
        proof {
            lemma_digits_end(chars, begin + 1);
        }
        if first == RANGE_DELIMITER {
            reader.read();
            let to = match parse_number(reader) {
                Ok(to) => to,
                Err(error) => {
                    return Err(error);
                },
            };
            let end = reader.position();
            proof {
                lemma_width_monotonic(chars, begin, reader.index());
            }
            if to == 0 {
                return Err(
                    ParseError { kind: ParseErrorKind::RangeIndexZero, start: span.0, end },
                );
            }
            return Ok(Range { offset: 0, length: to });
        }
        if !is_digit(first) {
            return Err(
                ParseError { kind: ParseErrorKind::ExpectedRange, start: span.0, end: span.1 },
            );
        }
        let from = match parse_number(reader) {
            Ok(from) => from,
            Err(error) => {
                return Err(error);
            },
        };
        let after_from = reader.position();
        proof {
            lemma_width_monotonic(chars, begin, reader.index());
        }
        if from == 0 {
            return Err(
                ParseError { kind: ParseErrorKind::RangeIndexZero, start: span.0, end: after_from },
            );
        }
        let delimited = match reader.peek() {
            Some(next) => next.as_char() == RANGE_DELIMITER,
            None => false,
        };
        if !delimited {
            return Ok(Range { offset: from - 1, length: 1 });
        }
        reader.read();
        let ghost delimiter = reader.index() - 1;
        let bounded = match reader.peek() {
            Some(next) => is_digit(next.as_char()),
            None => false,
        };
        if !bounded {
            return Ok(Range { offset: from - 1, length: 0 });
        }
        proof {
            lemma_digits_end(chars, delimiter + 2);
        }
        let to = match parse_number(reader) {
            Ok(to) => to,
            Err(error) => {
                return Err(error);
            },
        };
        if to < from {
            let end = reader.position();
            proof {
                lemma_width_monotonic(chars, begin, reader.index());
            }
            Err(
                ParseError {
                    kind: ParseErrorKind::RangeEndBeforeStart(to, from),
                    start: span.0,
                    end,
                },
            )
        } else {
            Ok(Range { offset: from - 1, length: to - from + 1 })
        }
    }
}

} // verus!

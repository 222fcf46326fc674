//! Numbers and one-based indices inside a filter.

use crate::filter::parse::{Error, ErrorKind, ErrorKindView, ErrorView, Step};
use crate::pattern::reader::{digits_end, span_at, text_between, Reader};
use crate::pattern::symbol::{lemma_width_monotonic, width_before, width_of, Char};
use crate::text::{decimal_value, parse_decimal, string_of};
use vstd::prelude::*;

verus! {

/// The number written from symbol `i` on. A number is a run of decimal
/// digits that spells a value within `usize`.
pub open spec fn number_at(chars: Seq<Char>, i: int) -> Step<nat> {
    let end = digits_end(chars, i);
    let digits = text_between(chars, i, end);
    if end == i {
        Err(
            ErrorView {
                kind: ErrorKindView::ExpectedNumber,
                start: span_at(chars, i).0 as int,
                end: span_at(chars, i).1 as int,
            },
        )
    } else if decimal_value(digits) > usize::MAX {
        Err(
            ErrorView {
                kind: ErrorKindView::IntegerOverflow(digits),
                start: width_before(chars, i) as int,
                end: width_before(chars, end) as int,
            },
        )
    } else {
        Ok((decimal_value(digits), end))
    }
}

/// The index written from symbol `i` on. Indices are written from 1 and
/// held from 0.
pub open spec fn index_at(chars: Seq<Char>, i: int) -> Step<nat> {
    match number_at(chars, i) {
        Err(error) => Err(error),
        Ok((number, end)) => if number == 0 {
            Err(
                ErrorView {
                    kind: ErrorKindView::IndexZero,
                    start: width_before(chars, i) as int,
                    end: width_before(chars, end) as int,
                },
            )
        } else {
            Ok(((number - 1) as nat, end))
        },
    }
}

/// True where a refusal lies within the symbols it is about.
pub open spec fn within(error: ErrorView, chars: Seq<Char>) -> bool {
    0 <= error.start <= error.end <= width_of(chars)
}

/// Reads a number.
pub fn parse_number(reader: &mut Reader) -> (result: Result<usize, Error>)
    ensures
        final(reader).chars() == old(reader).chars(),
        0 <= old(reader).index() <= old(reader).chars().len(),
        match number_at(old(reader).chars(), old(reader).index()) {
            Ok((number, end)) => result == Ok::<usize, Error>(number as usize)
                && final(reader).index() == end && number <= usize::MAX
                && old(reader).index() < end <= old(reader).chars().len(),
            Err(error) => result is Err && result->Err_0@ == error && within(
                error,
                old(reader).chars(),
            ),
        },
{
    let span = reader.span();
    let start = span.0;
    let digits = reader.read_digits();
    let end = reader.position();
    proof {
        lemma_width_monotonic(reader.chars(), old(reader).index(), reader.index());
    }
    if digits.len() == 0 {
        return Err(Error { kind: ErrorKind::ExpectedNumber, range: span.0..span.1 });
    }
    match parse_decimal(&digits) {
        Some(number) => Ok(number),
        None => Err(Error { kind: ErrorKind::IntegerOverflow(string_of(&digits)), range: start..end }),
    }
}

/// Reads a one-based index and gives it from 0.
pub fn parse_index(reader: &mut Reader) -> (result: Result<usize, Error>)
    ensures
        final(reader).chars() == old(reader).chars(),
        0 <= old(reader).index() <= old(reader).chars().len(),
        match index_at(old(reader).chars(), old(reader).index()) {
            Ok((index, end)) => result == Ok::<usize, Error>(index as usize)
                && final(reader).index() == end && index < usize::MAX
                && old(reader).index() < end <= old(reader).chars().len(),
            Err(error) => result is Err && result->Err_0@ == error && within(
                error,
                old(reader).chars(),
            ),
        },
{
    let start = reader.position();
    match parse_number(reader) {
        Err(error) => Err(error),
        Ok(number) => {
            let end = reader.position();
            proof {
                lemma_width_monotonic(reader.chars(), old(reader).index(), reader.index());
            }
            if number == 0 {
                Err(Error { kind: ErrorKind::IndexZero, range: start..end })
            } else {
                Ok(number - 1)
            }
        },
    }
}

} // verus!

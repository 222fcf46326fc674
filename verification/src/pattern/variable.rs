//! The values that an expression starts from.

use crate::pattern::error::{ParseError, ParseErrorKind, Refusal, Step};
use crate::pattern::range::{number_at, parse_number};
use crate::pattern::reader::{span_at, Reader};
use crate::pattern::symbol::Char;
use crate::text::{is_decimal_digit, is_digit};
use vstd::prelude::*;

verus! {

/// What an expression takes from the path it is evaluated for.
#[derive(Debug, Clone, Copy, PartialEq)]
pub enum Variable {
    /// `f`: the file name.
    Filename,
    /// `b`: the file name without its extension.
    Basename,
    /// `e`: the extension.
    Extension,
    /// `E`: the extension with the dot before it.
    ExtensionWithDot,
    /// `c`: the counter of the directory.
    LocalCounter,
    /// `C`: the counter of the whole run.
    GlobalCounter,
    /// A number: the group of that number captured by the regular
    /// expression.
    CaptureGroup(usize),
    /// `u`: a random identifier.
    Uuid,
}

impl View for Variable {
    type V = Variable;

    open spec fn view(&self) -> Variable {
        *self
    }
}

/// The variable that the character `name` alone stands for.
pub open spec fn plain_variable(name: char) -> Option<Variable> {
    if name == 'f' {
        Some(Variable::Filename)
    } else if name == 'b' {
        Some(Variable::Basename)
    } else if name == 'e' {
        Some(Variable::Extension)
    } else if name == 'E' {
        Some(Variable::ExtensionWithDot)
    } else if name == 'c' {
        Some(Variable::LocalCounter)
    } else if name == 'C' {
        Some(Variable::GlobalCounter)
    } else if name == 'u' {
        Some(Variable::Uuid)
    } else {
        None
    }
}

/// The variable that the symbols spell from the first one on, with the
/// index of the symbol after it. The first symbol, a raw character, is a
/// letter that names the variable or the first digit of a number.
pub open spec fn variable_at(chars: Seq<Char>) -> Step<Variable> {
    if chars.len() == 0 {
        Err(Refusal { kind: ParseErrorKind::ExpectedVariable, start: 0, end: 0 })
    } else if chars[0] is Escaped {
        Err(
            Refusal {
                kind: ParseErrorKind::UnknownVariable(chars[0]),
                start: span_at(chars, 0).0 as int,
                end: span_at(chars, 0).1 as int,
            },
        )
    } else if is_decimal_digit(chars[0].value()) {
        match number_at(chars, 0) {
            Ok((number, end)) => Ok((Variable::CaptureGroup(number as usize), end)),
            Err(error) => Err(error),
        }
    } else if plain_variable(chars[0].value()) is Some {
        Ok((plain_variable(chars[0].value())->0, 1))
    } else {
        Err(
            Refusal {
                kind: ParseErrorKind::UnknownVariable(chars[0]),
                start: span_at(chars, 0).0 as int,
                end: span_at(chars, 0).1 as int,
            },
        )
    }
}

impl Variable {
    /// Reads a variable from the first symbol on.
    pub(crate) fn parse(reader: &mut Reader) -> (result: Result<Variable, ParseError>)
        requires
            old(reader).index() == 0,
        ensures
            final(reader).chars() == old(reader).chars(),
            match variable_at(old(reader).chars()) {
                Ok((variable, end)) => result == Ok::<Variable, ParseError>(variable)
                    && final(reader).index() == end && 0 <= end <= old(reader).chars().len(),
                Err(error) => result is Err && result->Err_0@ == error && error.within(
                    old(reader).chars(),
                ),
            },
    {
        let span = reader.span();
        let first = match reader.peek() {
            Some(first) => first,
            None => {
                return Err(ParseError { kind: ParseErrorKind::ExpectedVariable, start: 0, end: 0 });
            },
        };
        let name = match first {
            Char::Raw(name) => name,
            Char::Escaped(_, _) => {
                return Err(
                    ParseError {
                        kind: ParseErrorKind::UnknownVariable(first),
                        start: span.0,
                        end: span.1,
                    },
                );
            },
        };
        if is_digit(name) {
            return match parse_number(reader) {
                Ok(number) => Ok(Variable::CaptureGroup(number)),
                Err(error) => Err(error),
            };
        }
        reader.read();
        if name == 'f' {
            Ok(Variable::Filename)
        } else if name == 'b' {
            Ok(Variable::Basename)
        } else if name == 'e' {
            Ok(Variable::Extension)
        } else if name == 'E' {
            Ok(Variable::ExtensionWithDot)
        } else if name == 'c' {
            Ok(Variable::LocalCounter)
        } else if name == 'C' {
            Ok(Variable::GlobalCounter)
        } else if name == 'u' {
            Ok(Variable::Uuid)
        } else {
            Err(
                ParseError {
                    kind: ParseErrorKind::UnknownVariable(first),
                    start: span.0,
                    end: span.1,
                },
            )
        }
    }
}

} // verus!

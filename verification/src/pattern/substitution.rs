//! What a replacing transform looks for and what it puts in its place.

use crate::pattern::error::{ParseError, ParseErrorKind, Refusal};
use crate::pattern::reader::{find_value, lemma_find_value, text_between, Reader};
use crate::pattern::symbol::{width_before, Char};
use vstd::prelude::*;

verus! {

/// A text to find and the text that replaces it.
#[derive(Debug, PartialEq)]
pub struct Substitution {
    pub value: String,
    pub replacement: String,
}

/// What a substitution holds.
pub struct SubstitutionView {
    pub value: Seq<char>,
    pub replacement: Seq<char>,
}

impl View for Substitution {
    type V = SubstitutionView;

    open spec fn view(&self) -> SubstitutionView {
        SubstitutionView { value: self.value@, replacement: self.replacement@ }
    }
}

/// The substitution written from symbol `i` to the last symbol. Its first
/// symbol is the separator; the value to find runs up to the next
/// separator and must not be empty; the replacement is what follows, if
/// anything.
pub open spec fn substitution_at(chars: Seq<Char>, i: int) -> Result<SubstitutionView, Refusal> {
    if i >= chars.len() {
        Err(
            Refusal {
                kind: ParseErrorKind::ExpectedSubstitution,
                start: width_before(chars, i) as int,
                end: width_before(chars, i) as int,
            },
        )
    } else {
        let separator = chars[i];
        let end = find_value(chars, separator.value(), i + 1);
        if end == i + 1 {
            Err(
                Refusal {
                    kind: ParseErrorKind::SubstituteWithoutValue(separator),
                    start: width_before(chars, i) as int,
                    end: width_before(chars, i + 1) as int,
                },
            )
        } else {
            Ok(
                SubstitutionView {
                    value: text_between(chars, i + 1, end),
                    replacement: if end < chars.len() {
                        text_between(chars, end + 1, chars.len() as int)
                    } else {
                        Seq::empty()
                    },
                },
            )
        }
    }
}

impl Substitution {
    /// Reads a substitution, which takes all the symbols that are left.
    pub fn parse(reader: &mut Reader) -> (result: Result<Substitution, ParseError>)
        ensures
            final(reader).chars() == old(reader).chars(),
            0 <= old(reader).index() <= old(reader).chars().len(),
            match substitution_at(old(reader).chars(), old(reader).index()) {
                Ok(substitution) => result is Ok && result->Ok_0@ == substitution
                    && final(reader).index() == old(reader).chars().len(),
                Err(error) => result is Err && result->Err_0@ == error && error.within(
                    old(reader).chars(),
                ),
            },
    {
        let ghost chars = reader.chars();
        let ghost begin = reader.index();
        let span = reader.span();
        let separator = match reader.read() {
            Some(separator) => separator,
            None => {
                return Err(
                    ParseError {
                        kind: ParseErrorKind::ExpectedSubstitution,
                        start: span.0,
                        end: span.1,
                    },
                );
            },
        };
        proof {
            lemma_find_value(chars, separator.value(), begin + 1);
        }
        let (value, _) = reader.read_until(separator.as_char());
        if value.as_str().is_empty() {
            return Err(
                ParseError {
                    kind: ParseErrorKind::SubstituteWithoutValue(separator),
                    start: span.0,
                    end: span.1,
                },
            );
        }
        let replacement = reader.read_to_end();
        proof {
            let end = find_value(chars, separator.value(), begin + 1);
            assert(text_between(chars, begin + 1, end).len() == end - (begin + 1));
            if end >= chars.len() {
                assert(text_between(chars, chars.len() as int, chars.len() as int)
                    =~= Seq::<char>::empty());
            }
        }
        Ok(Substitution { value, replacement })
    }
}

} // verus!

//! Which field of a value a field filter keeps.

use crate::filter::number::{index_at, parse_index, within};
use crate::filter::parse::{Config, ConfigView, Error, ErrorView, Separator, SeparatorView};
use crate::pattern::reader::{text_between, Reader};
use crate::pattern::symbol::Char;
use vstd::prelude::*;

verus! {

/// The index of a field, counted from 0, and what separates the fields.
#[derive(Debug, PartialEq)]
pub struct Field {
    pub index: usize,
    pub separator: Separator,
}

/// What a field selection holds.
pub struct FieldView {
    pub index: nat,
    pub separator: SeparatorView,
}

impl View for Field {
    type V = FieldView;

    open spec fn view(&self) -> FieldView {
        FieldView { index: self.index as nat, separator: self.separator@ }
    }
}

/// The field selection written from symbol `i` to the last symbol: an
/// index, then either nothing, which stands for the configured separator,
/// or one delimiting symbol and the separating text.
pub open spec fn field_at(chars: Seq<Char>, i: int, config: ConfigView) -> Result<
    FieldView,
    ErrorView,
> {
    match index_at(chars, i) {
        Err(error) => Err(error),
        Ok((index, delimiter)) => if delimiter >= chars.len() {
            Ok(FieldView { index, separator: config.separator })
        } else {
            Ok(
                FieldView {
                    index,
                    separator: SeparatorView::String(
                        text_between(chars, delimiter + 1, chars.len() as int),
                    ),
                },
            )
        },
    }
}

impl Field {
    /// Reads a field selection, which takes all the symbols that are left.
    pub fn parse(reader: &mut Reader, config: &Config) -> (result: Result<Field, Error>)
        ensures
            final(reader).chars() == old(reader).chars(),
            0 <= old(reader).index() <= old(reader).chars().len(),
            match field_at(old(reader).chars(), old(reader).index(), config@) {
                Ok(field) => result is Ok && result->Ok_0@ == field && final(reader).index()
                    == old(reader).chars().len(),
                Err(error) => result is Err && result->Err_0@ == error && within(
                    error,
                    old(reader).chars(),
                ),
            },
    {
        let index = match parse_index(reader) {
            Ok(index) => index,
            Err(error) => {
                return Err(error);
            },
        };
        match reader.read() {
            None => Ok(Field { index, separator: config.separator.duplicate() }),
            Some(_) => Ok(Field { index, separator: Separator::String(reader.read_to_end()) }),
        }
    }
}

} // verus!

//! A cursor over the symbols of one member of an expression.

use crate::pattern::symbol::{
    duplicate, lemma_width_monotonic, lemma_width_step, values, width_before, width_of, Char,
};
use crate::text::{all_digits, is_decimal_digit, is_digit};
use vstd::prelude::*;

verus! {

/// Index of the first symbol at or after `i` that is no decimal digit.
pub open spec fn digits_end(chars: Seq<Char>, i: int) -> int
    decreases chars.len() - i,
{
    if 0 <= i < chars.len() && is_decimal_digit(chars[i].value()) {
        digits_end(chars, i + 1)
    } else {
        i
    }
}

/// Index of the first symbol at or after `i` that spells `c`, or the number
/// of symbols where there is none.
pub open spec fn find_value(chars: Seq<Char>, c: char, i: int) -> int
    decreases chars.len() - i,
{
    if 0 <= i < chars.len() && chars[i].value() != c {
        find_value(chars, c, i + 1)
    } else {
        i
    }
}

/// The characters spelled by the symbols from index `i` up to index `j`.
pub open spec fn text_between(chars: Seq<Char>, i: int, j: int) -> Seq<char> {
    values(chars.subrange(i, j))
}

/// Byte range of the symbol with index `i`, relative to the first symbol;
/// after the last symbol, the empty range at the end.
pub open spec fn span_at(chars: Seq<Char>, i: int) -> (nat, nat) {
    if i < chars.len() {
        (width_before(chars, i), width_before(chars, i + 1))
    } else {
        (width_before(chars, i), width_before(chars, i))
    }
}

/// A run of digits ends inside the symbols and holds digits only.
pub proof fn lemma_digits_end(chars: Seq<Char>, i: int)
    requires
        0 <= i <= chars.len(),
    ensures
        i <= digits_end(chars, i) <= chars.len(),
        all_digits(text_between(chars, i, digits_end(chars, i))),
        digits_end(chars, i) < chars.len() ==> !is_decimal_digit(
            chars[digits_end(chars, i)].value(),
        ),
    decreases chars.len() - i,
{
    if i < chars.len() && is_decimal_digit(chars[i].value()) {
        lemma_digits_end(chars, i + 1);
        let end = digits_end(chars, i);
        let text = text_between(chars, i, end);
        assert forall|k: int| 0 <= k < text.len() implies is_decimal_digit(#[trigger] text[k]) by {
            if k > 0 {
                assert(text[k] == text_between(chars, i + 1, end)[k - 1]);
            }
        }
    }
}

/// A search ends inside the symbols.
pub proof fn lemma_find_value(chars: Seq<Char>, c: char, i: int)
    requires
        0 <= i <= chars.len(),
    ensures
        i <= find_value(chars, c, i) <= chars.len(),
    decreases chars.len() - i,
{
    if i < chars.len() && chars[i].value() != c {
        lemma_find_value(chars, c, i + 1);
    }
}

/// Reads the symbols of one member of an expression from left to right.
pub struct Reader {
    chars: Vec<Char>,
    index: usize,
}

impl Reader {
    #[verifier::type_invariant]
    spec fn inv(self) -> bool {
        &&& self.index <= self.chars.len()
        &&& width_of(self.chars@) <= usize::MAX
    }

    /// The symbols that are read.
    pub closed spec fn chars(&self) -> Seq<Char> {
        self.chars@
    }

    /// Index of the next symbol to read.
    pub closed spec fn index(&self) -> int {
        self.index as int
    }

    /// A reader at the first of the given symbols.
    pub fn new(chars: Vec<Char>) -> (reader: Reader)
        requires
            width_of(chars@) <= usize::MAX,
        ensures
            reader.chars() == chars@,
            reader.index() == 0,
    {
        Reader { chars, index: 0 }
    }

    /// A reader at the first of the given symbols, or nothing where their
    /// width does not fit in `usize`.
    pub fn checked(chars: Vec<Char>) -> (reader: Option<Reader>)
        ensures
            reader is Some <==> width_of(chars@) <= usize::MAX,
            reader matches Some(reader) ==> reader.chars() == chars@ && reader.index() == 0,
    {
        let mut width: usize = 0;
        let mut i: usize = 0;
        proof {
            assert(chars@.take(0).len() == 0);
        }
        while i < chars.len()
            invariant
                i <= chars.len(),
                width == width_before(chars@, i as int),
            decreases chars.len() - i,
        {
            proof {
                lemma_width_step(chars@, i as int);
                lemma_width_monotonic(chars@, i as int + 1, chars.len() as int);
            }
            width = match width.checked_add(chars[i].len_utf8()) {
                Some(width) => width,
                None => {
                    return None;
                },
            };
            i += 1;
        }
        proof {
            lemma_width_monotonic(chars@, 0, chars.len() as int);
        }
        Some(Reader { chars, index: 0 })
    }

    /// A second reader over the same symbols, at the same place.
    pub fn fork(&self) -> (reader: Reader)
        ensures
            reader.chars() == self.chars(),
            reader.index() == self.index(),
    {
        proof {
            use_type_invariant(self);
        }
        let chars = duplicate(&self.chars);
        Reader { chars, index: self.index }
    }

    /// Byte offset of the symbol with index `index`, relative to the first
    /// symbol.
    pub fn offset(&self, index: usize) -> (position: usize)
        requires
            index <= self.chars().len(),
        ensures
            position == width_before(self.chars(), index as int),
            position <= width_of(self.chars()),
    {
        proof {
            use_type_invariant(self);
            lemma_width_monotonic(self.chars@, 0, index as int);
            assert(self.chars@.take(0).len() == 0);
        }
        let mut position: usize = 0;
        let mut i: usize = 0;
        while i < index
            invariant
                i <= index <= self.chars.len(),
                position == width_before(self.chars@, i as int),
                width_of(self.chars@) <= usize::MAX,
            decreases index - i,
        {
            proof {
                lemma_width_step(self.chars@, i as int);
                lemma_width_monotonic(self.chars@, i as int + 1, self.chars.len() as int);
            }
            position = position + self.chars[i].len_utf8();
            i += 1;
        }
        proof {
            lemma_width_monotonic(self.chars@, index as int, self.chars.len() as int);
        }
        position
    }

    /// Byte offset of the next symbol to read, relative to the first symbol.
    pub fn position(&self) -> (position: usize)
        ensures
            position == width_before(self.chars(), self.index()),
            position <= width_of(self.chars()),
            0 <= self.index() <= self.chars().len(),
    {
        proof {
            use_type_invariant(self);
        }
        self.offset(self.index)
    }

    /// Byte offset after the last symbol, relative to the first symbol.
    pub fn end(&self) -> (position: usize)
        ensures
            position == width_of(self.chars()),
    {
        proof {
            use_type_invariant(self);
            lemma_width_monotonic(self.chars@, 0, self.chars.len() as int);
        }
        self.offset(self.chars.len())
    }

    /// Byte range of the next symbol to read, relative to the first symbol;
    /// at the end, the empty range there.
    pub fn span(&self) -> (span: (usize, usize))
        ensures
            span.0 == span_at(self.chars(), self.index()).0,
            span.1 == span_at(self.chars(), self.index()).1,
            span.0 <= span.1 <= width_of(self.chars()),
    {
        proof {
            use_type_invariant(self);
        }
        let start = self.offset(self.index);
        if self.index < self.chars.len() {
            proof {
                lemma_width_step(self.chars@, self.index as int);
            }
            let end = self.offset(self.index + 1);
            (start, end)
        } else {
            (start, start)
        }
    }

    /// The next symbol, which stays to be read.
    pub fn peek(&self) -> (next: Option<Char>)
        ensures
            0 <= self.index() <= self.chars().len(),
            self.index() < self.chars().len() ==> next == Some(self.chars()[self.index()]),
            self.index() == self.chars().len() ==> next is None,
    {
        proof {
            use_type_invariant(self);
        }
        if self.index < self.chars.len() {
            Some(self.chars[self.index])
        } else {
            None
        }
    }

    /// Reads the next symbol.
    pub fn read(&mut self) -> (next: Option<Char>)
        ensures
            final(self).chars() == old(self).chars(),
            0 <= old(self).index() <= old(self).chars().len(),
            old(self).index() < old(self).chars().len() ==> next == Some(
                old(self).chars()[old(self).index()],
            ) && final(self).index() == old(self).index() + 1,
            old(self).index() == old(self).chars().len() ==> next is None && final(self).index()
                == old(self).index(),
    {
        proof {
            use_type_invariant(&*self);
        }
        if self.index < self.chars.len() {
            let next = self.chars[self.index];
            self.index = self.index + 1;
            Some(next)
        } else {
            None
        }
    }

    /// Reads what the rest of the symbols spells.
    pub fn read_to_end(&mut self) -> (text: String)
        ensures
            final(self).chars() == old(self).chars(),
            final(self).index() == old(self).chars().len(),
            0 <= old(self).index() <= old(self).chars().len(),
            text@ == text_between(old(self).chars(), old(self).index(), old(self).chars().len() as int),
    {
        proof {
            use_type_invariant(&*self);
        }
        let end = self.chars.len();
        self.read_text(end)
    }

    /// Reads what the symbols up to the one with index `end` spell.
    fn read_text(&mut self, end: usize) -> (text: String)
        requires
            old(self).index() <= end <= old(self).chars().len(),
        ensures
            final(self).chars() == old(self).chars(),
            final(self).index() == end,
            text@ == text_between(old(self).chars(), old(self).index(), end as int),
    {
        proof {
            use_type_invariant(&*self);
        }
        let ghost begin = self.index as int;
        let mut text = String::new();
        while self.index < end
            invariant
                self.inv(),
                self.chars@ == old(self).chars@,
                0 <= begin <= self.index <= end <= self.chars.len(),
                text@ == text_between(self.chars@, begin, self.index as int),
            decreases end - self.index,
        {
            text.push(self.chars[self.index].as_char());
            self.index = self.index + 1;
            proof {
                let i = self.index as int;
                assert(self.chars@.subrange(begin, i) == self.chars@.subrange(begin, i - 1).push(
                    self.chars@[i - 1],
                ));
            }
        }
        text
    }

    /// Reads the run of decimal digits that starts at the next symbol.
    pub fn read_digits(&mut self) -> (digits: Vec<char>)
        ensures
            final(self).chars() == old(self).chars(),
            final(self).index() == digits_end(old(self).chars(), old(self).index()),
            0 <= old(self).index() <= final(self).index() <= old(self).chars().len(),
            digits@ == text_between(old(self).chars(), old(self).index(), final(self).index()),
            all_digits(digits@),
    {
        proof {
            use_type_invariant(&*self);
            lemma_digits_end(self.chars@, self.index as int);
        }
        let ghost begin = self.index as int;
        let mut digits: Vec<char> = Vec::new();
        while self.index < self.chars.len() && is_digit(self.chars[self.index].as_char())
            invariant
                self.inv(),
                self.chars@ == old(self).chars@,
                0 <= begin <= self.index <= self.chars.len(),
                digits_end(self.chars@, begin) == digits_end(self.chars@, self.index as int),
                digits@ == text_between(self.chars@, begin, self.index as int),
            decreases self.chars.len() - self.index,
        {
            digits.push(self.chars[self.index].as_char());
            self.index = self.index + 1;
            proof {
                let i = self.index as int;
                assert(self.chars@.subrange(begin, i) == self.chars@.subrange(begin, i - 1).push(
                    self.chars@[i - 1],
                ));
            }
        }
        digits
    }

    /// Reads what is spelled up to the next symbol that spells `delimiter`,
    /// and that symbol too. Tells whether the delimiter was there.
    pub fn read_until(&mut self, delimiter: char) -> (result: (String, bool))
        ensures
            final(self).chars() == old(self).chars(),
            0 <= old(self).index() <= old(self).chars().len(),
            result.0@ == text_between(
                old(self).chars(),
                old(self).index(),
                find_value(old(self).chars(), delimiter, old(self).index()),
            ),
            result.1 == (find_value(old(self).chars(), delimiter, old(self).index()) < old(self).chars().len()),
            result.1 ==> final(self).index() == find_value(
                old(self).chars(),
                delimiter,
                old(self).index(),
            ) + 1,
            !result.1 ==> final(self).index() == old(self).chars().len(),
    {
        proof {
            use_type_invariant(&*self);
            lemma_find_value(self.chars@, delimiter, self.index as int);
        }
        let ghost begin = self.index as int;
        let mut end = self.index;
        while end < self.chars.len() && self.chars[end].as_char() != delimiter
            invariant
                self.inv(),
                self.index == begin,
                self.chars@ == old(self).chars@,
                begin <= end <= self.chars.len(),
                find_value(self.chars@, delimiter, begin) == find_value(
                    self.chars@,
                    delimiter,
                    end as int,
                ),
            decreases self.chars.len() - end,
        {
            end = end + 1;
        }
        let text = self.read_text(end);
        proof {
            use_type_invariant(&*self);
        }
        if self.index < self.chars.len() {
            self.index = self.index + 1;
            (text, true)
        } else {
            (text, false)
        }
    }
}

} // verus!

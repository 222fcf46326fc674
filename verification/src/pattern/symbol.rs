//! The characters of a pattern after escape sequences have been resolved.

use crate::text::{char_len_utf8, utf8_width};
use vstd::prelude::*;

verus! {

/// The two characters of an escape sequence as they stand in the source.
pub type EscapeSequence = [char; 2];

/// One character of a pattern.
#[derive(Debug, Clone, Copy, PartialEq, Eq)]
pub enum Char {
    /// A character that stands for itself.
    Raw(char),
    /// A character produced by an escape sequence, with that sequence.
    Escaped(char, EscapeSequence),
}

impl Char {
    /// The character that this symbol contributes to a value.
    pub open spec fn value(self) -> char {
        match self {
            Char::Raw(c) => c,
            Char::Escaped(c, _) => c,
        }
    }

    /// Number of source bytes that this symbol was read from.
    pub open spec fn width(self) -> nat {
        match self {
            Char::Raw(c) => utf8_width(c),
            Char::Escaped(_, sequence) => utf8_width(sequence[0]) + utf8_width(sequence[1]),
        }
    }

    /// True for a raw character equal to `c`.
    pub open spec fn is_raw(self, c: char) -> bool {
        self == Char::Raw(c)
    }

    /// The character that this symbol contributes to a value.
    pub fn as_char(&self) -> (c: char)
        ensures
            c == self.value(),
    {
        match self {
            Char::Raw(c) => *c,
            Char::Escaped(c, _) => *c,
        }
    }

    /// Number of source bytes that this symbol was read from.
    pub fn len_utf8(&self) -> (n: usize)
        ensures
            n == self.width(),
            1 <= n <= 8,
    {
        match self {
            Char::Raw(c) => char_len_utf8(*c),
            Char::Escaped(_, sequence) => char_len_utf8(sequence[0]) + char_len_utf8(sequence[1]),
        }
    }

    /// Tells whether this is the raw character `c`.
    pub fn is(&self, c: char) -> (b: bool)
        ensures
            b == self.is_raw(c),
    {
        match self {
            Char::Raw(value) => *value == c,
            Char::Escaped(_, _) => false,
        }
    }

    /// The string that the symbols spell.
    pub fn join(chars: &Vec<Char>) -> (s: String)
        ensures
            s@ == values(chars@),
    {
        let mut s = String::new();
        let mut i: usize = 0;
        while i < chars.len()
            invariant
                i <= chars.len(),
                s@ == values(chars@.take(i as int)),
            decreases chars.len() - i,
        {
            s.push(chars[i].as_char());
            i += 1;
            assert(chars@.take(i as int) == chars@.take(i as int - 1).push(chars@[i as int - 1]));
        }
        assert(chars@.take(chars.len() as int) == chars@);
        s
    }
}

/// A vector that holds the same symbols.
pub fn duplicate(chars: &Vec<Char>) -> (copy: Vec<Char>)
    ensures
        copy@ == chars@,
{
    let mut copy: Vec<Char> = Vec::new();
    let mut i: usize = 0;
    while i < chars.len()
        invariant
            i <= chars.len(),
            copy@ == chars@.take(i as int),
        decreases chars.len() - i,
    {
        copy.push(chars[i]);
        i += 1;
        assert(chars@.take(i as int) == chars@.take(i as int - 1).push(chars@[i as int - 1]));
    }
    assert(chars@.take(chars.len() as int) == chars@);
    copy
}

/// The characters that a sequence of symbols spells.
pub open spec fn values(chars: Seq<Char>) -> Seq<char> {
    chars.map_values(|c: Char| c.value())
}

/// Number of source bytes that a sequence of symbols was read from.
pub open spec fn width_of(chars: Seq<Char>) -> nat
    decreases chars.len(),
{
    if chars.len() == 0 {
        0
    } else {
        width_of(chars.drop_last()) + chars.last().width()
    }
}

/// Width of the first `i` symbols.
pub open spec fn width_before(chars: Seq<Char>, i: int) -> nat {
    width_of(chars.take(i))
}

/// One symbol further, the width grows by that symbol's width.
pub proof fn lemma_width_step(chars: Seq<Char>, i: int)
    requires
        0 <= i < chars.len(),
    ensures
        width_before(chars, i + 1) == width_before(chars, i) + chars[i].width(),
        width_before(chars, 0) == 0,
{
    assert(chars.take(i + 1).drop_last() == chars.take(i));
    assert(chars.take(0).len() == 0);
}

/// No symbol was read from more than eight bytes.
pub proof fn lemma_width_bound(chars: Seq<Char>)
    ensures
        width_of(chars) <= 8 * chars.len(),
    decreases chars.len(),
{
    if chars.len() > 0 {
        lemma_width_bound(chars.drop_last());
    }
}

/// The width of a prefix never exceeds the width of the whole.
pub proof fn lemma_width_monotonic(chars: Seq<Char>, i: int, j: int)
    requires
        0 <= i <= j <= chars.len(),
    ensures
        width_before(chars, i) <= width_before(chars, j),
        width_before(chars, chars.len() as int) == width_of(chars),
    decreases j - i,
{
    assert(chars.take(chars.len() as int) == chars);
    if i < j {
        lemma_width_monotonic(chars, i, j - 1);
        lemma_width_step(chars, j - 1);
    }
}

} // verus!

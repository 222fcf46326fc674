//! Splits a pattern into constants and the marks of an expression.

use crate::pattern::symbol::{width_of, Char};
use crate::text::{
    byte_offset, byte_offsets, chars_of, lemma_byte_offset_monotonic, lemma_byte_offset_step,
    lemma_utf8_len_is_encoded_len, utf8_len,
};
use vstd::prelude::*;

verus! {

/// Opens an expression.
pub const EXPR_START: char = '{';

/// Closes an expression.
pub const EXPR_END: char = '}';

/// Separates the members of an expression.
pub const PIPE: char = '|';

/// The escape character used unless another one is chosen.
pub const DEFAULT_ESCAPE: char = '\\';

/// A value together with the byte range of the source it was read from.
#[derive(Debug, PartialEq)]
pub struct Parsed<T> {
    pub value: T,
    pub start: usize,
    pub end: usize,
}

/// What a parsed value holds, with the byte range it was read from.
pub struct Spanned<V> {
    pub value: V,
    pub start: int,
    pub end: int,
}

impl<T: View> View for Parsed<T> {
    type V = Spanned<T::V>;

    open spec fn view(&self) -> Spanned<T::V> {
        Spanned { value: self.value@, start: self.start as int, end: self.end as int }
    }
}

/// True where the ranges of the values follow one another without a gap
/// from `start` to `end`, none of them empty.
pub open spec fn contiguous<V>(items: Seq<Spanned<V>>, start: int, end: int) -> bool
    decreases items.len(),
{
    if items.len() == 0 {
        start == end
    } else {
        &&& items[0].start == start
        &&& items[0].start < items[0].end
        &&& contiguous(items.drop_first(), items[0].end, end)
    }
}

/// The bytes that the ranges of the values cut out of `bytes`, joined in
/// the order of the values.
pub open spec fn joined<V>(bytes: Seq<u8>, items: Seq<Spanned<V>>) -> Seq<u8>
    decreases items.len(),
{
    if items.len() == 0 {
        Seq::empty()
    } else {
        bytes.subrange(items[0].start, items[0].end) + joined(bytes, items.drop_first())
    }
}

/// Ranges that follow one another end where they are said to end.
pub proof fn lemma_contiguous_bounds<V>(items: Seq<Spanned<V>>, start: int, end: int)
    requires
        contiguous(items, start, end),
    ensures
        start <= end,
        items.len() > 0 ==> start < end,
    decreases items.len(),
{
    if items.len() > 0 {
        lemma_contiguous_bounds(items.drop_first(), items[0].end, end);
    }
}

/// Ranges that follow one another cut out, joined, the bytes from the
/// start of the first to the end of the last.
pub proof fn lemma_contiguous_joined<V>(
    bytes: Seq<u8>,
    items: Seq<Spanned<V>>,
    start: int,
    end: int,
)
    requires
        contiguous(items, start, end),
        0 <= start,
        end <= bytes.len(),
    ensures
        joined(bytes, items) == bytes.subrange(start, end),
    decreases items.len(),
{
    lemma_contiguous_bounds(items, start, end);
    if items.len() == 0 {
        assert(bytes.subrange(start, end) =~= Seq::<u8>::empty());
    } else {
        lemma_contiguous_bounds(items.drop_first(), items[0].end, end);
        lemma_contiguous_joined(bytes, items.drop_first(), items[0].end, end);
        assert(bytes.subrange(start, items[0].end) + bytes.subrange(items[0].end, end)
            =~= bytes.subrange(start, end));
    }
}

/// Of ranges that follow one another, an earlier one ends before a later
/// one starts, and all lie between the two ends.
pub proof fn lemma_contiguous_ordered<V>(
    items: Seq<Spanned<V>>,
    start: int,
    end: int,
    i: int,
    j: int,
)
    requires
        contiguous(items, start, end),
        0 <= i < j < items.len(),
    ensures
        start <= items[i].start < items[i].end <= items[j].start < items[j].end <= end,
    decreases items.len(),
{
    let rest = items.drop_first();
    lemma_contiguous_bounds(rest, items[0].end, end);
    if i == 0 {
        if j == 1 {
            lemma_contiguous_bounds(rest.drop_first(), rest[0].end, end);
        } else {
            lemma_contiguous_ordered(rest, items[0].end, end, 0, j - 1);
        }
    } else {
        lemma_contiguous_ordered(rest, items[0].end, end, i - 1, j - 1);
    }
}

/// Each of the ranges that follow one another lies between the two ends.
pub proof fn lemma_contiguous_within<V>(items: Seq<Spanned<V>>, start: int, end: int, i: int)
    requires
        contiguous(items, start, end),
        0 <= i < items.len(),
    ensures
        start <= items[i].start < items[i].end <= end,
    decreases items.len(),
{
    lemma_contiguous_bounds(items.drop_first(), items[0].end, end);
    if i > 0 {
        lemma_contiguous_within(items.drop_first(), items[0].end, end, i - 1);
    }
}

/// What each value of a sequence holds.
pub open spec fn views<T: View>(values: Seq<T>) -> Seq<T::V> {
    values.map_values(|value: T| value@)
}

/// The units that a pattern is made of.
#[derive(Debug, PartialEq)]
pub enum Token {
    /// A run of ordinary characters.
    Raw(Vec<Char>),
    /// The start of an expression.
    ExprStart,
    /// The end of an expression.
    ExprEnd,
    /// The separator inside an expression.
    Pipe,
}

/// What a token holds.
pub enum TokenView {
    Raw(Seq<Char>),
    ExprStart,
    ExprEnd,
    Pipe,
}

impl View for Token {
    type V = TokenView;

    open spec fn view(&self) -> TokenView {
        match self {
            Token::Raw(chars) => TokenView::Raw(chars@),
            Token::ExprStart => TokenView::ExprStart,
            Token::ExprEnd => TokenView::ExprEnd,
            Token::Pipe => TokenView::Pipe,
        }
    }
}

/// True for the three characters that structure a pattern.
pub open spec fn is_meta(c: char) -> bool {
    c == EXPR_START || c == EXPR_END || c == PIPE
}

/// The character that follows the escape character stands for itself, but
/// for `n`, `r` and `t`, which give a line feed, a carriage return and a tab.
pub open spec fn unescape(c: char) -> char {
    if c == 'n' {
        '\n'
    } else if c == 'r' {
        '\r'
    } else if c == 't' {
        '\t'
    } else {
        c
    }
}

/// The symbol that starts at index `i` of the source, where `i` lies inside
/// a run of ordinary characters. An escape character at the very end of the
/// source stands for itself.
pub open spec fn symbol_at(source: Seq<char>, escape: char, i: int) -> Char {
    if source[i] == escape && i + 1 < source.len() {
        Char::Escaped(unescape(source[i + 1]), [escape, source[i + 1]])
    } else {
        Char::Raw(source[i])
    }
}

/// Index of the character after the symbol that starts at index `i`.
pub open spec fn symbol_end(source: Seq<char>, escape: char, i: int) -> int {
    if source[i] == escape && i + 1 < source.len() {
        i + 2
    } else {
        i + 1
    }
}

/// True where a run of ordinary characters ends: at the end of the source
/// and before a structuring character.
pub open spec fn at_boundary(source: Seq<char>, i: int) -> bool {
    i >= source.len() || is_meta(source[i])
}

/// The symbols of the run of ordinary characters that starts at index `i`.
pub open spec fn raw_symbols(source: Seq<char>, escape: char, i: int) -> Seq<Char>
    decreases source.len() - i,
{
    if i < 0 || at_boundary(source, i) {
        Seq::empty()
    } else {
        seq![symbol_at(source, escape, i)] + raw_symbols(
            source,
            escape,
            symbol_end(source, escape, i),
        )
    }
}

/// Index of the character after the run of ordinary characters that starts
/// at index `i`.
pub open spec fn raw_end(source: Seq<char>, escape: char, i: int) -> int
    decreases source.len() - i,
{
    if i < 0 || at_boundary(source, i) {
        i
    } else {
        raw_end(source, escape, symbol_end(source, escape, i))
    }
}

/// The token that starts at index `i` of the source, if the source goes on.
pub open spec fn token_at(source: Seq<char>, escape: char, i: int) -> Option<TokenView> {
    if i < 0 || i >= source.len() {
        None
    } else if source[i] == EXPR_START {
        Some(TokenView::ExprStart)
    } else if source[i] == EXPR_END {
        Some(TokenView::ExprEnd)
    } else if source[i] == PIPE {
        Some(TokenView::Pipe)
    } else {
        Some(TokenView::Raw(raw_symbols(source, escape, i)))
    }
}

/// Index of the character after the token that starts at index `i`.
pub open spec fn token_end(source: Seq<char>, escape: char, i: int) -> int {
    if i < 0 || i >= source.len() {
        i
    } else if is_meta(source[i]) {
        i + 1
    } else {
        raw_end(source, escape, i)
    }
}

/// A run of ordinary characters ends inside the source, and after where it
/// started unless it is empty.
pub proof fn lemma_raw_end_bounds(source: Seq<char>, escape: char, i: int)
    requires
        0 <= i <= source.len(),
    ensures
        i <= raw_end(source, escape, i) <= source.len(),
        !at_boundary(source, i) ==> i < raw_end(source, escape, i),
        !at_boundary(source, i) ==> raw_symbols(source, escape, i).len() > 0,
    decreases source.len() - i,
{
    if !at_boundary(source, i) {
        lemma_raw_end_bounds(source, escape, symbol_end(source, escape, i));
    }
}

/// A token ends inside the source, and after where it started.
pub proof fn lemma_token_end_bounds(source: Seq<char>, escape: char, i: int)
    requires
        0 <= i <= source.len(),
    ensures
        i <= token_end(source, escape, i) <= source.len(),
        i < source.len() ==> i < token_end(source, escape, i),
{
    lemma_raw_end_bounds(source, escape, i);
}

/// The symbols of a run of ordinary characters were read from exactly the
/// bytes of that run.
pub proof fn lemma_raw_width(source: Seq<char>, escape: char, i: int)
    requires
        0 <= i <= source.len(),
    ensures
        byte_offset(source, raw_end(source, escape, i)) == byte_offset(source, i) + width_of(
            raw_symbols(source, escape, i),
        ),
    decreases source.len() - i,
{
    if !at_boundary(source, i) {
        let next = symbol_end(source, escape, i);
        let symbol = symbol_at(source, escape, i);
        let rest = raw_symbols(source, escape, next);
        lemma_raw_width(source, escape, next);
        lemma_byte_offset_step(source, i);
        if next == i + 2 {
            lemma_byte_offset_step(source, i + 1);
        }
        lemma_width_concat(seq![symbol], rest);
        assert(seq![symbol].drop_last().len() == 0);
        assert(width_of(seq![symbol].drop_last()) == 0);
    }
}

/// The width of a concatenation is the sum of the widths.
pub proof fn lemma_width_concat(a: Seq<Char>, b: Seq<Char>)
    ensures
        width_of(a + b) == width_of(a) + width_of(b),
    decreases b.len(),
{
    if b.len() == 0 {
        assert(a + b == a);
    } else {
        lemma_width_concat(a, b.drop_last());
        assert((a + b).drop_last() == a + b.drop_last());
    }
}

/// Reads the tokens of a pattern one after another.
pub struct Lexer {
    chars: Vec<char>,
    offsets: Vec<usize>,
    escape: char,
    index: usize,
}

impl Lexer {
    #[verifier::type_invariant]
    spec fn inv(self) -> bool {
        &&& self.index <= self.chars.len()
        &&& self.offsets.len() == self.chars.len() + 1
        &&& forall|i: int| 0 <= i <= self.chars.len() ==> self.offsets[i] == byte_offset(self.chars@, i)
    }

    /// The characters of the pattern.
    pub closed spec fn source(&self) -> Seq<char> {
        self.chars@
    }

    /// The escape character.
    pub closed spec fn escape(&self) -> char {
        self.escape
    }

    /// Index of the next character to read.
    pub closed spec fn index(&self) -> int {
        self.index as int
    }

    /// A lexer at the start of `input`.
    pub fn new(input: &str, escape: char) -> (lexer: Lexer)
        ensures
            lexer.source() == input@,
            lexer.escape() == escape,
            lexer.index() == 0,
    {
        let chars = chars_of(input);
        let length = input.as_bytes().len();
        proof {
            lemma_utf8_len_is_encoded_len(input@);
            assert(utf8_len(chars@) == length);
        }
        let offsets = byte_offsets(&chars);
        Lexer { chars, offsets, escape, index: 0 }
    }

    /// The characters of the pattern.
    pub fn chars(&self) -> (chars: &Vec<char>)
        ensures
            chars@ == self.source(),
    {
        &self.chars
    }

    /// Byte offset of the character with index `index`; for the number of
    /// characters, the length of the pattern in bytes.
    pub fn offset(&self, index: usize) -> (position: usize)
        requires
            index <= self.source().len(),
        ensures
            position == byte_offset(self.source(), index as int),
    {
        proof {
            use_type_invariant(self);
        }
        self.offsets[index]
    }

    /// The escape character.
    pub fn escape_char(&self) -> (escape: char)
        ensures
            escape == self.escape(),
    {
        self.escape
    }

    /// Index of the next character to read.
    pub fn cursor(&self) -> (index: usize)
        ensures
            index == self.index(),
            index <= self.source().len(),
    {
        proof {
            use_type_invariant(self);
        }
        self.index
    }

    /// Goes on reading at the character with index `index`.
    pub fn seek(&mut self, index: usize)
        requires
            index <= old(self).source().len(),
        ensures
            final(self).source() == old(self).source(),
            final(self).escape() == old(self).escape(),
            final(self).index() == index,
    {
        proof {
            use_type_invariant(&*self);
        }
        self.index = index;
    }

    /// Byte offset of the next character to read.
    pub fn position(&self) -> (position: usize)
        ensures
            position == byte_offset(self.source(), self.index()),
            0 <= self.index() <= self.source().len(),
    {
        proof {
            use_type_invariant(self);
        }
        self.offsets[self.index]
    }

    /// Reads the next token, or nothing at the end of the pattern. The
    /// token's range is given in bytes of the source.
    pub fn read_token(&mut self) -> (token: Option<Parsed<Token>>)
        ensures
            final(self).source() == old(self).source(),
            final(self).escape() == old(self).escape(),
            final(self).index() == token_end(old(self).source(), old(self).escape(), old(self).index()),
            old(self).index() <= final(self).index() <= final(self).source().len(),
            token is Some == token_at(old(self).source(), old(self).escape(), old(self).index()) is Some,
            token matches Some(parsed) ==> {
                &&& Some(parsed.value@) == token_at(
                    old(self).source(),
                    old(self).escape(),
                    old(self).index(),
                )
                &&& parsed.start == byte_offset(old(self).source(), old(self).index())
                &&& parsed.end == byte_offset(final(self).source(), final(self).index())
                &&& parsed.start < parsed.end
                &&& parsed.value matches Token::Raw(chars) ==> {
                    &&& parsed.end == parsed.start + width_of(chars@)
                    &&& chars@.len() > 0
                }
            },
    {
        proof {
            use_type_invariant(&*self);
        }
        if self.index >= self.chars.len() {
            return None;
        }
        let start = self.offsets[self.index];
        let first = self.chars[self.index];
        proof {
            lemma_byte_offset_step(self.chars@, self.index as int);
        }
        let value = if first == EXPR_START {
            self.index = self.index + 1;
            Token::ExprStart
        } else if first == EXPR_END {
            self.index = self.index + 1;
            Token::ExprEnd
        } else if first == PIPE {
            self.index = self.index + 1;
            Token::Pipe
        } else {
            Token::Raw(self.read_chars())
        };
        proof {
            use_type_invariant(&*self);
            lemma_raw_width(old(self).chars@, old(self).escape, old(self).index as int);
            lemma_raw_end_bounds(old(self).chars@, old(self).escape, old(self).index as int);
            lemma_byte_offset_monotonic(self.chars@, old(self).index as int + 1, self.index as int);
        }
        let end = self.offsets[self.index];
        Some(Parsed { value, start, end })
    }

    /// Reads a run of ordinary characters, resolving escape sequences.
    fn read_chars(&mut self) -> (chars: Vec<Char>)
        ensures
            final(self).source() == old(self).source(),
            final(self).escape() == old(self).escape(),
            final(self).index() == raw_end(old(self).source(), old(self).escape(), old(self).index()),
            chars@ == raw_symbols(old(self).source(), old(self).escape(), old(self).index()),
    {
        proof {
            use_type_invariant(&*self);
        }
        let mut chars: Vec<Char> = Vec::new();
        let ghost source = self.chars@;
        let ghost escape = self.escape;
        let ghost begin = self.index as int;
        while self.index < self.chars.len() && !(self.chars[self.index] == EXPR_START
            || self.chars[self.index] == EXPR_END || self.chars[self.index] == PIPE)
            invariant
                self.chars@ == source,
                self.escape == escape,
                self.inv(),
                0 <= begin <= self.index,
                raw_end(source, escape, begin) == raw_end(source, escape, self.index as int),
                raw_symbols(source, escape, begin) == chars@ + raw_symbols(
                    source,
                    escape,
                    self.index as int,
                ),
            decreases self.chars.len() - self.index,
        {
            let ghost i = self.index as int;
            let ghost before = chars@;
            let value = self.chars[self.index];
            if value == self.escape && self.index + 1 < self.chars.len() {
                let next = self.chars[self.index + 1];
                chars.push(Char::Escaped(unescape_char(next), [value, next]));
                self.index = self.index + 2;
            } else {
                chars.push(Char::Raw(value));
                self.index = self.index + 1;
            }
            proof {
                let rest = raw_symbols(source, escape, self.index as int);
                assert(raw_symbols(source, escape, i) == seq![symbol_at(source, escape, i)] + rest);
                assert(before + (seq![symbol_at(source, escape, i)] + rest) == chars@ + rest);
            }
        }
        proof {
            assert(chars@ + Seq::<Char>::empty() == chars@);
        }
        chars
    }
}

/// Resolves the character that follows the escape character.
pub fn unescape_char(c: char) -> (value: char)
    ensures
        value == unescape(c),
{
    if c == 'n' {
        '\n'
    } else if c == 'r' {
        '\r'
    } else if c == 't' {
        '\t'
    } else {
        c
    }
}

} // verus!

//! Characters, their UTF-8 widths and the byte offsets they induce in a text.

use vstd::prelude::*;
use vstd::utf8::*;

verus! {

/// Appending one character to a `String` extends its character sequence by
/// that character, as the standard library documents for `String::push`.
pub assume_specification[ std::string::String::push ](s: &mut std::string::String, c: char)
    ensures
        final(s)@ == old(s)@.push(c),
;

/// Number of bytes that the UTF-8 encoding of `c` takes.
pub open spec fn utf8_width(c: char) -> nat {
    let v = c as u32;
    if v <= 0x7F {
        1
    } else if v <= 0x7FF {
        2
    } else if v <= 0xFFFF {
        3
    } else {
        4
    }
}

/// Number of bytes that the UTF-8 encoding of `s` takes.
pub open spec fn utf8_len(s: Seq<char>) -> nat
    decreases s.len(),
{
    if s.len() == 0 {
        0
    } else {
        utf8_len(s.drop_last()) + utf8_width(s.last())
    }
}

/// Byte offset at which the character with index `i` starts in the UTF-8
/// encoding of `s`; for `i == s.len()` the length of the encoding.
pub open spec fn byte_offset(s: Seq<char>, i: int) -> nat {
    utf8_len(s.take(i))
}

/// Computes the UTF-8 width of a character.
pub fn char_len_utf8(c: char) -> (n: usize)
    ensures
        n == utf8_width(c),
        1 <= n <= 4,
{
    let v: u32 = c as u32;
    if v <= 0x7F {
        1
    } else if v <= 0x7FF {
        2
    } else if v <= 0xFFFF {
        3
    } else {
        4
    }
}

/// The width of a character is the length of its encoded form.
pub proof fn lemma_width_is_encoded_len(c: char)
    ensures
        encode_scalar(c as u32).len() == utf8_width(c),
{
    char_is_scalar(c);
}

/// The length of a concatenation is the sum of the lengths.
pub proof fn lemma_utf8_len_concat(a: Seq<char>, b: Seq<char>)
    ensures
        utf8_len(a + b) == utf8_len(a) + utf8_len(b),
    decreases b.len(),
{
    if b.len() == 0 {
        assert(a + b == a);
    } else {
        lemma_utf8_len_concat(a, b.drop_last());
        assert((a + b).drop_last() == a + b.drop_last());
    }
}

/// `utf8_len` agrees with the length of the encoding that `vstd` defines.
pub proof fn lemma_utf8_len_is_encoded_len(s: Seq<char>)
    ensures
        utf8_len(s) == encode_utf8(s).len(),
    decreases s.len(),
{
    if s.len() > 0 {
        let head = seq![s[0]];
        let tail = s.drop_first();
        lemma_utf8_len_is_encoded_len(tail);
        lemma_width_is_encoded_len(s[0]);
        assert(head + tail == s);
        lemma_utf8_len_concat(head, tail);
        assert(head.drop_last().len() == 0);
        assert(utf8_len(head.drop_last()) == 0);
        assert(head.last() == s[0]);
        assert(utf8_len(head) == utf8_width(s[0]));
    }
}

/// Byte offsets grow with the character index.
pub proof fn lemma_byte_offset_monotonic(s: Seq<char>, i: int, j: int)
    requires
        0 <= i <= j <= s.len(),
    ensures
        byte_offset(s, i) <= byte_offset(s, j),
        byte_offset(s, j) == byte_offset(s, i) + utf8_len(s.subrange(i, j)),
{
    assert(s.take(j) == s.take(i) + s.subrange(i, j));
    lemma_utf8_len_concat(s.take(i), s.subrange(i, j));
}

/// One character further, the offset grows by that character's width.
pub proof fn lemma_byte_offset_step(s: Seq<char>, i: int)
    requires
        0 <= i < s.len(),
    ensures
        byte_offset(s, i + 1) == byte_offset(s, i) + utf8_width(s[i]),
        byte_offset(s, 0) == 0,
{
    assert(s.take(i + 1).drop_last() == s.take(i));
    assert(s.take(0).len() == 0);
}

/// The characters of a string slice, in order.
pub fn chars_of(s: &str) -> (chars: Vec<char>)
    ensures
        chars@ == s@,
{
    let mut chars: Vec<char> = Vec::new();
    for c in it: s.chars()
        invariant
            chars@ == it.seq().take(it.index() as int),
    {
        chars.push(c);
    }
    chars
}

/// The string made of the given characters.
pub fn string_of(chars: &Vec<char>) -> (s: String)
    ensures
        s@ == chars@,
{
    let mut s = String::new();
    let mut i: usize = 0;
    while i < chars.len()
        invariant
            i <= chars.len(),
            s@ == chars@.take(i as int),
        decreases chars.len() - i,
    {
        s.push(chars[i]);
        i += 1;
        assert(chars@.take(i as int) == chars@.take(i as int - 1).push(chars@[i as int - 1]));
    }
    assert(chars@.take(chars.len() as int) == chars@);
    s
}

/// The table of byte offsets of a text: entry `i` is the offset of the
/// character with index `i`, and the last entry is the encoded length.
pub(crate) fn byte_offsets(chars: &Vec<char>) -> (offsets: Vec<usize>)
    requires
        utf8_len(chars@) <= usize::MAX,
    ensures
        offsets.len() == chars.len() + 1,
        forall|i: int| 0 <= i <= chars.len() ==> offsets[i] == byte_offset(chars@, i),
{
    let mut offsets: Vec<usize> = Vec::new();
    let mut position: usize = 0;
    let mut i: usize = 0;
    proof {
        assert(chars@.take(0).len() == 0);
    }
    while i < chars.len()
        invariant
            i <= chars.len(),
            offsets.len() == i,
            position == byte_offset(chars@, i as int),
            utf8_len(chars@) <= usize::MAX,
            forall|k: int| 0 <= k < i ==> offsets[k] == byte_offset(chars@, k),
        decreases chars.len() - i,
    {
        proof {
            lemma_byte_offset_step(chars@, i as int);
            lemma_byte_offset_monotonic(chars@, i as int + 1, chars.len() as int);
            assert(chars@.take(chars.len() as int) == chars@);
        }
        offsets.push(position);
        position = position + char_len_utf8(chars[i]);
        i += 1;
    }
    offsets.push(position);
    offsets
}

/// True for the ten decimal digits.
pub open spec fn is_decimal_digit(c: char) -> bool {
    '0' <= c <= '9'
}

/// The number that a decimal digit stands for.
pub open spec fn digit_value(c: char) -> nat {
    (c as u32 - '0' as u32) as nat
}

/// The number that a run of decimal digits spells; 0 for the empty run.
pub open spec fn decimal_value(digits: Seq<char>) -> nat
    decreases digits.len(),
{
    if digits.len() == 0 {
        0
    } else {
        decimal_value(digits.drop_last()) * 10 + digit_value(digits.last())
    }
}

/// True where every character is a decimal digit.
pub open spec fn all_digits(digits: Seq<char>) -> bool {
    forall|i: int| 0 <= i < digits.len() ==> is_decimal_digit(#[trigger] digits[i])
}

/// A run of digits spells at least what each of its prefixes spells.
pub proof fn lemma_decimal_value_monotonic(digits: Seq<char>, i: int)
    requires
        0 <= i <= digits.len(),
    ensures
        decimal_value(digits.take(i)) <= decimal_value(digits),
    decreases digits.len() - i,
{
    if i < digits.len() {
        lemma_decimal_value_monotonic(digits, i + 1);
        assert(digits.take(i + 1).drop_last() == digits.take(i));
    } else {
        assert(digits.take(i) == digits);
    }
}

/// Tells whether a character is a decimal digit.
pub fn is_digit(c: char) -> (b: bool)
    ensures
        b == is_decimal_digit(c),
{
    c >= '0' && c <= '9'
}

/// Reads a run of decimal digits as a number, or nothing where a
/// character is no digit or the number does not fit in `usize`.
pub fn parse_decimal(digits: &Vec<char>) -> (number: Option<usize>)
    ensures
        number matches Some(n) ==> n == decimal_value(digits@),
        number is None <==> !all_digits(digits@) || decimal_value(digits@) > usize::MAX,
{
    let mut number: usize = 0;
    let mut i: usize = 0;
    proof {
        assert(digits@.take(0).len() == 0);
    }
    while i < digits.len()
        invariant
            i <= digits.len(),
            forall|k: int| 0 <= k < i ==> is_decimal_digit(#[trigger] digits@[k]),
            number == decimal_value(digits@.take(i as int)),
        decreases digits.len() - i,
    {
        let c = digits[i];
        if !is_digit(c) {
            assert(!is_decimal_digit(digits@[i as int]));
            return None;
        }
        let digit = (c as u32 - '0' as u32) as usize;
        proof {
            assert(digits@.take(i as int + 1).drop_last() == digits@.take(i as int));
            lemma_decimal_value_monotonic(digits@, i as int + 1);
        }
        let scaled = match number.checked_mul(10) {
            Some(scaled) => scaled,
            None => {
                return None;
            },
        };
        number = match scaled.checked_add(digit) {
            Some(sum) => sum,
            None => {
                return None;
            },
        };
        i += 1;
    }
    assert(digits@.take(digits.len() as int) == digits@);
    Some(number)
}

/// The character that writes a number below ten.
pub open spec fn digit_char(d: nat) -> char {
    if d == 0 {
        '0'
    } else if d == 1 {
        '1'
    } else if d == 2 {
        '2'
    } else if d == 3 {
        '3'
    } else if d == 4 {
        '4'
    } else if d == 5 {
        '5'
    } else if d == 6 {
        '6'
    } else if d == 7 {
        '7'
    } else if d == 8 {
        '8'
    } else {
        '9'
    }
}

/// A number written in decimal, without leading zeros.
pub open spec fn decimal_text(n: nat) -> Seq<char>
    decreases n,
{
    if n < 10 {
        seq![digit_char(n)]
    } else {
        decimal_text(n / 10).push(digit_char(n % 10))
    }
}

/// The character that writes a number below ten.
fn digit_to_char(d: usize) -> (c: char)
    requires
        d < 10,
    ensures
        c == digit_char(d as nat),
{
    if d == 0 {
        '0'
    } else if d == 1 {
        '1'
    } else if d == 2 {
        '2'
    } else if d == 3 {
        '3'
    } else if d == 4 {
        '4'
    } else if d == 5 {
        '5'
    } else if d == 6 {
        '6'
    } else if d == 7 {
        '7'
    } else if d == 8 {
        '8'
    } else {
        '9'
    }
}

/// Appends a number in decimal to a text.
pub fn push_decimal(text: &mut String, n: usize)
    ensures
        final(text)@ == old(text)@ + decimal_text(n as nat),
    decreases n,
{
    if n >= 10 {
        push_decimal(text, n / 10);
    }
    text.push(digit_to_char(n % 10));
    proof {
        if n < 10 {
            assert(old(text)@.push(digit_char(n as nat)) == old(text)@ + decimal_text(n as nat));
        } else {
            assert((old(text)@ + decimal_text((n / 10) as nat)).push(digit_char((n % 10) as nat))
                == old(text)@ + decimal_text(n as nat));
        }
    }
}

/// Appends the characters of a string slice to a text.
pub fn push_text(text: &mut String, other: &str)
    ensures
        final(text)@ == old(text)@ + other@,
{
    let chars = chars_of(other);
    let mut i: usize = 0;
    while i < chars.len()
        invariant
            i <= chars.len(),
            chars@ == other@,
            text@ == old(text)@ + chars@.take(i as int),
        decreases chars.len() - i,
    {
        text.push(chars[i]);
        i += 1;
        assert(chars@.take(i as int) == chars@.take(i as int - 1).push(chars@[i as int - 1]));
        assert((old(text)@ + chars@.take(i as int - 1)).push(chars@[i as int - 1]) == old(text)@
            + chars@.take(i as int));
    }
    assert(chars@.take(chars.len() as int) == chars@);
}

/// Appends bytes to a buffer.
pub fn push_bytes(out: &mut Vec<u8>, bytes: &[u8])
    ensures
        final(out)@ == old(out)@ + bytes@,
{
    let mut i: usize = 0;
    assert(old(out)@ + bytes@.take(0) =~= old(out)@);
    while i < bytes.len()
        invariant
            i <= bytes.len(),
            out@ == old(out)@ + bytes@.take(i as int),
        decreases bytes.len() - i,
    {
        out.push(bytes[i]);
        i += 1;
        assert((old(out)@ + bytes@.take(i as int - 1)).push(bytes@[i as int - 1]) =~= old(out)@
            + bytes@.take(i as int));
    }
    assert(bytes@.take(bytes.len() as int) =~= bytes@);
}

/// What each text of a sequence holds.
pub open spec fn texts(values: Seq<String>) -> Seq<Seq<char>> {
    values.map_values(|value: String| value@)
}

/// What each pair of texts of a sequence holds.
pub open spec fn pairs(values: Seq<(String, String)>) -> Seq<(Seq<char>, Seq<char>)> {
    values.map_values(|pair: (String, String)| (pair.0@, pair.1@))
}

/// An owned copy of a text.
pub fn text_of(text: &str) -> (owned: String)
    ensures
        owned@ == text@,
{
    let mut owned = String::new();
    push_text(&mut owned, text);
    assert(Seq::<char>::empty() + text@ =~= text@);
    owned
}

} // verus!

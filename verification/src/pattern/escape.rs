//! Shows control characters in a readable form.

use vstd::prelude::*;

verus! {

/// How one character is shown: a control character by a backslash and a
/// letter, any other character as it is.
pub open spec fn escaped_char(c: char) -> Seq<char> {
    if c == '\0' {
        seq!['\\', '0']
    } else if c == '\n' {
        seq!['\\', 'n']
    } else if c == '\r' {
        seq!['\\', 'r']
    } else if c == '\t' {
        seq!['\\', 't']
    } else {
        seq![c]
    }
}

/// How a text is shown: each character as `escaped_char` shows it.
pub open spec fn escaped(text: Seq<char>) -> Seq<char>
    decreases text.len(),
{
    if text.len() == 0 {
        Seq::empty()
    } else {
        escaped(text.drop_last()) + escaped_char(text.last())
    }
}

/// Appends a character in its readable form.
pub fn push_escaped_char(out: &mut String, c: char)
    ensures
        final(out)@ == old(out)@ + escaped_char(c),
{
    if c == '\0' {
        out.push('\\');
        out.push('0');
    } else if c == '\n' {
        out.push('\\');
        out.push('n');
    } else if c == '\r' {
        out.push('\\');
        out.push('r');
    } else if c == '\t' {
        out.push('\\');
        out.push('t');
    } else {
        out.push(c);
    }
    assert(out@ =~= old(out)@ + escaped_char(c));
}

/// Appends a text in its readable form.
pub fn push_escaped(out: &mut String, text: &str)
    ensures
        final(out)@ == old(out)@ + escaped(text@),
{
    let chars = crate::text::chars_of(text);
    let mut i: usize = 0;
    assert(chars@.take(0) =~= Seq::<char>::empty());
    assert(out@ =~= old(out)@ + escaped(chars@.take(0)));
    while i < chars.len()
        invariant
            i <= chars.len(),
            chars@ == text@,
            out@ == old(out)@ + escaped(chars@.take(i as int)),
        decreases chars.len() - i,
    {
        push_escaped_char(out, chars[i]);
        i += 1;
        proof {
            let prefix = chars@.take(i as int);
            assert(prefix.drop_last() =~= chars@.take(i as int - 1));
            assert(out@ =~= old(out)@ + escaped(prefix));
        }
    }
    assert(chars@.take(chars.len() as int) =~= chars@);
}

/// A text in its readable form.
pub fn escape_str(text: &str) -> (out: String)
    ensures
        out@ == escaped(text@),
{
    let mut out = String::new();
    push_escaped(&mut out, text);
    assert(Seq::<char>::empty() + escaped(text@) =~= escaped(text@));
    out
}

} // verus!

//! Reads the words of an expression character by character.

use crate::pattern::lexer::{symbol_at, symbol_end, unescape_char, EXPR_END, EXPR_START, PIPE};
use vstd::prelude::*;

verus! {

/// Opens and closes a word that keeps its white space.
pub const SINGLE_QUOTE: char = '\'';

/// Opens and closes a word that keeps its white space.
pub const DOUBLE_QUOTE: char = '"';

/// Why a pattern was refused.
#[derive(Debug, Clone, Copy, PartialEq, Eq, Structural)]
pub enum ErrorKind {
    /// An opening brace without its closing brace.
    UnmatchedExprStart,
    /// A closing brace without its opening brace.
    UnmatchedExprEnd,
    /// A pipe outside an expression.
    PipeOutsideExpr,
    /// An opening brace inside an expression.
    ExprStartInsideExpr,
    /// The pattern ends where a command must follow a pipe.
    ExpectedFilter,
    /// Something follows a word where a pipe or the closing brace must.
    ExpectedPipeOrExprEnd,
    /// A part of a pipeline that names no command.
    EmptyCommandName,
}

/// A refusal about the characters from index `start` up to index `end`.
pub struct Flaw {
    pub kind: ErrorKind,
    pub start: int,
    pub end: int,
}

/// True for the characters that separate words.
pub open spec fn is_space(c: char) -> bool {
    c == ' ' || c == '\t' || c == '\n' || c == '\r'
}

/// True for the two characters that quote a word.
pub open spec fn is_quote(c: char) -> bool {
    c == SINGLE_QUOTE || c == DOUBLE_QUOTE
}

/// True for the characters at which a command ends.
pub open spec fn ends_command(source: Seq<char>, i: int) -> bool {
    i >= source.len() || source[i] == PIPE || source[i] == EXPR_END
}

/// True for the characters at which a word without quotes ends.
pub open spec fn ends_bare(c: char) -> bool {
    is_space(c) || is_quote(c) || c == PIPE || c == EXPR_END || c == EXPR_START
}

/// Index of the first character at or after `i` that is no white space.
pub open spec fn skip_spaces(source: Seq<char>, i: int) -> int
    decreases source.len() - i,
{
    if 0 <= i < source.len() && is_space(source[i]) {
        skip_spaces(source, i + 1)
    } else {
        i
    }
}

/// Index of the character after the word without quotes that starts at
/// character `i`.
pub open spec fn bare_end(source: Seq<char>, escape: char, i: int) -> int
    decreases source.len() - i,
{
    if i < 0 || i >= source.len() || ends_bare(source[i]) {
        i
    } else {
        bare_end(source, escape, symbol_end(source, escape, i))
    }
}

/// What the word without quotes that starts at character `i` spells. The
/// escape character makes the character after it a part of the word.
pub open spec fn bare_text(source: Seq<char>, escape: char, i: int) -> Seq<char>
    decreases source.len() - i,
{
    if i < 0 || i >= source.len() || ends_bare(source[i]) {
        Seq::empty()
    } else {
        seq![symbol_at(source, escape, i).value()] + bare_text(
            source,
            escape,
            symbol_end(source, escape, i),
        )
    }
}

/// Index of the quote that closes the quoted text running from character
/// `i`, or the number of characters where nothing closes it.
pub open spec fn quoted_end(source: Seq<char>, escape: char, quote: char, i: int) -> int
    decreases source.len() - i,
{
    if i < 0 || i >= source.len() || source[i] == quote {
        i
    } else {
        quoted_end(source, escape, quote, symbol_end(source, escape, i))
    }
}

/// What the quoted text running from character `i` spells. The escape
/// character makes the character after it a part of the text.
pub open spec fn quoted_text(source: Seq<char>, escape: char, quote: char, i: int) -> Seq<char>
    decreases source.len() - i,
{
    if i < 0 || i >= source.len() || source[i] == quote {
        Seq::empty()
    } else {
        seq![symbol_at(source, escape, i).value()] + quoted_text(
            source,
            escape,
            quote,
            symbol_end(source, escape, i),
        )
    }
}

/// Index of the brace that closes the shell command running from
/// character `i`, or the number of characters where nothing closes it. A
/// brace after the escape character does not close it.
pub open spec fn shell_end(source: Seq<char>, escape: char, i: int) -> int
    decreases source.len() - i,
{
    if i < 0 || i >= source.len() || source[i] == EXPR_END {
        i
    } else {
        shell_end(source, escape, symbol_end(source, escape, i))
    }
}

/// What the shell command running from character `i` spells: the source
/// as it stands, but that the escape character before a closing brace is
/// left out.
pub open spec fn shell_text(source: Seq<char>, escape: char, i: int) -> Seq<char>
    decreases source.len() - i,
{
    if i < 0 || i >= source.len() || source[i] == EXPR_END {
        Seq::empty()
    } else if source[i] == escape && i + 1 < source.len() {
        (if source[i + 1] == EXPR_END {
            seq![EXPR_END]
        } else {
            seq![escape, source[i + 1]]
        }) + shell_text(source, escape, i + 2)
    } else {
        seq![source[i]] + shell_text(source, escape, i + 1)
    }
}

/// The bounds of what the scanning functions find.
pub proof fn lemma_scan_bounds(source: Seq<char>, escape: char, quote: char, i: int)
    requires
        0 <= i <= source.len(),
    ensures
        i <= skip_spaces(source, i) <= source.len(),
        i <= bare_end(source, escape, i) <= source.len(),
        i <= quoted_end(source, escape, quote, i) <= source.len(),
        i <= shell_end(source, escape, i) <= source.len(),
        i < source.len() && !ends_bare(source[i]) ==> i < bare_end(source, escape, i),
        skip_spaces(source, i) < source.len() ==> !is_space(source[skip_spaces(source, i)]),
        bare_end(source, escape, i) < source.len() ==> ends_bare(
            source[bare_end(source, escape, i)],
        ),
        quoted_end(source, escape, quote, i) < source.len() ==> source[quoted_end(
            source,
            escape,
            quote,
            i,
        )] == quote,
        shell_end(source, escape, i) < source.len() ==> source[shell_end(source, escape, i)]
            == EXPR_END,
    decreases source.len() - i,
{
    if i < source.len() {
        lemma_scan_bounds(source, escape, quote, i + 1);
        if i + 2 <= source.len() {
            lemma_scan_bounds(source, escape, quote, i + 2);
        }
    }
}

/// Tells whether a character separates words.
pub(crate) fn is_space_char(c: char) -> (b: bool)
    ensures
        b == is_space(c),
{
    c == ' ' || c == '\t' || c == '\n' || c == '\r'
}

/// Tells whether a word without quotes ends at a character.
pub(crate) fn ends_bare_char(c: char) -> (b: bool)
    ensures
        b == ends_bare(c),
{
    is_space_char(c) || c == SINGLE_QUOTE || c == DOUBLE_QUOTE || c == PIPE || c == EXPR_END || c
        == EXPR_START
}

/// Skips white space from character `i` on.
pub(crate) fn skip(chars: &Vec<char>, i: usize) -> (next: usize)
    requires
        i <= chars.len(),
    ensures
        next == skip_spaces(chars@, i as int),
        i <= next <= chars.len(),
{
    let mut next = i;
    while next < chars.len() && is_space_char(chars[next])
        invariant
            i <= next <= chars.len(),
            skip_spaces(chars@, i as int) == skip_spaces(chars@, next as int),
        decreases chars.len() - next,
    {
        next = next + 1;
    }
    next
}

/// What kind of text is read character by character.
#[derive(Clone, Copy, Debug, PartialEq, Eq, Structural)]
pub enum Scan {
    /// A word without quotes.
    Bare,
    /// A text between two quotes of the given kind.
    Quoted(char),
}

/// Index at which the text of the given kind that runs from character `i`
/// ends.
pub open spec fn scan_end(source: Seq<char>, escape: char, scan: Scan, i: int) -> int {
    match scan {
        Scan::Bare => bare_end(source, escape, i),
        Scan::Quoted(quote) => quoted_end(source, escape, quote, i),
    }
}

/// What the text of the given kind that runs from character `i` spells.
pub open spec fn scan_text(source: Seq<char>, escape: char, scan: Scan, i: int) -> Seq<char> {
    match scan {
        Scan::Bare => bare_text(source, escape, i),
        Scan::Quoted(quote) => quoted_text(source, escape, quote, i),
    }
}

/// Reads a text of the given kind from character `i` on, resolving escape
/// sequences.
pub(crate) fn read_text(chars: &Vec<char>, escape: char, scan: Scan, i: usize) -> (result: (String, usize))
    requires
        i <= chars.len(),
    ensures
        result.0@ == scan_text(chars@, escape, scan, i as int),
        result.1 == scan_end(chars@, escape, scan, i as int),
        i <= result.1 <= chars.len(),
{
    let mut text = String::new();
    let mut next = i;
    let ghost source = chars@;
    proof {
        assert(Seq::<char>::empty() + scan_text(source, escape, scan, i as int) =~= scan_text(
            source,
            escape,
            scan,
            i as int,
        ));
    }
    loop
        invariant
            i <= next <= chars.len(),
            source == chars@,
            scan_end(source, escape, scan, i as int) == scan_end(source, escape, scan, next as int),
            scan_text(source, escape, scan, i as int) == text@ + scan_text(
                source,
                escape,
                scan,
                next as int,
            ),
        decreases chars.len() - next,
    {
        let stop = next >= chars.len() || match scan {
            Scan::Bare => ends_bare_char(chars[next]),
            Scan::Quoted(quote) => chars[next] == quote,
        };
        if stop {
            proof {
                assert(text@ + Seq::<char>::empty() =~= text@);
            }
            return (text, next);
        }
        let ghost at = next as int;
        let ghost before = text@;
        let c = chars[next];
        if c == escape && next + 1 < chars.len() {
            text.push(unescape_char(chars[next + 1]));
            next = next + 2;
        } else {
            text.push(c);
            next = next + 1;
        }
        proof {
            let rest = scan_text(source, escape, scan, next as int);
            let value = symbol_at(source, escape, at).value();
            assert(scan_text(source, escape, scan, at) == seq![value] + rest);
            assert(before + (seq![value] + rest) =~= before.push(value) + rest);
        }
    }
}

/// Reads a shell command from character `i` on.
pub(crate) fn read_shell(chars: &Vec<char>, escape: char, i: usize) -> (result: (String, usize))
    requires
        i <= chars.len(),
    ensures
        result.0@ == shell_text(chars@, escape, i as int),
        result.1 == shell_end(chars@, escape, i as int),
        i <= result.1 <= chars.len(),
{
    let mut text = String::new();
    let mut next = i;
    let ghost source = chars@;
    proof {
        assert(Seq::<char>::empty() + shell_text(source, escape, i as int) =~= shell_text(
            source,
            escape,
            i as int,
        ));
    }
    while next < chars.len() && chars[next] != EXPR_END
        invariant
            i <= next <= chars.len(),
            source == chars@,
            shell_end(source, escape, i as int) == shell_end(source, escape, next as int),
            shell_text(source, escape, i as int) == text@ + shell_text(source, escape, next as int),
        decreases chars.len() - next,
    {
        let ghost at = next as int;
        let ghost before = text@;
        let c = chars[next];
        if c == escape && next + 1 < chars.len() {
            let follower = chars[next + 1];
            if follower != EXPR_END {
                text.push(c);
            }
            text.push(follower);
            next = next + 2;
        } else {
            text.push(c);
            next = next + 1;
        }
        proof {
            let rest = shell_text(source, escape, next as int);
            assert(text@ + rest =~= before + shell_text(source, escape, at));
        }
    }
    proof {
        assert(text@ + Seq::<char>::empty() =~= text@);
    }
    (text, next)
}

} // verus!

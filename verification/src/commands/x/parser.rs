//! Reads the pattern of the composing command.

use crate::commands::x::pattern::{
    args_at, command_at, commands_at, expression_at, flaw_at, lemma_command_end,
    lemma_expression_end, lemma_pipeline_end, modifiers_at, word_at, Command, CommandView, Error,
    Expression, ExpressionValue, Item, ItemView, Modifiers, EXTERNAL, NO_STDIN, RAW_SHELL,
};
use crate::commands::x::scan::{
    ends_command, is_space_char, lemma_scan_bounds, read_shell, read_text, skip, ErrorKind, Flaw,
    Scan, DOUBLE_QUOTE, SINGLE_QUOTE,
};
use crate::pattern::lexer::{
    contiguous, joined, lemma_contiguous_joined, lemma_contiguous_ordered, lemma_contiguous_within,
    lemma_token_end_bounds, token_at, token_end, views, Lexer, Parsed, Spanned, Token, TokenView,
    EXPR_END, EXPR_START, PIPE,
};
use crate::pattern::sequence::{continued, lemma_prefixed_step, prefixed};
use crate::pattern::symbol::{values, Char};
use crate::text::{
    byte_offset, lemma_byte_offset_monotonic, lemma_byte_offset_step, lemma_utf8_len_is_encoded_len,
    texts, utf8_len,
};
use vstd::prelude::*;
use vstd::utf8::encode_utf8;

verus! {

/// A refusal about the characters from index `start` up to index `end`.
#[derive(Clone, Copy, Debug, PartialEq, Eq)]
pub struct Fault {
    pub kind: ErrorKind,
    pub start: usize,
    pub end: usize,
}

impl View for Fault {
    type V = Flaw;

    open spec fn view(&self) -> Flaw {
        Flaw { kind: self.kind, start: self.start as int, end: self.end as int }
    }
}

impl Fault {
    /// True where the refusal is about characters of a source of the given
    /// length.
    pub open spec fn within(self, length: int) -> bool {
        self.start <= self.end <= length
    }
}

/// A refusal about one character, or about the end of the source.
pub(crate) fn fault_at(kind: ErrorKind, chars: &Vec<char>, i: usize) -> (fault: Fault)
    requires
        i <= chars.len(),
    ensures
        fault@ == flaw_at(kind, chars@, i as int),
        fault.within(chars.len() as int),
{
    if i < chars.len() {
        Fault { kind, start: i, end: i + 1 }
    } else {
        Fault { kind, start: i, end: i }
    }
}

/// Tells whether a command ends at character `i`.
pub(crate) fn at_command_end(chars: &Vec<char>, i: usize) -> (b: bool)
    ensures
        b == ends_command(chars@, i as int),
{
    i >= chars.len() || chars[i] == PIPE || chars[i] == EXPR_END
}

/// Reads the word that starts at character `i`, inside the expression
/// opened at character `open`.
pub(crate) fn read_word(chars: &Vec<char>, escape: char, open: usize, i: usize) -> (result: Result<
    (String, usize),
    Fault,
>)
    requires
        open <= chars.len(),
        i < chars.len(),
        !ends_command(chars@, i as int),
        !crate::commands::x::scan::is_space(chars@[i as int]),
    ensures
        match word_at(chars@, escape, open as int, i as int) {
            Ok((word, next)) => result is Ok && result->Ok_0.0@ == word && result->Ok_0.1 == next
                && i < next <= chars.len(),
            Err(flaw) => result is Err && result->Err_0@ == flaw && result->Err_0.within(
                chars.len() as int,
            ),
        },
{
    let first = chars[i];
    proof {
        lemma_scan_bounds(chars@, escape, first, i as int);
        lemma_scan_bounds(chars@, escape, first, i as int + 1);
    }
    if first == EXPR_START {
        return Err(fault_at(ErrorKind::ExprStartInsideExpr, chars, i));
    }
    let quoted = first == SINGLE_QUOTE || first == DOUBLE_QUOTE;
    let (word, next) = if quoted {
        let (word, close) = read_text(chars, escape, Scan::Quoted(first), i + 1);
        if close >= chars.len() {
            return Err(fault_at(ErrorKind::UnmatchedExprStart, chars, open));
        }
        (word, close + 1)
    } else {
        read_text(chars, escape, Scan::Bare, i)
    };
    if next < chars.len() {
        let follower = chars[next];
        if follower == EXPR_START {
            return Err(fault_at(ErrorKind::ExprStartInsideExpr, chars, next));
        }
        if !is_space_char(follower) && !at_command_end(chars, next) {
            return Err(fault_at(ErrorKind::ExpectedPipeOrExprEnd, chars, next));
        }
    }
    Ok((word, next))
}

/// Reads the arguments of a command from character `i` on.
pub(crate) fn read_args(chars: &Vec<char>, escape: char, open: usize, i: usize) -> (result: Result<
    (Vec<String>, usize),
    Fault,
>)
    requires
        open <= chars.len(),
        i <= chars.len(),
    ensures
        match args_at(chars@, escape, open as int, i as int) {
            Ok((args, end)) => result is Ok && texts(result->Ok_0.0@) == args && result->Ok_0.1
                == end && i <= end <= chars.len() && ends_command(chars@, end),
            Err(flaw) => result is Err && result->Err_0@ == flaw && result->Err_0.within(
                chars.len() as int,
            ),
        },
{
    let mut args: Vec<String> = Vec::new();
    let mut next = i;
    let ghost source = chars@;
    proof {
        assert(texts(args@) =~= Seq::empty());
        lemma_prefixed_step(
            Seq::<Seq<char>>::empty(),
            Seq::<char>::empty(),
            args_at(source, escape, open as int, i as int),
        );
    }
    loop
        invariant
            source == chars@,
            open <= chars.len(),
            i <= next <= chars.len(),
            args_at(source, escape, open as int, i as int) == prefixed(
                texts(args@),
                args_at(source, escape, open as int, next as int),
            ),
        decreases chars.len() - next,
    {
        proof {
            reveal(args_at);
            lemma_scan_bounds(source, escape, ' ', next as int);
        }
        let start = skip(chars, next);
        if at_command_end(chars, start) {
            proof {
                assert(texts(args@) + Seq::<Seq<char>>::empty() =~= texts(args@));
            }
            return Ok((args, start));
        }
        match read_word(chars, escape, open, start) {
            Err(fault) => {
                return Err(fault);
            },
            Ok((word, after)) => {
                proof {
                    lemma_prefixed_step(
                        texts(args@),
                        word@,
                        args_at(source, escape, open as int, after as int),
                    );
                    assert(texts(args@.push(word)) =~= texts(args@).push(word@));
                }
                args.push(word);
                next = after;
            },
        }
    }
}

/// Reads a command from character `i` on.
pub(crate) fn read_command(
    chars: &Vec<char>,
    escape: char,
    open: usize,
    i: usize,
    forced: bool,
) -> (result: Result<(Command, usize), Fault>)
    requires
        open <= chars.len(),
        i <= chars.len(),
    ensures
        match command_at(chars@, escape, open as int, i as int, forced) {
            Ok((command, end)) => result is Ok && result->Ok_0.0@ == command && result->Ok_0.1
                == end && i < end <= chars.len() && ends_command(chars@, end),
            Err(flaw) => result is Err && result->Err_0@ == flaw && result->Err_0.within(
                chars.len() as int,
            ),
        },
{
    proof {
        reveal(command_at);
        lemma_command_end(chars@, escape, open as int, i as int, forced);
    }
    let mark = skip(chars, i);
    let marked = mark < chars.len() && chars[mark] == EXTERNAL;
    proof {
        lemma_scan_bounds(chars@, escape, ' ', i as int);
        if marked {
            lemma_scan_bounds(chars@, escape, ' ', mark as int + 1);
        }
    }
    let start = if marked {
        skip(chars, mark + 1)
    } else {
        mark
    };
    if start >= chars.len() {
        return Err(fault_at(ErrorKind::UnmatchedExprStart, chars, open));
    }
    if at_command_end(chars, start) {
        return Err(fault_at(ErrorKind::EmptyCommandName, chars, start));
    }
    let (name, next) = match read_word(chars, escape, open, start) {
        Ok(word) => word,
        Err(fault) => {
            return Err(fault);
        },
    };
    if name.as_str().is_empty() {
        return Err(Fault { kind: ErrorKind::EmptyCommandName, start, end: next });
    }
    match read_args(chars, escape, open, next) {
        Err(fault) => Err(fault),
        Ok((args, end)) => Ok((Command { name, args, external: forced || marked }, end)),
    }
}

/// Reads the commands of a pipeline from character `i` on, up to the
/// closing brace.
pub(crate) fn read_commands(
    chars: &Vec<char>,
    escape: char,
    open: usize,
    i: usize,
    forced: bool,
) -> (result: Result<(Vec<Command>, usize), Fault>)
    requires
        open <= chars.len(),
        i <= chars.len(),
    ensures
        match commands_at(chars@, escape, open as int, i as int, forced) {
            Ok((commands, close)) => result is Ok && views(result->Ok_0.0@) == commands
                && result->Ok_0.1 == close && i < close < chars.len(),
            Err(flaw) => result is Err && result->Err_0@ == flaw && result->Err_0.within(
                chars.len() as int,
            ),
        },
{
    let mut commands: Vec<Command> = Vec::new();
    let mut next = i;
    let mut external = forced;
    let ghost source = chars@;
    proof {
        assert(views(commands@) =~= Seq::empty());
        if let Ok((all, _)) = commands_at(source, escape, open as int, i as int, forced) {
            assert(Seq::<CommandView>::empty() + all =~= all);
        }
        lemma_pipeline_end(source, escape, open as int, i as int, forced);
    }
    loop
        invariant
            source == chars@,
            open <= chars.len(),
            i <= next <= chars.len(),
            commands_at(source, escape, open as int, i as int, forced) == prefixed(
                views(commands@),
                commands_at(source, escape, open as int, next as int, external),
            ),
            commands_at(source, escape, open as int, i as int, forced) matches Ok((_, close)) ==> i
                < close < chars.len(),
        decreases chars.len() - next,
    {
        proof {
            reveal(commands_at);
        }
        let (command, end) = match read_command(chars, escape, open, next, external) {
            Ok(command) => command,
            Err(fault) => {
                return Err(fault);
            },
        };
        if end >= chars.len() {
            return Err(fault_at(ErrorKind::UnmatchedExprStart, chars, open));
        }
        if chars[end] == EXPR_END {
            proof {
                assert(views(commands@.push(command)) =~= views(commands@) + seq![command@]);
            }
            commands.push(command);
            return Ok((commands, end));
        }
        if skip(chars, end + 1) >= chars.len() {
            return Err(fault_at(ErrorKind::ExpectedFilter, chars, chars.len()));
        }
        proof {
            lemma_prefixed_step(
                views(commands@),
                command@,
                commands_at(source, escape, open as int, end as int + 1, false),
            );
            assert(views(commands@.push(command)) =~= views(commands@).push(command@));
        }
        commands.push(command);
        next = end + 1;
        external = false;
    }
}

/// The marks at the start of an expression.
pub struct Marks {
    pub no_stdin: bool,
    pub external: bool,
    pub raw_shell: bool,
    /// Index of the character at which the body starts.
    pub end: usize,
}

impl View for Marks {
    type V = Modifiers;

    open spec fn view(&self) -> Modifiers {
        Modifiers {
            no_stdin: self.no_stdin,
            external: self.external,
            raw_shell: self.raw_shell,
            end: self.end as int,
        }
    }
}

/// Reads the marks at the start of an expression from character `i` on.
pub(crate) fn read_modifiers(chars: &Vec<char>, i: usize) -> (marks: Marks)
    requires
        i <= chars.len(),
    ensures
        marks@ == modifiers_at(chars@, i as int, false, false),
        i <= marks.end <= chars.len(),
{
    let mut no_stdin = false;
    let mut external = false;
    let mut next = i;
    let ghost source = chars@;
    loop
        invariant
            source == chars@,
            i <= next <= chars.len(),
            modifiers_at(source, i as int, false, false) == modifiers_at(
                source,
                next as int,
                no_stdin,
                external,
            ),
        decreases chars.len() - next,
    {
        proof {
            reveal(modifiers_at);
            lemma_scan_bounds(source, ' ', ' ', next as int);
        }
        let start = skip(chars, next);
        if start >= chars.len() {
            return Marks { no_stdin, external, raw_shell: false, end: start };
        }
        let mark = chars[start];
        if mark == NO_STDIN && !no_stdin {
            no_stdin = true;
            next = start + 1;
        } else if mark == EXTERNAL && !external {
            external = true;
            next = start + 1;
        } else if mark == RAW_SHELL {
            return Marks { no_stdin, external, raw_shell: true, end: start + 1 };
        } else {
            return Marks { no_stdin, external, raw_shell: false, end: start };
        }
    }
}

/// The characters from index `start` up to index `end` as a text.
pub(crate) fn text_between(chars: &Vec<char>, start: usize, end: usize) -> (text: String)
    requires
        start <= end <= chars.len(),
    ensures
        text@ == chars@.subrange(start as int, end as int),
{
    let mut text = String::new();
    let mut i = start;
    assert(chars@.subrange(start as int, start as int) =~= Seq::<char>::empty());
    while i < end
        invariant
            start <= i <= end <= chars.len(),
            text@ == chars@.subrange(start as int, i as int),
        decreases end - i,
    {
        text.push(chars[i]);
        i = i + 1;
        assert(chars@.subrange(start as int, i as int) =~= chars@.subrange(
            start as int,
            i as int - 1,
        ).push(chars@[i as int - 1]));
    }
    text
}

/// Reads the expression whose opening brace is character `open`.
pub(crate) fn read_expression(chars: &Vec<char>, escape: char, open: usize) -> (result: Result<
    (Expression, usize),
    Fault,
>)
    requires
        open < chars.len(),
    ensures
        match expression_at(chars@, escape, open as int) {
            Ok((expression, next)) => result is Ok && result->Ok_0.0@ == expression
                && result->Ok_0.1 == next && open + 1 < next <= chars.len(),
            Err(flaw) => result is Err && result->Err_0@ == flaw && result->Err_0.within(
                chars.len() as int,
            ),
        },
{
    proof {
        reveal(expression_at);
        lemma_expression_end(chars@, escape, open as int);
    }
    let marks = read_modifiers(chars, open + 1);
    proof {
        lemma_pipeline_end(chars@, escape, open as int, marks.end as int, marks.external);
    }
    if marks.raw_shell {
        let (command, close) = read_shell(chars, escape, marks.end);
        if close >= chars.len() {
            return Err(fault_at(ErrorKind::UnmatchedExprStart, chars, open));
        }
        return Ok(
            (
                Expression {
                    raw_value: text_between(chars, open, close + 1),
                    no_stdin: marks.no_stdin,
                    value: ExpressionValue::RawShell(command),
                },
                close + 1,
            ),
        );
    }
    let start = skip(chars, marks.end);
    if start >= chars.len() {
        return Err(fault_at(ErrorKind::UnmatchedExprStart, chars, open));
    }
    let (commands, close) = if chars[start] == EXPR_END {
        let commands: Vec<Command> = Vec::new();
        assert(views(commands@) =~= Seq::empty());
        (commands, start)
    } else {
        match read_commands(chars, escape, open, start, marks.external) {
            Ok(commands) => commands,
            Err(fault) => {
                return Err(fault);
            },
        }
    };
    Ok(
        (
            Expression {
                raw_value: text_between(chars, open, close + 1),
                no_stdin: marks.no_stdin,
                value: ExpressionValue::Pipeline(commands),
            },
            close + 1,
        ),
    )
}

/// A refusal about characters, told about the bytes that hold them.
pub open spec fn in_bytes(flaw: Flaw, source: Seq<char>) -> Flaw {
    Flaw {
        kind: flaw.kind,
        start: byte_offset(source, flaw.start) as int,
        end: byte_offset(source, flaw.end) as int,
    }
}

/// The item that starts at character `i` of the source, with the index of
/// the character after it; nothing at the end of the source. Outside an
/// expression, a pipe and a closing brace are refused.
#[verifier::opaque]
pub open spec fn item_at(source: Seq<char>, escape: char, i: int) -> Result<
    Option<(Spanned<ItemView>, int)>,
    Flaw,
> {
    match token_at(source, escape, i) {
        None => Ok(None),
        Some(TokenView::Raw(chars)) => Ok(
            Some(
                (
                    Spanned {
                        value: ItemView::Constant(values(chars)),
                        start: byte_offset(source, i) as int,
                        end: byte_offset(source, token_end(source, escape, i)) as int,
                    },
                    token_end(source, escape, i),
                ),
            ),
        ),
        Some(TokenView::ExprStart) => match expression_at(source, escape, i) {
            Err(flaw) => Err(in_bytes(flaw, source)),
            Ok((expression, next)) => Ok(
                Some(
                    (
                        Spanned {
                            value: ItemView::Expression(expression),
                            start: byte_offset(source, i) as int,
                            end: byte_offset(source, next) as int,
                        },
                        next,
                    ),
                ),
            ),
        },
        Some(TokenView::ExprEnd) => Err(
            in_bytes(flaw_at(ErrorKind::UnmatchedExprEnd, source, i), source),
        ),
        Some(TokenView::Pipe) => Err(
            in_bytes(flaw_at(ErrorKind::PipeOutsideExpr, source, i), source),
        ),
    }
}

/// An item ends after where it starts, inside the source.
pub proof fn lemma_item_end(source: Seq<char>, escape: char, i: int)
    requires
        0 <= i <= source.len(),
    ensures
        item_at(source, escape, i) matches Ok(Some((item, end))) ==> {
            &&& i < end <= source.len()
            &&& item.start == byte_offset(source, i)
            &&& item.end == byte_offset(source, end)
        },
        item_at(source, escape, i) matches Ok(None) ==> i == source.len(),
{
    reveal(item_at);
    lemma_token_end_bounds(source, escape, i);
    if i < source.len() {
        lemma_expression_end(source, escape, i);
    }
}

/// The items of the source from character `i` on.
#[verifier::opaque]
pub open spec fn items_at(source: Seq<char>, escape: char, i: int) -> Result<
    Seq<Spanned<ItemView>>,
    Flaw,
>
    decreases source.len() - i,
{
    if i < 0 || i > source.len() {
        Ok(Seq::empty())
    } else {
        match item_at(source, escape, i) {
            Err(flaw) => Err(flaw),
            Ok(None) => Ok(Seq::empty()),
            Ok(Some((item, end))) => {
                proof {
                    lemma_item_end(source, escape, i);
                }
                match items_at(source, escape, end) {
                    Err(flaw) => Err(flaw),
                    Ok(items) => Ok(seq![item] + items),
                }
            },
        }
    }
}

/// What a pattern is read as: its items in order, each with the byte range
/// of the source it was read from, or the first refusal.
pub open spec fn parse_pattern(source: Seq<char>, escape: char) -> Result<
    Seq<Spanned<ItemView>>,
    Flaw,
> {
    items_at(source, escape, 0)
}

/// The items read from character `i` on follow one another without a gap,
/// from the byte at which that character starts to the end of the source.
pub proof fn lemma_items_contiguous(source: Seq<char>, escape: char, i: int)
    requires
        0 <= i <= source.len(),
    ensures
        items_at(source, escape, i) matches Ok(items) ==> contiguous(
            items,
            byte_offset(source, i) as int,
            utf8_len(source) as int,
        ),
    decreases source.len() - i,
{
    reveal(items_at);
    lemma_item_end(source, escape, i);
    assert(source.take(source.len() as int) =~= source);
    match item_at(source, escape, i) {
        Ok(Some((item, end))) => {
            lemma_items_contiguous(source, escape, end);
            lemma_byte_offset_step(source, i);
            lemma_byte_offset_monotonic(source, i + 1, end);
            if let Ok(items) = items_at(source, escape, end) {
                assert((seq![item] + items).drop_first() =~= items);
            }
        },
        _ => {},
    }
}

/// The items of a pattern take the source apart: their byte ranges,
/// joined in order, give back the encoded source, and no two of them
/// overlap.
pub proof fn lemma_items_cover_source(source: Seq<char>, escape: char)
    ensures
        parse_pattern(source, escape) matches Ok(items) ==> {
            &&& joined(encode_utf8(source), items) == encode_utf8(source)
            &&& forall|i: int, j: int|
                0 <= i < j < items.len() ==> 0 <= (#[trigger] items[i]).start < items[i].end <= (
                #[trigger] items[j]).start
            &&& forall|i: int|
                0 <= i < items.len() ==> 0 <= (#[trigger] items[i]).start < items[i].end
                    <= encode_utf8(source).len()
        },
{
    lemma_items_contiguous(source, escape, 0);
    lemma_utf8_len_is_encoded_len(source);
    assert(source.take(0).len() == 0);
    if let Ok(items) = parse_pattern(source, escape) {
        let bytes = encode_utf8(source);
        lemma_contiguous_joined(bytes, items, 0, bytes.len() as int);
        assert(bytes.subrange(0, bytes.len() as int) =~= bytes);
        assert forall|i: int, j: int| 0 <= i < j < items.len() implies 0 <= (
        #[trigger] items[i]).start < items[i].end <= (#[trigger] items[j]).start by {
            lemma_contiguous_ordered(items, 0, bytes.len() as int, i, j);
        }
        assert forall|i: int| 0 <= i < items.len() implies 0 <= (#[trigger] items[i]).start
            < items[i].end <= bytes.len() by {
            lemma_contiguous_within(items, 0, bytes.len() as int, i);
        }
    }
}

/// Reads the next item, if the pattern goes on.
pub(crate) fn parse_item(lexer: &mut Lexer) -> (result: Result<Option<Parsed<Item>>, Error>)
    ensures
        final(lexer).source() == old(lexer).source(),
        final(lexer).escape() == old(lexer).escape(),
        0 <= old(lexer).index() <= old(lexer).source().len(),
        match item_at(old(lexer).source(), old(lexer).escape(), old(lexer).index()) {
            Ok(Some((item, end))) => result matches Ok(Some(parsed)) && parsed@ == item
                && final(lexer).index() == end,
            Ok(None) => result matches Ok(None) && final(lexer).index() == old(lexer).index(),
            Err(flaw) => result is Err && result->Err_0@ == flaw,
        },
{
    proof {
        reveal(item_at);
    }
    let open = lexer.cursor();
    let starts_expression = open < lexer.chars().len() && lexer.chars()[open] == EXPR_START;
    if starts_expression {
        let start = lexer.offset(open);
        let escape = lexer.escape_char();
        match read_expression(lexer.chars(), escape, open) {
            Err(fault) => Err(
                Error {
                    kind: fault.kind,
                    range: lexer.offset(fault.start)..lexer.offset(fault.end),
                },
            ),
            Ok((expression, next)) => {
                lexer.seek(next);
                let end = lexer.offset(next);
                Ok(Some(Parsed { value: Item::Expression(expression), start, end }))
            },
        }
    } else {
        match lexer.read_token() {
            None => Ok(None),
            Some(token) => match token.value {
                Token::Raw(raw) => Ok(
                    Some(
                        Parsed {
                            value: Item::Constant(Char::join(&raw)),
                            start: token.start,
                            end: token.end,
                        },
                    ),
                ),
                Token::ExprEnd => Err(
                    Error { kind: ErrorKind::UnmatchedExprEnd, range: token.start..token.end },
                ),
                Token::Pipe => Err(
                    Error { kind: ErrorKind::PipeOutsideExpr, range: token.start..token.end },
                ),
                Token::ExprStart => Err(
                    Error { kind: ErrorKind::UnmatchedExprStart, range: token.start..token.end },
                ),
            },
        }
    }
}

/// Reads a pattern into its items, each with the byte range of the
/// pattern it was read from.
pub fn parse_items(input: &str, escape: char) -> (result: Result<Vec<Parsed<Item>>, Error>)
    ensures
        match parse_pattern(input@, escape) {
            Ok(items) => result is Ok && views(result->Ok_0@) == items,
            Err(flaw) => result is Err && result->Err_0@ == flaw,
        },
{
    let mut lexer = Lexer::new(input, escape);
    let mut items: Vec<Parsed<Item>> = Vec::new();
    let ghost source = input@;
    proof {
        assert(views(items@) =~= Seq::empty());
        if let Ok(all) = items_at(source, escape, 0) {
            assert(Seq::<Spanned<ItemView>>::empty() + all =~= all);
        }
    }
    loop
        invariant
            lexer.source() == source,
            lexer.escape() == escape,
            source == input@,
            items_at(source, escape, 0) == continued(
                views(items@),
                items_at(source, escape, lexer.index()),
            ),
        decreases source.len() - lexer.index(),
    {
        let ghost at = lexer.index();
        let ghost before = items@;
        let parsed = parse_item(&mut lexer);
        proof {
            reveal(items_at);
            lemma_item_end(source, escape, at);
        }
        match parsed {
            Err(error) => {
                return Err(error);
            },
            Ok(None) => {
                proof {
                    assert(views(items@) + Seq::<Spanned<ItemView>>::empty() =~= views(items@));
                }
                return Ok(items);
            },
            Ok(Some(item)) => {
                proof {
                    let rest = items_at(source, escape, lexer.index());
                    assert(views(before.push(item)) =~= views(before).push(item@));
                    if let Ok(values) = rest {
                        assert(views(before) + (seq![item@] + values) =~= views(before).push(
                            item@,
                        ) + values);
                    }
                }
                items.push(item);
            },
        }
    }
}

} // verus!

//! The pattern of the composing command: constants and expressions that
//! name pipelines of commands.

use crate::commands::x::scan::{
    bare_end, bare_text, ends_command, is_quote, is_space, lemma_scan_bounds, quoted_end,
    quoted_text, shell_end, shell_text, skip_spaces, ErrorKind, Flaw,
};
use crate::pattern::lexer::{views, EXPR_END, EXPR_START};
use crate::pattern::sequence::preceded;
use crate::text::texts;
use std::ops::Range;
use vstd::prelude::*;

verus! {

/// Marks an expression that does not read the input.
pub const NO_STDIN: char = ':';

/// Marks a command that is no built-in one.
pub const EXTERNAL: char = '!';

/// Marks an expression that holds a shell command.
pub const RAW_SHELL: char = '#';

/// A command of a pipeline.
#[derive(Debug, PartialEq)]
pub struct Command {
    pub name: String,
    pub args: Vec<String>,
    /// True where the name is that of a program even if a built-in command
    /// has the same name.
    pub external: bool,
}

/// What a command holds.
pub struct CommandView {
    pub name: Seq<char>,
    pub args: Seq<Seq<char>>,
    pub external: bool,
}

impl View for Command {
    type V = CommandView;

    open spec fn view(&self) -> CommandView {
        CommandView { name: self.name@, args: texts(self.args@), external: self.external }
    }
}

/// What an expression runs.
#[derive(Debug, PartialEq)]
pub enum ExpressionValue {
    /// A command line handed to the shell as it stands.
    RawShell(String),
    /// Commands, each reading what the one before it writes.
    Pipeline(Vec<Command>),
}

/// What the body of an expression holds.
pub enum ExpressionValueView {
    RawShell(Seq<char>),
    Pipeline(Seq<CommandView>),
}

impl View for ExpressionValue {
    type V = ExpressionValueView;

    open spec fn view(&self) -> ExpressionValueView {
        match self {
            ExpressionValue::RawShell(command) => ExpressionValueView::RawShell(command@),
            ExpressionValue::Pipeline(commands) => ExpressionValueView::Pipeline(views(commands@)),
        }
    }
}

/// An expression of a pattern.
#[derive(Debug, PartialEq)]
pub struct Expression {
    /// The expression as it stands in the pattern, braces included.
    pub raw_value: String,
    /// True where the expression does not read the input.
    pub no_stdin: bool,
    pub value: ExpressionValue,
}

/// What an expression holds.
pub struct ExpressionView {
    pub raw_value: Seq<char>,
    pub no_stdin: bool,
    pub value: ExpressionValueView,
}

impl View for Expression {
    type V = ExpressionView;

    open spec fn view(&self) -> ExpressionView {
        ExpressionView { raw_value: self.raw_value@, no_stdin: self.no_stdin, value: self.value@ }
    }
}

/// One part of a pattern.
#[derive(Debug, PartialEq)]
pub enum Item {
    /// Text that goes to the output as it is.
    Constant(String),
    /// A pipeline whose output goes to the output.
    Expression(Expression),
}

/// What an item holds.
pub enum ItemView {
    Constant(Seq<char>),
    Expression(ExpressionView),
}

impl View for Item {
    type V = ItemView;

    open spec fn view(&self) -> ItemView {
        match self {
            Item::Constant(value) => ItemView::Constant(value@),
            Item::Expression(expression) => ItemView::Expression(expression@),
        }
    }
}

/// A refusal: its reason and the byte range of the pattern it is about.
#[derive(Debug, PartialEq)]
pub struct Error {
    pub kind: ErrorKind,
    pub range: Range<usize>,
}

impl View for Error {
    type V = Flaw;

    open spec fn view(&self) -> Flaw {
        Flaw { kind: self.kind, start: self.range.start as int, end: self.range.end as int }
    }
}

/// A refusal about one character, or about the end of the source.
pub open spec fn flaw_at(kind: ErrorKind, source: Seq<char>, i: int) -> Flaw {
    Flaw {
        kind,
        start: i,
        end: if i < source.len() {
            i + 1
        } else {
            i
        },
    }
}

/// The word that starts at character `i` of the source, inside the
/// expression opened at character `open`, with the index of the character
/// after it. A word stands between quotes or runs up to white space; a
/// pipe, the closing brace or white space must follow it.
pub open spec fn word_at(source: Seq<char>, escape: char, open: int, i: int) -> Result<
    (Seq<char>, int),
    Flaw,
> {
    if source[i] == EXPR_START {
        Err(flaw_at(ErrorKind::ExprStartInsideExpr, source, i))
    } else {
        let quoted = is_quote(source[i]);
        let close = quoted_end(source, escape, source[i], i + 1);
        let next = if quoted {
            close + 1
        } else {
            bare_end(source, escape, i)
        };
        if quoted && close >= source.len() {
            Err(flaw_at(ErrorKind::UnmatchedExprStart, source, open))
        } else if next < source.len() && source[next] == EXPR_START {
            Err(flaw_at(ErrorKind::ExprStartInsideExpr, source, next))
        } else if next < source.len() && !is_space(source[next]) && !ends_command(source, next) {
            Err(flaw_at(ErrorKind::ExpectedPipeOrExprEnd, source, next))
        } else if quoted {
            Ok((quoted_text(source, escape, source[i], i + 1), next))
        } else {
            Ok((bare_text(source, escape, i), next))
        }
    }
}

/// A word ends after where it starts, inside the source.
pub proof fn lemma_word_end(source: Seq<char>, escape: char, open: int, i: int)
    requires
        0 <= i < source.len(),
        !is_space(source[i]),
        !ends_command(source, i),
    ensures
        word_at(source, escape, open, i) matches Ok((_, next)) ==> i < next <= source.len(),
{
    lemma_scan_bounds(source, escape, source[i], i);
    lemma_scan_bounds(source, escape, source[i], i + 1);
}

/// The arguments of a command, read from character `i` of the source,
/// with the index of the character at which the command ends.
#[verifier::opaque]
pub open spec fn args_at(source: Seq<char>, escape: char, open: int, i: int) -> Result<
    (Seq<Seq<char>>, int),
    Flaw,
>
    decreases source.len() - i,
{
    let start = skip_spaces(source, i);
    if i < 0 || ends_command(source, start) {
        Ok((Seq::empty(), start))
    } else {
        match word_at(source, escape, open, start) {
            Err(flaw) => Err(flaw),
            Ok((word, next)) => {
                proof {
                    lemma_scan_bounds(source, escape, ' ', i);
                    lemma_word_end(source, escape, open, start);
                }
                preceded(word, args_at(source, escape, open, next))
            },
        }
    }
}

/// The arguments of a command end where the command ends: at a pipe, at
/// the closing brace or at the end of the source.
pub proof fn lemma_args_end(source: Seq<char>, escape: char, open: int, i: int)
    requires
        0 <= i <= source.len(),
    ensures
        args_at(source, escape, open, i) matches Ok((_, end)) ==> i <= end <= source.len()
            && ends_command(source, end),
    decreases source.len() - i,
{
    reveal(args_at);
    lemma_scan_bounds(source, escape, ' ', i);
    let start = skip_spaces(source, i);
    if !ends_command(source, start) {
        lemma_word_end(source, escape, open, start);
        if let Ok((_, next)) = word_at(source, escape, open, start) {
            lemma_args_end(source, escape, open, next);
        }
    }
}

/// The command read from character `i` of the source, with the index of
/// the character at which it ends. An exclamation mark before the name,
/// or `forced`, makes the command external. The name must not be empty.
#[verifier::opaque]
pub open spec fn command_at(
    source: Seq<char>,
    escape: char,
    open: int,
    i: int,
    forced: bool,
) -> Result<(CommandView, int), Flaw> {
    let mark = skip_spaces(source, i);
    let marked = mark < source.len() && source[mark] == EXTERNAL;
    let start = if marked {
        skip_spaces(source, mark + 1)
    } else {
        mark
    };
    if start >= source.len() {
        Err(flaw_at(ErrorKind::UnmatchedExprStart, source, open))
    } else if ends_command(source, start) {
        Err(flaw_at(ErrorKind::EmptyCommandName, source, start))
    } else {
        match word_at(source, escape, open, start) {
            Err(flaw) => Err(flaw),
            Ok((name, next)) => if name.len() == 0 {
                Err(Flaw { kind: ErrorKind::EmptyCommandName, start, end: next })
            } else {
                match args_at(source, escape, open, next) {
                    Err(flaw) => Err(flaw),
                    Ok((args, end)) => Ok(
                        (CommandView { name, args, external: forced || marked }, end),
                    ),
                }
            },
        }
    }
}

/// A command ends after where it starts: at a pipe, at the closing brace
/// or at the end of the source.
pub proof fn lemma_command_end(source: Seq<char>, escape: char, open: int, i: int, forced: bool)
    requires
        0 <= i <= source.len(),
    ensures
        command_at(source, escape, open, i, forced) matches Ok((_, end)) ==> i < end
            <= source.len() && ends_command(source, end),
{
    reveal(command_at);
    lemma_scan_bounds(source, escape, ' ', i);
    let mark = skip_spaces(source, i);
    if mark < source.len() {
        lemma_scan_bounds(source, escape, ' ', mark + 1);
    }
    let start = if mark < source.len() && source[mark] == EXTERNAL {
        skip_spaces(source, mark + 1)
    } else {
        mark
    };
    if start < source.len() && !ends_command(source, start) {
        lemma_word_end(source, escape, open, start);
        if let Ok((_, next)) = word_at(source, escape, open, start) {
            lemma_args_end(source, escape, open, next);
        }
    }
}

/// The commands of a pipeline, read from character `i` of the source,
/// with the index of the closing brace. Pipes separate the commands.
#[verifier::opaque]
pub open spec fn commands_at(
    source: Seq<char>,
    escape: char,
    open: int,
    i: int,
    forced: bool,
) -> Result<(Seq<CommandView>, int), Flaw>
    decreases source.len() - i,
{
    if i < 0 || i > source.len() {
        Err(flaw_at(ErrorKind::UnmatchedExprStart, source, open))
    } else {
        match command_at(source, escape, open, i, forced) {
            Err(flaw) => Err(flaw),
            Ok((command, end)) => if end >= source.len() {
                Err(flaw_at(ErrorKind::UnmatchedExprStart, source, open))
            } else if source[end] == EXPR_END {
                Ok((seq![command], end))
            } else if skip_spaces(source, end + 1) >= source.len() {
                Err(flaw_at(ErrorKind::ExpectedFilter, source, source.len() as int))
            } else {
                proof {
                    lemma_command_end(source, escape, open, i, forced);
                }
                preceded(command, commands_at(source, escape, open, end + 1, false))
            },
        }
    }
}

/// The pipeline read from character `i` of the source, with the index of
/// the closing brace. Nothing but white space gives no commands.
pub open spec fn pipeline_at(
    source: Seq<char>,
    escape: char,
    open: int,
    i: int,
    forced: bool,
) -> Result<(Seq<CommandView>, int), Flaw> {
    let start = skip_spaces(source, i);
    if start >= source.len() {
        Err(flaw_at(ErrorKind::UnmatchedExprStart, source, open))
    } else if source[start] == EXPR_END {
        Ok((Seq::empty(), start))
    } else {
        commands_at(source, escape, open, start, forced)
    }
}

/// A pipeline ends at a closing brace.
pub proof fn lemma_pipeline_end(source: Seq<char>, escape: char, open: int, i: int, forced: bool)
    requires
        0 <= i <= source.len(),
    ensures
        commands_at(source, escape, open, i, forced) matches Ok((_, close)) ==> i < close
            < source.len() && source[close] == EXPR_END,
        pipeline_at(source, escape, open, i, forced) matches Ok((_, close)) ==> i <= close
            < source.len() && source[close] == EXPR_END,
    decreases source.len() - i,
{
    reveal(commands_at);
    lemma_scan_bounds(source, escape, ' ', i);
    lemma_command_end(source, escape, open, i, forced);
    if let Ok((_, end)) = command_at(source, escape, open, i, forced) {
        if end < source.len() && source[end] != EXPR_END {
            lemma_pipeline_end(source, escape, open, end + 1, false);
        }
    }
    let start = skip_spaces(source, i);
    if i < start < source.len() && source[start] != EXPR_END {
        lemma_pipeline_end(source, escape, open, start, forced);
    }
}

/// The marks at the start of an expression.
pub struct Modifiers {
    pub no_stdin: bool,
    pub external: bool,
    pub raw_shell: bool,
    /// Index of the character at which the body starts.
    pub end: int,
}

/// The marks read from character `i` of the source, where `no_stdin` and
/// `external` tell which marks were read before. White space may stand
/// between marks. A mark counts once; the mark of a shell command ends
/// the marks.
#[verifier::opaque]
pub open spec fn modifiers_at(source: Seq<char>, i: int, no_stdin: bool, external: bool) -> Modifiers
    decreases source.len() - i,
{
    let start = skip_spaces(source, i);
    if i < 0 || start >= source.len() {
        Modifiers { no_stdin, external, raw_shell: false, end: start }
    } else {
        proof {
            lemma_scan_bounds(source, ' ', ' ', i);
        }
        if source[start] == NO_STDIN && !no_stdin {
            modifiers_at(source, start + 1, true, external)
        } else if source[start] == EXTERNAL && !external {
            modifiers_at(source, start + 1, no_stdin, true)
        } else if source[start] == RAW_SHELL {
            Modifiers { no_stdin, external, raw_shell: true, end: start + 1 }
        } else {
            Modifiers { no_stdin, external, raw_shell: false, end: start }
        }
    }
}

/// The marks end inside the source.
pub proof fn lemma_modifiers_end(source: Seq<char>, i: int, no_stdin: bool, external: bool)
    requires
        0 <= i <= source.len(),
    ensures
        i <= modifiers_at(source, i, no_stdin, external).end <= source.len(),
    decreases source.len() - i,
{
    reveal(modifiers_at);
    lemma_scan_bounds(source, ' ', ' ', i);
    let start = skip_spaces(source, i);
    if start < source.len() {
        if source[start] == NO_STDIN && !no_stdin {
            lemma_modifiers_end(source, start + 1, true, external);
        } else if source[start] == EXTERNAL && !external {
            lemma_modifiers_end(source, start + 1, no_stdin, true);
        }
    }
}

/// The expression whose opening brace is character `open` of the source,
/// with the index of the character after its closing brace.
#[verifier::opaque]
pub open spec fn expression_at(source: Seq<char>, escape: char, open: int) -> Result<
    (ExpressionView, int),
    Flaw,
> {
    let marks = modifiers_at(source, open + 1, false, false);
    if marks.raw_shell {
        let close = shell_end(source, escape, marks.end);
        if close >= source.len() {
            Err(flaw_at(ErrorKind::UnmatchedExprStart, source, open))
        } else {
            Ok(
                (
                    ExpressionView {
                        raw_value: source.subrange(open, close + 1),
                        no_stdin: marks.no_stdin,
                        value: ExpressionValueView::RawShell(
                            shell_text(source, escape, marks.end),
                        ),
                    },
                    close + 1,
                ),
            )
        }
    } else {
        match pipeline_at(source, escape, open, marks.end, marks.external) {
            Err(flaw) => Err(flaw),
            Ok((commands, close)) => Ok(
                (
                    ExpressionView {
                        raw_value: source.subrange(open, close + 1),
                        no_stdin: marks.no_stdin,
                        value: ExpressionValueView::Pipeline(commands),
                    },
                    close + 1,
                ),
            ),
        }
    }
}

/// An expression ends after its opening brace, inside the source.
pub proof fn lemma_expression_end(source: Seq<char>, escape: char, open: int)
    requires
        0 <= open < source.len(),
    ensures
        expression_at(source, escape, open) matches Ok((_, next)) ==> open + 1 < next
            <= source.len(),
{
    reveal(expression_at);
    lemma_modifiers_end(source, open + 1, false, false);
    let marks = modifiers_at(source, open + 1, false, false);
    lemma_scan_bounds(source, escape, ' ', marks.end);
    lemma_pipeline_end(source, escape, open, marks.end, marks.external);
}

} // verus!

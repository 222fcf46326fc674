//! Reads a path pattern into its items.

use crate::pattern::error::{ParseError, ParseErrorKind, Refusal, Step};
use crate::pattern::lexer::{
    contiguous, joined, lemma_contiguous_joined, lemma_contiguous_ordered, lemma_token_end_bounds,
    token_at, token_end, views, Lexer, Parsed, Spanned, Token, TokenView, DEFAULT_ESCAPE,
};
use crate::pattern::reader::{span_at, Reader};
use crate::pattern::sequence::{continued, prefixed};
use crate::pattern::symbol::{duplicate, values, width_of, Char};
use crate::pattern::transform::{transform_at, Transform, TransformView};
use crate::pattern::variable::{variable_at, Variable};
use crate::text::{
    byte_offset, lemma_byte_offset_monotonic, lemma_byte_offset_step, lemma_utf8_len_is_encoded_len,
    utf8_len,
};
use vstd::prelude::*;
use vstd::utf8::encode_utf8;

verus! {

/// One part of a pattern.
#[derive(Debug, PartialEq)]
pub enum PatternItem {
    /// Text that goes to the output as it is.
    Constant(String),
    /// A variable and the transforms that its value runs through.
    Expression { variable: Parsed<Variable>, transforms: Vec<Parsed<Transform>> },
}

/// What an item holds.
pub enum PatternItemView {
    Constant(Seq<char>),
    Expression { variable: Spanned<Variable>, transforms: Seq<Spanned<TransformView>> },
}

impl View for PatternItem {
    type V = PatternItemView;

    open spec fn view(&self) -> PatternItemView {
        match self {
            PatternItem::Constant(value) => PatternItemView::Constant(value@),
            PatternItem::Expression { variable, transforms } => PatternItemView::Expression {
                variable: variable@,
                transforms: views(transforms@),
            },
        }
    }
}

/// A refusal of the given kind about the token that starts at character
/// `i` of the source; at the end of the source, about the empty range
/// there.
pub open spec fn refused_token(kind: ParseErrorKind, source: Seq<char>, escape: char, i: int) -> Refusal {
    Refusal {
        kind,
        start: byte_offset(source, i) as int,
        end: byte_offset(source, token_end(source, escape, i)) as int,
    }
}

/// The member of an expression that a run of ordinary characters spells,
/// where `parsed` is what the run was read as and the run takes the bytes
/// from `start` to `end` of the source. Nothing may follow the member
/// inside the run.
pub open spec fn member<V>(parsed: Step<V>, chars: Seq<Char>, start: int, end: int) -> Result<
    Spanned<V>,
    Refusal,
> {
    match parsed {
        Err(error) => Err(error.shifted(start)),
        Ok((value, after)) => if after < chars.len() {
            Err(
                Refusal {
                    kind: ParseErrorKind::ExpectedPipeOrExprEnd,
                    start: start + span_at(chars, after).0,
                    end: start + span_at(chars, after).1,
                },
            )
        } else {
            Ok(Spanned { value, start, end })
        },
    }
}

/// The variable that the token at character `i` of the source spells.
#[verifier::opaque]
pub open spec fn variable_member(source: Seq<char>, escape: char, i: int) -> Result<
    Spanned<Variable>,
    Refusal,
> {
    match token_at(source, escape, i) {
        Some(TokenView::Raw(chars)) => member(
            variable_at(chars),
            chars,
            byte_offset(source, i) as int,
            byte_offset(source, token_end(source, escape, i)) as int,
        ),
        _ => Err(refused_token(ParseErrorKind::ExpectedVariable, source, escape, i)),
    }
}

/// The transform that the token at character `i` of the source spells.
#[verifier::opaque]
pub open spec fn transform_member(source: Seq<char>, escape: char, i: int) -> Result<
    Spanned<TransformView>,
    Refusal,
> {
    match token_at(source, escape, i) {
        Some(TokenView::Raw(chars)) => member(
            transform_at(chars),
            chars,
            byte_offset(source, i) as int,
            byte_offset(source, token_end(source, escape, i)) as int,
        ),
        _ => Err(refused_token(ParseErrorKind::ExpectedTransform, source, escape, i)),
    }
}

/// The transforms of an expression, read from character `i` of the
/// source, with the index of the token that ends them: the closing brace,
/// or the end of the source. Each transform follows a pipe.
#[verifier::opaque]
pub open spec fn transforms_at(source: Seq<char>, escape: char, i: int) -> Result<
    (Seq<Spanned<TransformView>>, int),
    Refusal,
>
    decreases source.len() - i,
{
    match token_at(source, escape, i) {
        None => Ok((Seq::empty(), i)),
        Some(TokenView::ExprEnd) => Ok((Seq::empty(), i)),
        Some(TokenView::ExprStart) => Err(
            refused_token(ParseErrorKind::ExprStartInsideExpr, source, escape, i),
        ),
        Some(TokenView::Raw(_)) => Err(
            refused_token(ParseErrorKind::ExpectedPipeOrExprEnd, source, escape, i),
        ),
        Some(TokenView::Pipe) => match transform_member(source, escape, i + 1) {
            Err(error) => Err(error),
            Ok(transform) => {
                proof {
                    lemma_token_end_bounds(source, escape, i + 1);
                }
                prefixed(
                    seq![transform],
                    transforms_at(source, escape, token_end(source, escape, i + 1)),
                )
            },
        },
    }
}

/// The transforms of an expression end at or after where they start, at a
/// closing brace or at the end of the source.
pub proof fn lemma_transforms_end(source: Seq<char>, escape: char, i: int)
    requires
        0 <= i <= source.len(),
    ensures
        transforms_at(source, escape, i) matches Ok((_, close)) ==> {
            &&& i <= close <= source.len()
            &&& (token_at(source, escape, close) is None || token_at(source, escape, close)
                == Some(TokenView::ExprEnd))
        },
    decreases source.len() - i,
{
    reveal(transforms_at);
    if token_at(source, escape, i) == Some(TokenView::Pipe) {
        lemma_token_end_bounds(source, escape, i + 1);
        if transform_member(source, escape, i + 1) is Ok {
            lemma_transforms_end(source, escape, token_end(source, escape, i + 1));
        }
    }
}

/// The expression whose opening brace is character `i` of the source,
/// with the index of the character after its closing brace.
#[verifier::opaque]
pub open spec fn expression_at(source: Seq<char>, escape: char, i: int) -> Step<
    Spanned<PatternItemView>,
> {
    match variable_member(source, escape, i + 1) {
        Err(error) => Err(error),
        Ok(variable) => match transforms_at(source, escape, token_end(source, escape, i + 1)) {
            Err(error) => Err(error),
            Ok((transforms, close)) => if token_at(source, escape, close) == Some(
                TokenView::ExprEnd,
            ) {
                Ok(
                    (
                        Spanned {
                            value: PatternItemView::Expression { variable, transforms },
                            start: byte_offset(source, i) as int,
                            end: byte_offset(source, close + 1) as int,
                        },
                        close + 1,
                    ),
                )
            } else {
                Err(refused_token(ParseErrorKind::UnterminatedExprStart, source, escape, i))
            },
        },
    }
}

/// The item that starts at character `i` of the source, with the index of
/// the character after it; nothing at the end of the source.
#[verifier::opaque]
pub open spec fn item_at(source: Seq<char>, escape: char, i: int) -> Result<
    Option<(Spanned<PatternItemView>, int)>,
    Refusal,
> {
    match token_at(source, escape, i) {
        None => Ok(None),
        Some(TokenView::Raw(chars)) => Ok(
            Some(
                (
                    Spanned {
                        value: PatternItemView::Constant(values(chars)),
                        start: byte_offset(source, i) as int,
                        end: byte_offset(source, token_end(source, escape, i)) as int,
                    },
                    token_end(source, escape, i),
                ),
            ),
        ),
        Some(TokenView::ExprStart) => match expression_at(source, escape, i) {
            Err(error) => Err(error),
            Ok(expression) => Ok(Some(expression)),
        },
        Some(TokenView::ExprEnd) => Err(
            refused_token(ParseErrorKind::UnmatchedExprEnd, source, escape, i),
        ),
        Some(TokenView::Pipe) => Err(
            refused_token(ParseErrorKind::PipeOutsideExpr, source, escape, i),
        ),
    }
}

/// An item ends after where it starts, inside the source.
pub proof fn lemma_item_end(source: Seq<char>, escape: char, i: int)
    requires
        0 <= i <= source.len(),
    ensures
        item_at(source, escape, i) matches Ok(Some((item, end))) ==> {
            &&& i < end <= source.len()
            &&& item.start == byte_offset(source, i)
            &&& item.end == byte_offset(source, end)
        },
        item_at(source, escape, i) matches Ok(None) ==> i == source.len(),
{
    reveal(item_at);
    reveal(expression_at);
    reveal(variable_member);
    lemma_token_end_bounds(source, escape, i);
    if i < source.len() {
        lemma_token_end_bounds(source, escape, i + 1);
        lemma_transforms_end(source, escape, token_end(source, escape, i + 1));
    }
}

/// The items of the source from character `i` on.
#[verifier::opaque]
pub open spec fn items_at(source: Seq<char>, escape: char, i: int) -> Result<
    Seq<Spanned<PatternItemView>>,
    Refusal,
>
    decreases source.len() - i,
{
    if i < 0 || i > source.len() {
        Ok(Seq::empty())
    } else {
        match item_at(source, escape, i) {
            Err(error) => Err(error),
            Ok(None) => Ok(Seq::empty()),
            Ok(Some((item, end))) => {
                proof {
                    lemma_item_end(source, escape, i);
                }
                match items_at(source, escape, end) {
                    Err(error) => Err(error),
                    Ok(items) => Ok(seq![item] + items),
                }
            },
        }
    }
}

/// What a pattern is read as: its items in order, each with the byte range
/// of the source it was read from, or the first refusal.
pub open spec fn parse_pattern(source: Seq<char>, escape: char) -> Result<
    Seq<Spanned<PatternItemView>>,
    Refusal,
> {
    items_at(source, escape, 0)
}

/// The items read from character `i` on follow one another without a gap,
/// from the byte at which that character starts to the end of the source.
pub proof fn lemma_items_contiguous(source: Seq<char>, escape: char, i: int)
    requires
        0 <= i <= source.len(),
    ensures
        items_at(source, escape, i) matches Ok(items) ==> contiguous(
            items,
            byte_offset(source, i) as int,
            utf8_len(source) as int,
        ),
    decreases source.len() - i,
{
    reveal(items_at);
    lemma_item_end(source, escape, i);
    assert(source.take(source.len() as int) =~= source);
    match item_at(source, escape, i) {
        Ok(Some((item, end))) => {
            lemma_items_contiguous(source, escape, end);
            lemma_byte_offset_step(source, i);
            lemma_byte_offset_monotonic(source, i + 1, end);
            if let Ok(items) = items_at(source, escape, end) {
                assert((seq![item] + items).drop_first() =~= items);
            }
        },
        _ => {},
    }
}

/// The items of a pattern take the source apart: their byte ranges,
/// joined in order, give back the encoded source, and no two of them
/// overlap.
pub proof fn lemma_items_cover_source(source: Seq<char>, escape: char)
    ensures
        parse_pattern(source, escape) matches Ok(items) ==> {
            &&& joined(encode_utf8(source), items) == encode_utf8(source)
            &&& forall|i: int, j: int|
                0 <= i < j < items.len() ==> 0 <= (#[trigger] items[i]).start < items[i].end <= (
                #[trigger] items[j]).start
            &&& forall|i: int|
                0 <= i < items.len() ==> 0 <= (#[trigger] items[i]).start < items[i].end
                    <= encode_utf8(source).len()
        },
{
    lemma_items_contiguous(source, escape, 0);
    lemma_utf8_len_is_encoded_len(source);
    assert(source.take(0).len() == 0);
    if let Ok(items) = parse_pattern(source, escape) {
        let bytes = encode_utf8(source);
        lemma_contiguous_joined(bytes, items, 0, bytes.len() as int);
        assert(bytes.subrange(0, bytes.len() as int) =~= bytes);
        assert forall|i: int, j: int| 0 <= i < j < items.len() implies 0 <= (
        #[trigger] items[i]).start < items[i].end <= (#[trigger] items[j]).start by {
            lemma_contiguous_ordered(items, 0, bytes.len() as int, i, j);
        }
        assert forall|i: int| 0 <= i < items.len() implies 0 <= (#[trigger] items[i]).start
            < items[i].end <= bytes.len() by {
            crate::pattern::lexer::lemma_contiguous_within(items, 0, bytes.len() as int, i);
        }
    }
}

/// Reads the items of a pattern one after another.
pub struct Parser {
    lexer: Lexer,
    token: Option<Parsed<Token>>,
    cursor: Ghost<int>,
}

impl Parser {
    /// The characters of the pattern.
    pub closed spec fn source(&self) -> Seq<char> {
        self.lexer.source()
    }

    /// The escape character of the pattern.
    pub closed spec fn escape(&self) -> char {
        self.lexer.escape()
    }

    /// Index of the character at which the token read last starts.
    pub closed spec fn cursor(&self) -> int {
        self.cursor@
    }

    /// Index of the character at which the next token starts.
    pub closed spec fn pending(&self) -> int {
        self.lexer.index()
    }

    /// What the token read last holds, if there is one.
    pub closed spec fn token_kind(&self) -> Option<TokenView> {
        match self.token {
            Some(parsed) => Some(parsed.value@),
            None => None,
        }
    }

    /// The token read last is the one at the cursor, and the next token
    /// starts where that one ends.
    pub closed spec fn wf(&self) -> bool {
        let source = self.lexer.source();
        let escape = self.lexer.escape();
        &&& 0 <= self.cursor@ <= self.lexer.index() <= source.len()
        &&& match self.token {
            Some(parsed) => {
                &&& Some(parsed.value@) == token_at(source, escape, self.cursor@)
                &&& self.lexer.index() == token_end(source, escape, self.cursor@)
                &&& parsed.start == byte_offset(source, self.cursor@)
                &&& parsed.end == byte_offset(source, self.lexer.index())
                &&& parsed.value matches Token::Raw(chars) ==> parsed.end == parsed.start
                    + width_of(chars@)
            },
            None => self.cursor@ == self.lexer.index(),
        }
    }

    /// A parser that reads from the given lexer.
    pub fn new(lexer: Lexer) -> (parser: Self)
        ensures
            parser.wf(),
            parser.source() == lexer.source(),
            parser.escape() == lexer.escape(),
            parser.pending() == lexer.index(),
    {
        let cursor = lexer.cursor();
        Self { lexer, token: None, cursor: Ghost(cursor as int) }
    }

    /// A parser at the start of `string`, with the usual escape character.
    pub fn from(string: &str) -> (parser: Self)
        ensures
            parser.wf(),
            parser.source() == string@,
            parser.escape() == DEFAULT_ESCAPE,
            parser.pending() == 0,
    {
        Self::new(Lexer::new(string, DEFAULT_ESCAPE))
    }

    /// Reads the items that are left. On a fresh parser these are the items
    /// of the whole pattern.
    pub fn parse_items(&mut self) -> (result: Result<Vec<Parsed<PatternItem>>, ParseError>)
        requires
            old(self).wf(),
        ensures
            final(self).wf(),
            final(self).source() == old(self).source(),
            final(self).escape() == old(self).escape(),
            match items_at(old(self).source(), old(self).escape(), old(self).pending()) {
                Ok(items) => result is Ok && views(result->Ok_0@) == items,
                Err(error) => result is Err && result->Err_0@ == error,
            },
    {
        let mut items: Vec<Parsed<PatternItem>> = Vec::new();
        let ghost source = self.source();
        let ghost escape = self.escape();
        let ghost start = self.pending();
        proof {
            assert(views(items@) =~= Seq::empty());
            match items_at(source, escape, start) {
                Ok(all) => {
                    assert(Seq::<Spanned<PatternItemView>>::empty() + all =~= all);
                },
                Err(_) => {},
            }
        }
        loop
            invariant
                self.wf(),
                self.source() == source,
                self.escape() == escape,
                source == old(self).source(),
                escape == old(self).escape(),
                start == old(self).pending(),
                items_at(source, escape, start) == continued(
                    views(items@),
                    items_at(source, escape, self.pending()),
                ),
            decreases source.len() - self.pending(),
        {
            let ghost at = self.pending();
            let ghost before = items@;
            proof {
                reveal(items_at);
                lemma_item_end(source, escape, at);
            }
            match self.parse_item() {
                Err(error) => {
                    return Err(error);
                },
                Ok(None) => {
                    proof {
                        assert(views(items@) + Seq::<Spanned<PatternItemView>>::empty()
                            =~= views(items@));
                    }
                    return Ok(items);
                },
                Ok(Some(item)) => {
                    proof {
                        let rest = items_at(source, escape, self.pending());
                        assert(views(before.push(item)) =~= views(before).push(item@));
                        if let Ok(values) = rest {
                            assert(views(before) + (seq![item@] + values) =~= views(before).push(
                                item@,
                            ) + values);
                        }
                    }
                    items.push(item);
                },
            }
        }
    }

    /// Reads the next item, if the pattern goes on.
    fn parse_item(&mut self) -> (result: Result<Option<Parsed<PatternItem>>, ParseError>)
        requires
            old(self).wf(),
        ensures
            final(self).wf(),
            final(self).source() == old(self).source(),
            final(self).escape() == old(self).escape(),
            match item_at(old(self).source(), old(self).escape(), old(self).pending()) {
                Ok(Some((item, end))) => result matches Ok(Some(parsed)) && parsed@ == item
                    && final(self).pending() == end,
                Ok(None) => result matches Ok(None) && final(self).pending() == old(self).pending(),
                Err(error) => result is Err && result->Err_0@ == error,
            },
    {
        let ghost source = self.source();
        let ghost escape = self.escape();
        let ghost at = self.pending();
        proof {
            reveal(item_at);
            reveal(expression_at);
        }
        self.fetch_token();
        match &self.token {
            None => Ok(None),
            Some(token) => match &token.value {
                Token::Raw(raw) => Ok(
                    Some(
                        Parsed {
                            value: PatternItem::Constant(Char::join(raw)),
                            start: token.start,
                            end: token.end,
                        },
                    ),
                ),
                Token::ExprStart => {
                    let start = token.start;
                    let end = token.end;
                    proof {
                        lemma_byte_offset_step(source, at);
                        lemma_token_end_bounds(source, escape, at + 1);
                        lemma_transforms_end(source, escape, token_end(source, escape, at + 1));
                    }
                    let expression = match self.parse_expression() {
                        Ok(expression) => expression,
                        Err(error) => {
                            return Err(error);
                        },
                    };
                    match self.token_value() {
                        Some(Token::ExprEnd) => Ok(expression),
                        _ => Err(
                            ParseError { kind: ParseErrorKind::UnterminatedExprStart, start, end },
                        ),
                    }
                },
                Token::ExprEnd => Err(
                    ParseError {
                        kind: ParseErrorKind::UnmatchedExprEnd,
                        start: token.start,
                        end: token.end,
                    },
                ),
                Token::Pipe => Err(
                    ParseError {
                        kind: ParseErrorKind::PipeOutsideExpr,
                        start: token.start,
                        end: token.end,
                    },
                ),
            },
        }
    }

    /// Reads the expression whose opening brace is the token read last.
    /// Its range ends with the token that ended its transforms.
    fn parse_expression(&mut self) -> (result: Result<Option<Parsed<PatternItem>>, ParseError>)
        requires
            old(self).wf(),
            old(self).token_kind() == Some(TokenView::ExprStart),
        ensures
            final(self).wf(),
            final(self).source() == old(self).source(),
            final(self).escape() == old(self).escape(),
            match variable_member(old(self).source(), old(self).escape(), old(self).pending()) {
                Err(error) => result is Err && result->Err_0@ == error,
                Ok(variable) => match transforms_at(
                    old(self).source(),
                    old(self).escape(),
                    token_end(old(self).source(), old(self).escape(), old(self).pending()),
                ) {
                    Err(error) => result is Err && result->Err_0@ == error,
                    Ok((transforms, close)) => {
                        &&& result matches Ok(Some(parsed))
                        &&& parsed.value@ == PatternItemView::Expression { variable, transforms }
                        &&& parsed.start == byte_offset(old(self).source(), old(self).cursor())
                        &&& final(self).cursor() == close
                        &&& final(self).pending() == token_end(
                            old(self).source(),
                            old(self).escape(),
                            close,
                        )
                        &&& (token_at(old(self).source(), old(self).escape(), close) is Some
                            ==> parsed.end == byte_offset(old(self).source(), close + 1))
                        &&& final(self).token_kind() == token_at(
                            old(self).source(),
                            old(self).escape(),
                            close,
                        )
                    },
                },
            },
    {
        proof {
            lemma_token_end_bounds(self.source(), self.escape(), self.pending());
            lemma_transforms_end(
                self.source(),
                self.escape(),
                token_end(self.source(), self.escape(), self.pending()),
            );
        }
        let start = self.token_start();
        let variable = match self.parse_variable() {
            Ok(variable) => variable,
            Err(error) => {
                return Err(error);
            },
        };
        let transforms = match self.parse_transforms() {
            Ok(transforms) => transforms,
            Err(error) => {
                return Err(error);
            },
        };
        let end = self.token_end();
        Ok(Some(Parsed { value: PatternItem::Expression { variable, transforms }, start, end }))
    }

    /// Reads the variable of an expression.
    fn parse_variable(&mut self) -> (result: Result<Parsed<Variable>, ParseError>)
        requires
            old(self).wf(),
        ensures
            final(self).wf(),
            final(self).source() == old(self).source(),
            final(self).escape() == old(self).escape(),
            match variable_member(old(self).source(), old(self).escape(), old(self).pending()) {
                Ok(variable) => result is Ok && result->Ok_0@ == variable && final(self).pending()
                    == token_end(old(self).source(), old(self).escape(), old(self).pending()),
                Err(error) => result is Err && result->Err_0@ == error,
            },
    {
        proof {
            reveal(variable_member);
        }
        let mut reader = match self.parse_expression_member(ParseErrorKind::ExpectedVariable) {
            Ok(reader) => reader,
            Err(error) => {
                return Err(error);
            },
        };
        let position = self.token_start();
        match Variable::parse(&mut reader) {
            Err(error) => Err(
                ParseError {
                    kind: error.kind,
                    start: position + error.start,
                    end: position + error.end,
                },
            ),
            Ok(value) => match self.expect_end(&reader) {
                Err(error) => Err(error),
                Ok(()) => Ok(Parsed { value, start: position, end: self.token_end() }),
            },
        }
    }

    /// Reads the transforms of an expression, up to the token that ends
    /// them.
    fn parse_transforms(&mut self) -> (result: Result<Vec<Parsed<Transform>>, ParseError>)
        requires
            old(self).wf(),
        ensures
            final(self).wf(),
            final(self).source() == old(self).source(),
            final(self).escape() == old(self).escape(),
            match transforms_at(old(self).source(), old(self).escape(), old(self).pending()) {
                Ok((transforms, close)) => {
                    &&& result is Ok
                    &&& views(result->Ok_0@) == transforms
                    &&& final(self).cursor() == close
                    &&& final(self).pending() == token_end(
                        old(self).source(),
                        old(self).escape(),
                        close,
                    )
                    &&& final(self).token_kind() == token_at(
                        old(self).source(),
                        old(self).escape(),
                        close,
                    )
                },
                Err(error) => result is Err && result->Err_0@ == error,
            },
    {
        let mut transforms: Vec<Parsed<Transform>> = Vec::new();
        let ghost source = self.source();
        let ghost escape = self.escape();
        let ghost start = self.pending();
        proof {
            assert(views(transforms@) =~= Seq::empty());
            match transforms_at(source, escape, start) {
                Ok((all, _)) => {
                    assert(Seq::<Spanned<TransformView>>::empty() + all =~= all);
                },
                Err(_) => {},
            }
        }
        loop
            invariant
                self.wf(),
                self.source() == source,
                self.escape() == escape,
                source == old(self).source(),
                escape == old(self).escape(),
                start == old(self).pending(),
                transforms_at(source, escape, start) == prefixed(
                    views(transforms@),
                    transforms_at(source, escape, self.pending()),
                ),
            decreases source.len() - self.pending(),
        {
            let ghost at = self.pending();
            let ghost before = transforms@;
            proof {
                reveal(transforms_at);
                lemma_token_end_bounds(source, escape, at);
                if at < source.len() {
                    lemma_token_end_bounds(source, escape, at + 1);
                }
            }
            self.fetch_token();
            match &self.token {
                None => {
                    proof {
                        assert(views(transforms@) + Seq::<Spanned<TransformView>>::empty()
                            =~= views(transforms@));
                    }
                    return Ok(transforms);
                },
                Some(token) => match &token.value {
                    Token::Pipe => {
                        match self.parse_transform() {
                            Ok(transform) => {
                                proof {
                                    let rest = transforms_at(source, escape, self.pending());
                                    assert(views(before.push(transform)) =~= views(before).push(
                                        transform@,
                                    ));
                                    if let Ok((values, _)) = rest {
                                        assert(views(before) + (seq![transform@] + values)
                                            =~= views(before).push(transform@) + values);
                                    }
                                }
                                transforms.push(transform);
                            },
                            Err(error) => {
                                return Err(error);
                            },
                        }
                    },
                    Token::ExprStart => {
                        return Err(
                            ParseError {
                                kind: ParseErrorKind::ExprStartInsideExpr,
                                start: token.start,
                                end: token.end,
                            },
                        );
                    },
                    Token::ExprEnd => {
                        proof {
                            assert(views(transforms@) + Seq::<Spanned<TransformView>>::empty()
                                =~= views(transforms@));
                        }
                        return Ok(transforms);
                    },
                    Token::Raw(_) => {
                        return Err(
                            ParseError {
                                kind: ParseErrorKind::ExpectedPipeOrExprEnd,
                                start: token.start,
                                end: token.end,
                            },
                        );
                    },
                },
            }
        }
    }

    /// Reads the transform that follows a pipe.
    fn parse_transform(&mut self) -> (result: Result<Parsed<Transform>, ParseError>)
        requires
            old(self).wf(),
        ensures
            final(self).wf(),
            final(self).source() == old(self).source(),
            final(self).escape() == old(self).escape(),
            match transform_member(old(self).source(), old(self).escape(), old(self).pending()) {
                Ok(transform) => result is Ok && result->Ok_0@ == transform
                    && final(self).pending() == token_end(
                    old(self).source(),
                    old(self).escape(),
                    old(self).pending(),
                ),
                Err(error) => result is Err && result->Err_0@ == error,
            },
    {
        proof {
            reveal(transform_member);
        }
        let mut reader = match self.parse_expression_member(ParseErrorKind::ExpectedTransform) {
            Ok(reader) => reader,
            Err(error) => {
                return Err(error);
            },
        };
        let position = self.token_start();
        match Transform::parse(&mut reader) {
            Err(error) => Err(
                ParseError {
                    kind: error.kind,
                    start: position + error.start,
                    end: position + error.end,
                },
            ),
            Ok(value) => match self.expect_end(&reader) {
                Err(error) => Err(error),
                Ok(()) => Ok(Parsed { value, start: position, end: self.token_end() }),
            },
        }
    }

    /// Reads the token of a member of an expression, which must be a run of
    /// ordinary characters, and gives a reader over that run. Anything
    /// else is refused with the given reason: another token over its
    /// range, the end of the pattern over the empty range there.
    fn parse_expression_member(&mut self, error_kind: ParseErrorKind) -> (result: Result<
        Reader,
        ParseError,
    >)
        requires
            old(self).wf(),
        ensures
            final(self).wf(),
            final(self).source() == old(self).source(),
            final(self).escape() == old(self).escape(),
            final(self).cursor() == old(self).pending(),
            final(self).pending() == token_end(
                old(self).source(),
                old(self).escape(),
                old(self).pending(),
            ),
            final(self).token_kind() == token_at(
                old(self).source(),
                old(self).escape(),
                old(self).pending(),
            ),
            match token_at(old(self).source(), old(self).escape(), old(self).pending()) {
                Some(TokenView::Raw(chars)) => {
                    &&& result is Ok
                    &&& result->Ok_0.chars() == chars
                    &&& result->Ok_0.index() == 0
                    &&& final(self).token_span().1 == final(self).token_span().0 + width_of(chars)
                },
                _ => result is Err && result->Err_0@ == refused_token(
                    error_kind,
                    old(self).source(),
                    old(self).escape(),
                    old(self).pending(),
                ),
            },
            final(self).token_span().0 == byte_offset(old(self).source(), old(self).pending()),
            final(self).token_span().1 == byte_offset(
                old(self).source(),
                token_end(old(self).source(), old(self).escape(), old(self).pending()),
            ),
    {
        let position = self.lexer.position();
        self.fetch_token();
        match &self.token {
            None => Err(ParseError { kind: error_kind, start: position, end: position }),
            Some(token) => match &token.value {
                Token::Raw(raw) => Ok(Reader::new(duplicate(raw))),
                _ => Err(ParseError { kind: error_kind, start: token.start, end: token.end }),
            },
        }
    }

    /// The byte range of the token read last; where there is none, the
    /// empty range at the place of the next token.
    pub closed spec fn token_span(&self) -> (int, int) {
        match self.token {
            Some(token) => (token.start as int, token.end as int),
            None => (
                byte_offset(self.lexer.source(), self.lexer.index()) as int,
                byte_offset(self.lexer.source(), self.lexer.index()) as int,
            ),
        }
    }

    /// Checks that the reader over the token read last has nothing left.
    fn expect_end(&self, reader: &Reader) -> (result: Result<(), ParseError>)
        requires
            self.token_span().1 == self.token_span().0 + width_of(reader.chars()),
            self.token is Some,
        ensures
            reader.index() == reader.chars().len() ==> result is Ok,
            reader.index() < reader.chars().len() ==> result is Err && result->Err_0@ == (Refusal {
                kind: ParseErrorKind::ExpectedPipeOrExprEnd,
                start: self.token_span().0 + span_at(reader.chars(), reader.index()).0,
                end: self.token_span().0 + span_at(reader.chars(), reader.index()).1,
            }),
    {
        let position = self.token_start();
        let span = reader.span();
        match reader.peek() {
            Some(_) => Err(
                ParseError {
                    kind: ParseErrorKind::ExpectedPipeOrExprEnd,
                    start: position + span.0,
                    end: position + span.1,
                },
            ),
            None => Ok(()),
        }
    }

    /// Reads the next token and makes it the token read last.
    fn fetch_token(&mut self)
        requires
            old(self).wf(),
        ensures
            final(self).wf(),
            final(self).source() == old(self).source(),
            final(self).escape() == old(self).escape(),
            final(self).cursor() == old(self).pending(),
            final(self).pending() == token_end(
                old(self).source(),
                old(self).escape(),
                old(self).pending(),
            ),
            final(self).token_kind() == token_at(
                old(self).source(),
                old(self).escape(),
                old(self).pending(),
            ),
            final(self).token_span().0 == byte_offset(old(self).source(), old(self).pending()),
            final(self).token_span().1 == byte_offset(
                old(self).source(),
                token_end(old(self).source(), old(self).escape(), old(self).pending()),
            ),
    {
        self.cursor = Ghost(self.lexer.index());
        self.token = self.lexer.read_token();
    }

    /// The token read last, if there is one.
    fn token_value(&self) -> (value: Option<&Token>)
        ensures
            match value {
                Some(token) => Some(token@) == self.token_kind(),
                None => self.token_kind() is None,
            },
    {
        match &self.token {
            Some(token) => Some(&token.value),
            None => None,
        }
    }

    /// Byte offset at which the token read last starts; 0 where there is
    /// none.
    fn token_start(&self) -> (start: usize)
        ensures
            match self.token {
                Some(token) => start == token.start,
                None => start == 0,
            },
    {
        match &self.token {
            Some(token) => token.start,
            None => 0,
        }
    }

    /// Byte offset at which the token read last ends; 0 where there is
    /// none.
    fn token_end(&self) -> (end: usize)
        ensures
            match self.token {
                Some(token) => end == token.end,
                None => end == 0,
            },
    {
        match &self.token {
            Some(token) => token.end,
            None => 0,
        }
    }
}

} // verus!

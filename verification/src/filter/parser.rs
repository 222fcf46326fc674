//! Reads a filter pattern into its items.

use crate::filter::{filter_at, Filter, FilterView};
use crate::filter::parse::{Config, ConfigView, Error, ErrorKind, ErrorKindView, ErrorView, Parsed};
use crate::pattern::escape::{escaped, push_escaped};
use crate::pattern::lexer::{
    contiguous, joined, lemma_contiguous_joined, lemma_contiguous_ordered, lemma_contiguous_within,
    lemma_token_end_bounds, token_at, token_end, views, Lexer, Spanned, Token, TokenView,
};
use crate::pattern::reader::{span_at, Reader};
use crate::pattern::sequence::{continued, lemma_prefixed_step, preceded, prefixed};
use crate::pattern::symbol::{duplicate, values, width_of, Char};
use crate::text::{
    byte_offset, decimal_text, lemma_byte_offset_monotonic, lemma_byte_offset_step,
    lemma_utf8_len_is_encoded_len, push_decimal, push_text, utf8_len,
};
use std::ops::Range;
use vstd::prelude::*;
use vstd::utf8::encode_utf8;

verus! {

/// One part of a pattern.
#[derive(Debug, PartialEq)]
pub enum Item {
    /// Text that goes to the output as it is.
    Constant(String),
    /// A chain of filters that the input value runs through.
    Expression(Vec<Parsed<Filter>>),
}

/// What an item holds.
pub enum ItemView {
    Constant(Seq<char>),
    Expression(Seq<Spanned<FilterView>>),
}

impl View for Item {
    type V = ItemView;

    open spec fn view(&self) -> ItemView {
        match self {
            Item::Constant(value) => ItemView::Constant(value@),
            Item::Expression(filters) => ItemView::Expression(views(filters@)),
        }
    }
}

/// A refusal of the given kind about the token that starts at character
/// `i` of the source.
pub open spec fn refused_token(kind: ErrorKindView, source: Seq<char>, escape: char, i: int) -> ErrorView {
    ErrorView {
        kind,
        start: byte_offset(source, i) as int,
        end: byte_offset(source, token_end(source, escape, i)) as int,
    }
}

/// The filter that a run of ordinary characters spells, where the run
/// takes the bytes from `start` to `end` of the source. Nothing may follow
/// the filter inside the run.
#[verifier::opaque]
pub open spec fn member(chars: Seq<Char>, config: ConfigView, start: int, end: int) -> Result<
    Spanned<FilterView>,
    ErrorView,
> {
    match filter_at(chars, config) {
        Err(error) => Err(error.shifted(start)),
        Ok((filter, after)) => if after < chars.len() {
            Err(
                ErrorView {
                    kind: ErrorKindView::ExpectedPipeOrExprEnd,
                    start: start + span_at(chars, after).0,
                    end: start + span_at(chars, after).1,
                },
            )
        } else {
            Ok(Spanned { value: filter, start, end })
        },
    }
}

/// The filter that the token at character `i` of the source spells.
pub open spec fn member_at(source: Seq<char>, config: ConfigView, i: int) -> Result<
    Spanned<FilterView>,
    ErrorView,
> {
    match token_at(source, config.escape, i) {
        Some(TokenView::Raw(chars)) => member(
            chars,
            config,
            byte_offset(source, i) as int,
            byte_offset(source, token_end(source, config.escape, i)) as int,
        ),
        _ => Err(refused_token(ErrorKindView::ExpectedFilter, source, config.escape, i)),
    }
}

/// The filters of an expression, read from character `i` of the source,
/// with the index of the token that ends them: the closing brace, or the
/// end of the source. Filters are separated by pipes; `first` tells that
/// no filter was read yet, where a pipe is out of place.
#[verifier::opaque]
pub open spec fn filters_at(source: Seq<char>, config: ConfigView, i: int, first: bool) -> Result<
    (Seq<Spanned<FilterView>>, int),
    ErrorView,
>
    decreases source.len() - i,
{
    let escape = config.escape;
    match token_at(source, escape, i) {
        None => Ok((Seq::empty(), i)),
        Some(TokenView::ExprEnd) => Ok((Seq::empty(), i)),
        Some(TokenView::ExprStart) => Err(
            refused_token(ErrorKindView::ExprStartInsideExpr, source, escape, i),
        ),
        Some(TokenView::Raw(_)) => match member_at(source, config, i) {
            Err(error) => Err(error),
            Ok(filter) => {
                proof {
                    lemma_token_end_bounds(source, escape, i);
                }
                preceded(filter, filters_at(source, config, token_end(source, escape, i), false))
            },
        },
        Some(TokenView::Pipe) => if first {
            Err(refused_token(ErrorKindView::ExpectedFilterOrExprEnd, source, escape, i))
        } else {
            match token_at(source, escape, i + 1) {
                None => Err(
                    ErrorView {
                        kind: ErrorKindView::ExpectedFilter,
                        start: byte_offset(source, i + 1) as int,
                        end: byte_offset(source, i + 1) as int,
                    },
                ),
                Some(_) => match member_at(source, config, i + 1) {
                    Err(error) => Err(error),
                    Ok(filter) => {
                        proof {
                            lemma_token_end_bounds(source, escape, i + 1);
                        }
                        preceded(
                            filter,
                            filters_at(source, config, token_end(source, escape, i + 1), false),
                        )
                    },
                },
            }
        },
    }
}

/// The filters of an expression end at or after where they start, at a
/// closing brace or at the end of the source.
pub proof fn lemma_filters_end(source: Seq<char>, config: ConfigView, i: int, first: bool)
    requires
        0 <= i <= source.len(),
    ensures
        filters_at(source, config, i, first) matches Ok((_, close)) ==> {
            &&& i <= close <= source.len()
            &&& (token_at(source, config.escape, close) is None || token_at(
                source,
                config.escape,
                close,
            ) == Some(TokenView::ExprEnd))
        },
    decreases source.len() - i,
{
    reveal(filters_at);
    let escape = config.escape;
    match token_at(source, escape, i) {
        Some(TokenView::Raw(_)) => {
            lemma_token_end_bounds(source, escape, i);
            lemma_filters_end(source, config, token_end(source, escape, i), false);
        },
        Some(TokenView::Pipe) => {
            if !first && token_at(source, escape, i + 1) is Some {
                lemma_token_end_bounds(source, escape, i + 1);
                lemma_filters_end(source, config, token_end(source, escape, i + 1), false);
            }
        },
        _ => {},
    }
}

/// The item that starts at character `i` of the source, with the index of
/// the character after it; nothing at the end of the source.
#[verifier::opaque]
pub open spec fn item_at(source: Seq<char>, config: ConfigView, i: int) -> Result<
    Option<(Spanned<ItemView>, int)>,
    ErrorView,
> {
    let escape = config.escape;
    match token_at(source, escape, i) {
        None => Ok(None),
        Some(TokenView::Raw(chars)) => Ok(
            Some(
                (
                    Spanned {
                        value: ItemView::Constant(values(chars)),
                        start: byte_offset(source, i) as int,
                        end: byte_offset(source, token_end(source, escape, i)) as int,
                    },
                    token_end(source, escape, i),
                ),
            ),
        ),
        Some(TokenView::ExprStart) => match filters_at(source, config, i + 1, true) {
            Err(error) => Err(error),
            Ok((filters, close)) => if token_at(source, escape, close) == Some(TokenView::ExprEnd) {
                Ok(
                    Some(
                        (
                            Spanned {
                                value: ItemView::Expression(filters),
                                start: byte_offset(source, i) as int,
                                end: byte_offset(source, close + 1) as int,
                            },
                            close + 1,
                        ),
                    ),
                )
            } else {
                Err(refused_token(ErrorKindView::UnmatchedExprStart, source, escape, i))
            },
        },
        Some(TokenView::ExprEnd) => Err(
            refused_token(ErrorKindView::UnmatchedExprEnd, source, escape, i),
        ),
        Some(TokenView::Pipe) => Err(
            refused_token(ErrorKindView::PipeOutsideExpr, source, escape, i),
        ),
    }
}

/// An item ends after where it starts, inside the source.
pub proof fn lemma_item_end(source: Seq<char>, config: ConfigView, i: int)
    requires
        0 <= i <= source.len(),
    ensures
        item_at(source, config, i) matches Ok(Some((item, end))) ==> {
            &&& i < end <= source.len()
            &&& item.start == byte_offset(source, i)
            &&& item.end == byte_offset(source, end)
        },
        item_at(source, config, i) matches Ok(None) ==> i == source.len(),
{
    reveal(item_at);
    lemma_token_end_bounds(source, config.escape, i);
    if i < source.len() {
        lemma_filters_end(source, config, i + 1, true);
    }
}

/// The items of the source from character `i` on.
#[verifier::opaque]
pub open spec fn items_at(source: Seq<char>, config: ConfigView, i: int) -> Result<
    Seq<Spanned<ItemView>>,
    ErrorView,
>
    decreases source.len() - i,
{
    if i < 0 || i > source.len() {
        Ok(Seq::empty())
    } else {
        match item_at(source, config, i) {
            Err(error) => Err(error),
            Ok(None) => Ok(Seq::empty()),
            Ok(Some((item, end))) => {
                proof {
                    lemma_item_end(source, config, i);
                }
                match items_at(source, config, end) {
                    Err(error) => Err(error),
                    Ok(items) => Ok(seq![item] + items),
                }
            },
        }
    }
}

/// What a pattern is read as: its items in order, each with the byte range
/// of the source it was read from, or the first refusal.
pub open spec fn parse_pattern(source: Seq<char>, config: ConfigView) -> Result<
    Seq<Spanned<ItemView>>,
    ErrorView,
> {
    items_at(source, config, 0)
}

/// The items read from character `i` on follow one another without a gap,
/// from the byte at which that character starts to the end of the source.
pub proof fn lemma_items_contiguous(source: Seq<char>, config: ConfigView, i: int)
    requires
        0 <= i <= source.len(),
    ensures
        items_at(source, config, i) matches Ok(items) ==> contiguous(
            items,
            byte_offset(source, i) as int,
            utf8_len(source) as int,
        ),
    decreases source.len() - i,
{
    reveal(items_at);
    lemma_item_end(source, config, i);
    assert(source.take(source.len() as int) =~= source);
    match item_at(source, config, i) {
        Ok(Some((item, end))) => {
            lemma_items_contiguous(source, config, end);
            lemma_byte_offset_step(source, i);
            lemma_byte_offset_monotonic(source, i + 1, end);
            if let Ok(items) = items_at(source, config, end) {
                assert((seq![item] + items).drop_first() =~= items);
            }
        },
        _ => {},
    }
}

/// The items of a pattern take the source apart: their byte ranges,
/// joined in order, give back the encoded source, and no two of them
/// overlap.
pub proof fn lemma_items_cover_source(source: Seq<char>, config: ConfigView)
    ensures
        parse_pattern(source, config) matches Ok(items) ==> {
            &&& joined(encode_utf8(source), items) == encode_utf8(source)
            &&& forall|i: int, j: int|
                0 <= i < j < items.len() ==> 0 <= (#[trigger] items[i]).start < items[i].end <= (
                #[trigger] items[j]).start
            &&& forall|i: int|
                0 <= i < items.len() ==> 0 <= (#[trigger] items[i]).start < items[i].end
                    <= encode_utf8(source).len()
        },
{
    lemma_items_contiguous(source, config, 0);
    lemma_utf8_len_is_encoded_len(source);
    assert(source.take(0).len() == 0);
    if let Ok(items) = parse_pattern(source, config) {
        let bytes = encode_utf8(source);
        lemma_contiguous_joined(bytes, items, 0, bytes.len() as int);
        assert(bytes.subrange(0, bytes.len() as int) =~= bytes);
        assert forall|i: int, j: int| 0 <= i < j < items.len() implies 0 <= (
        #[trigger] items[i]).start < items[i].end <= (#[trigger] items[j]).start by {
            lemma_contiguous_ordered(items, 0, bytes.len() as int, i, j);
        }
        assert forall|i: int| 0 <= i < items.len() implies 0 <= (#[trigger] items[i]).start
            < items[i].end <= bytes.len() by {
            lemma_contiguous_within(items, 0, bytes.len() as int, i);
        }
    }
}

/// How an item is described to the user.
pub open spec fn item_text(item: ItemView) -> Seq<char> {
    match item {
        ItemView::Constant(value) => "Constant '"@ + escaped(value) + "'"@,
        ItemView::Expression(filters) => if filters.len() == 0 {
            "Empty expression"@
        } else if filters.len() == 1 {
            "Expression with a filter"@
        } else {
            "Expression with "@ + decimal_text(filters.len()) + " filters"@
        },
    }
}

impl Item {
    /// Describes the item to the user.
    pub fn to_string(&self) -> (text: String)
        ensures
            text@ == item_text(self@),
    {
        let mut text = String::new();
        match self {
            Item::Constant(value) => {
                push_text(&mut text, "Constant '");
                push_escaped(&mut text, value.as_str());
                push_text(&mut text, "'");
            },
            Item::Expression(filters) => {
                if filters.len() == 0 {
                    push_text(&mut text, "Empty expression");
                } else if filters.len() == 1 {
                    push_text(&mut text, "Expression with a filter");
                } else {
                    push_text(&mut text, "Expression with ");
                    push_decimal(&mut text, filters.len());
                    push_text(&mut text, " filters");
                }
            },
        }
        assert(text@ =~= item_text(self@));
        text
    }
}

/// Reads the items of a pattern one after another.
pub struct Parser<'a> {
    lexer: Lexer,
    token: Option<crate::pattern::lexer::Parsed<Token>>,
    config: &'a Config,
    cursor: Ghost<int>,
}

impl<'a> Parser<'a> {
    /// The characters of the pattern.
    pub closed spec fn source(&self) -> Seq<char> {
        self.lexer.source()
    }

    /// The settings that the pattern is read with.
    pub closed spec fn config(&self) -> ConfigView {
        self.config@
    }

    /// Index of the character at which the token read last starts.
    pub closed spec fn cursor(&self) -> int {
        self.cursor@
    }

    /// Index of the character at which the next token starts.
    pub closed spec fn pending(&self) -> int {
        self.lexer.index()
    }

    /// The token read last is the one at the cursor, and the next token
    /// starts where that one ends.
    pub closed spec fn wf(&self) -> bool {
        let source = self.lexer.source();
        let escape = self.lexer.escape();
        &&& escape == self.config.escape
        &&& 0 <= self.cursor@ <= self.lexer.index() <= source.len()
        &&& match self.token {
            Some(parsed) => {
                &&& Some(parsed.value@) == token_at(source, escape, self.cursor@)
                &&& self.lexer.index() == token_end(source, escape, self.cursor@)
                &&& parsed.start == byte_offset(source, self.cursor@)
                &&& parsed.end == byte_offset(source, self.lexer.index())
                &&& parsed.value matches Token::Raw(chars) ==> parsed.end == parsed.start
                    + width_of(chars@)
            },
            None => self.cursor@ == self.lexer.index(),
        }
    }

    /// A parser at the start of `input`.
    pub fn new(input: &str, config: &'a Config) -> (parser: Self)
        ensures
            parser.wf(),
            parser.source() == input@,
            parser.config() == config@,
            parser.pending() == 0,
    {
        Self { lexer: Lexer::new(input, config.escape), token: None, config, cursor: Ghost(0) }
    }

    /// Reads the items that are left. On a fresh parser these are the items
    /// of the whole pattern.
    pub fn parse_items(&mut self) -> (result: Result<Vec<Parsed<Item>>, Error>)
        requires
            old(self).wf(),
        ensures
            final(self).wf(),
            final(self).source() == old(self).source(),
            final(self).config() == old(self).config(),
            match items_at(old(self).source(), old(self).config(), old(self).pending()) {
                Ok(items) => result is Ok && views(result->Ok_0@) == items,
                Err(error) => result is Err && result->Err_0@ == error,
            },
    {
        let mut items: Vec<Parsed<Item>> = Vec::new();
        let ghost source = self.source();
        let ghost config = self.config();
        let ghost start = self.pending();
        proof {
            assert(views(items@) =~= Seq::empty());
            match items_at(source, config, start) {
                Ok(all) => {
                    assert(Seq::<Spanned<ItemView>>::empty() + all =~= all);
                },
                Err(_) => {},
            }
        }
        loop
            invariant
                self.wf(),
                self.source() == source,
                self.config() == config,
                source == old(self).source(),
                config == old(self).config(),
                start == old(self).pending(),
                items_at(source, config, start) == continued(
                    views(items@),
                    items_at(source, config, self.pending()),
                ),
            decreases source.len() - self.pending(),
        {
            let ghost at = self.pending();
            let ghost before = items@;
            proof {
                reveal(items_at);
                lemma_item_end(source, config, at);
            }
            match self.parse_item() {
                Err(error) => {
                    return Err(error);
                },
                Ok(None) => {
                    proof {
                        assert(views(items@) + Seq::<Spanned<ItemView>>::empty() =~= views(items@));
                    }
                    return Ok(items);
                },
                Ok(Some(item)) => {
                    proof {
                        let rest = items_at(source, config, self.pending());
                        assert(views(before.push(item)) =~= views(before).push(item@));
                        if let Ok(values) = rest {
                            assert(views(before) + (seq![item@] + values) =~= views(before).push(
                                item@,
                            ) + values);
                        }
                    }
                    items.push(item);
                },
            }
        }
    }

    /// Reads the next item, if the pattern goes on.
    fn parse_item(&mut self) -> (result: Result<Option<Parsed<Item>>, Error>)
        requires
            old(self).wf(),
        ensures
            final(self).wf(),
            final(self).source() == old(self).source(),
            final(self).config() == old(self).config(),
            match item_at(old(self).source(), old(self).config(), old(self).pending()) {
                Ok(Some((item, end))) => result matches Ok(Some(parsed)) && parsed@ == item
                    && final(self).pending() == end,
                Ok(None) => result matches Ok(None) && final(self).pending() == old(self).pending(),
                Err(error) => result is Err && result->Err_0@ == error,
            },
    {
        let ghost source = self.source();
        let ghost config = self.config();
        let ghost at = self.pending();
        proof {
            reveal(item_at);
        }
        self.fetch_token();
        match &self.token {
            None => Ok(None),
            Some(token) => match &token.value {
                Token::Raw(raw) => Ok(
                    Some(
                        Parsed {
                            value: Item::Constant(Char::join(raw)),
                            range: token.start..token.end,
                        },
                    ),
                ),
                Token::ExprStart => {
                    let start = token.start;
                    let end = token.end;
                    proof {
                        lemma_filters_end(source, config, at + 1, true);
                        lemma_byte_offset_step(source, at);
                    }
                    let expression = match self.parse_expression() {
                        Ok(expression) => expression,
                        Err(error) => {
                            return Err(error);
                        },
                    };
                    match self.token_value() {
                        Some(Token::ExprEnd) => Ok(expression),
                        _ => Err(Error { kind: ErrorKind::UnmatchedExprStart, range: start..end }),
                    }
                },
                Token::ExprEnd => Err(
                    Error { kind: ErrorKind::UnmatchedExprEnd, range: token.start..token.end },
                ),
                Token::Pipe => Err(
                    Error { kind: ErrorKind::PipeOutsideExpr, range: token.start..token.end },
                ),
            },
        }
    }

    /// Reads the expression whose opening brace is the token read last.
    /// Its range ends with the token that ended its filters.
    fn parse_expression(&mut self) -> (result: Result<Option<Parsed<Item>>, Error>)
        requires
            old(self).wf(),
            old(self).token_kind() == Some(TokenView::ExprStart),
        ensures
            final(self).wf(),
            final(self).source() == old(self).source(),
            final(self).config() == old(self).config(),
            match filters_at(old(self).source(), old(self).config(), old(self).pending(), true) {
                Ok((filters, close)) => {
                    &&& result matches Ok(Some(parsed))
                    &&& parsed.value@ == ItemView::Expression(filters)
                    &&& parsed.range.start == byte_offset(old(self).source(), old(self).cursor())
                    &&& final(self).cursor() == close
                    &&& final(self).pending() == token_end(
                        old(self).source(),
                        old(self).config().escape,
                        close,
                    )
                    &&& (token_at(old(self).source(), old(self).config().escape, close) is Some
                        ==> parsed.range.end == byte_offset(old(self).source(), close + 1))
                    &&& final(self).token_kind() == token_at(
                        old(self).source(),
                        old(self).config().escape,
                        close,
                    )
                },
                Err(error) => result is Err && result->Err_0@ == error,
            },
    {
        proof {
            lemma_filters_end(self.source(), self.config(), self.pending(), true);
        }
        let start = self.token_range().start;
        let filters = match self.parse_filters() {
            Ok(filters) => filters,
            Err(error) => {
                return Err(error);
            },
        };
        let end = self.token_range().end;
        Ok(Some(Parsed { value: Item::Expression(filters), range: start..end }))
    }

    /// What the token read last holds, if there is one.
    pub closed spec fn token_kind(&self) -> Option<TokenView> {
        match self.token {
            Some(parsed) => Some(parsed.value@),
            None => None,
        }
    }

    /// Reads the filters that follow an opening brace, up to the token that
    /// ends them.
    fn parse_filters(&mut self) -> (result: Result<Vec<Parsed<Filter>>, Error>)
        requires
            old(self).wf(),
        ensures
            final(self).wf(),
            final(self).source() == old(self).source(),
            final(self).config() == old(self).config(),
            match filters_at(old(self).source(), old(self).config(), old(self).pending(), true) {
                Ok((filters, close)) => {
                    &&& result is Ok
                    &&& views(result->Ok_0@) == filters
                    &&& final(self).cursor() == close
                    &&& final(self).pending() == token_end(
                        old(self).source(),
                        old(self).config().escape,
                        close,
                    )
                    &&& final(self).token_kind() == token_at(
                        old(self).source(),
                        old(self).config().escape,
                        close,
                    )
                },
                Err(error) => result is Err && result->Err_0@ == error,
            },
    {
        let mut filters: Vec<Parsed<Filter>> = Vec::new();
        let ghost source = self.source();
        let ghost config = self.config();
        let ghost escape = config.escape;
        let ghost start = self.pending();
        self.fetch_token();
        proof {
            assert(views(filters@) =~= Seq::empty());
            match filters_at(source, config, start, true) {
                Ok((all, _)) => {
                    assert(Seq::<Spanned<FilterView>>::empty() + all =~= all);
                },
                Err(_) => {},
            }
        }
        loop
            invariant
                self.wf(),
                self.source() == source,
                self.config() == config,
                source == old(self).source(),
                config == old(self).config(),
                start == old(self).pending(),
                escape == config.escape,
                self.token is None ==> self.cursor() == source.len(),
                filters_at(source, config, start, true) == prefixed(
                    views(filters@),
                    filters_at(source, config, self.cursor(), filters.len() == 0),
                ),
            decreases source.len() - self.cursor(),
        {
            let ghost at = self.cursor();
            let ghost before = filters@;
            proof {
                reveal(filters_at);
                lemma_token_end_bounds(source, escape, at);
                if at < source.len() {
                    lemma_token_end_bounds(source, escape, at + 1);
                }
            }
            match &self.token {
                None => {
                    proof {
                        assert(views(filters@) + Seq::<Spanned<FilterView>>::empty() =~= views(
                            filters@,
                        ));
                    }
                    return Ok(filters);
                },
                Some(token) => match &token.value {
                    Token::Raw(raw) => {
                        match self.parse_filter(raw, token.start, token.end) {
                            Ok(filter) => {
                                proof {
                                    lemma_prefixed_step(
                                        views(before),
                                        filter@,
                                        filters_at(source, config, self.pending(), false),
                                    );
                                    assert(views(before.push(filter)) =~= views(before).push(
                                        filter@,
                                    ));
                                }
                                filters.push(filter);
                            },
                            Err(error) => {
                                return Err(error);
                            },
                        }
                    },
                    Token::Pipe => {
                        if filters.len() == 0 {
                            return Err(
                                Error {
                                    kind: ErrorKind::ExpectedFilterOrExprEnd,
                                    range: token.start..token.end,
                                },
                            );
                        }
                        let position = token.end;
                        proof {
                            lemma_byte_offset_step(source, at);
                        }
                        self.fetch_token();
                        match &self.token {
                            Some(next) => match &next.value {
                                Token::Raw(raw) => {
                                    match self.parse_filter(raw, next.start, next.end) {
                                        Ok(filter) => {
                                            proof {
                                                lemma_prefixed_step(
                                                    views(before),
                                                    filter@,
                                                    filters_at(
                                                        source,
                                                        config,
                                                        self.pending(),
                                                        false,
                                                    ),
                                                );
                                                assert(views(before.push(filter)) =~= views(
                                                    before,
                                                ).push(filter@));
                                            }
                                            filters.push(filter);
                                        },
                                        Err(error) => {
                                            return Err(error);
                                        },
                                    }
                                },
                                _ => {
                                    return Err(
                                        Error {
                                            kind: ErrorKind::ExpectedFilter,
                                            range: next.start..next.end,
                                        },
                                    );
                                },
                            },
                            None => {
                                return Err(
                                    Error {
                                        kind: ErrorKind::ExpectedFilter,
                                        range: position..position,
                                    },
                                );
                            },
                        }
                    },
                    Token::ExprStart => {
                        return Err(
                            Error {
                                kind: ErrorKind::ExprStartInsideExpr,
                                range: token.start..token.end,
                            },
                        );
                    },
                    Token::ExprEnd => {
                        proof {
                            assert(views(filters@) + Seq::<Spanned<FilterView>>::empty()
                                =~= views(filters@));
                        }
                        return Ok(filters);
                    },
                },
            }
            self.fetch_token();
        }
    }

    /// Reads one filter from a run of ordinary characters that takes the
    /// bytes from `start` to `end` of the pattern.
    fn parse_filter(&self, chars: &Vec<Char>, start: usize, end: usize) -> (result: Result<
        Parsed<Filter>,
        Error,
    >)
        requires
            end == start + width_of(chars@),
        ensures
            match member(chars@, self.config(), start as int, end as int) {
                Ok(filter) => result is Ok && result->Ok_0@ == filter,
                Err(error) => result is Err && result->Err_0@ == error,
            },
    {
        proof {
            reveal(member);
        }
        let mut reader = Reader::new(duplicate(chars));
        match Filter::parse(&mut reader, self.config) {
            Err(error) => Err(
                Error {
                    kind: error.kind,
                    range: (start + error.range.start)..(start + error.range.end),
                },
            ),
            Ok(filter) => {
                let span = reader.span();
                match reader.peek() {
                    Some(_) => Err(
                        Error {
                            kind: ErrorKind::ExpectedPipeOrExprEnd,
                            range: (start + span.0)..(start + span.1),
                        },
                    ),
                    None => Ok(Parsed { value: filter, range: start..end }),
                }
            },
        }
    }

    /// Reads the next token and makes it the token read last.
    fn fetch_token(&mut self)
        requires
            old(self).wf(),
        ensures
            final(self).wf(),
            final(self).source() == old(self).source(),
            final(self).config() == old(self).config(),
            final(self).cursor() == old(self).pending(),
            final(self).pending() == token_end(
                old(self).source(),
                old(self).config().escape,
                old(self).pending(),
            ),
            final(self).token_kind() == token_at(
                old(self).source(),
                old(self).config().escape,
                old(self).pending(),
            ),
    {
        self.cursor = Ghost(self.lexer.index());
        self.token = self.lexer.read_token();
    }

    /// The token read last, if there is one.
    fn token_value(&self) -> (value: Option<&Token>)
        ensures
            match value {
                Some(token) => Some(token@) == self.token_kind(),
                None => self.token_kind() is None,
            },
    {
        match &self.token {
            Some(token) => Some(&token.value),
            None => None,
        }
    }

    /// The byte range of the token read last; the empty range at the start
    /// where there is none.
    fn token_range(&self) -> (range: Range<usize>)
        ensures
            match self.token {
                Some(token) => range.start == token.start && range.end == token.end,
                None => range.start == 0 && range.end == 0,
            },
    {
        match &self.token {
            Some(token) => token.start..token.end,
            None => 0..0,
        }
    }
}

} // verus!

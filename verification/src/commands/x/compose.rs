//! A parsed pattern, its simple form, and the records they compose.

use crate::commands::x::parser::{parse_items, parse_pattern};
use crate::commands::x::pattern::{
    Error, Expression, ExpressionValue, ExpressionValueView, Item, ItemView,
};
use crate::io::{
    byte_records, lemma_separator_symmetry, records, split_records, write_records, written,
    Separator,
};
use crate::pattern::lexer::{views, Parsed, Spanned};
use crate::text::push_bytes;
use vstd::prelude::*;
use vstd::utf8::encode_utf8;

verus! {

/// A pattern as it was parsed, or with its expressions put in quotes.
#[derive(Debug, PartialEq)]
pub struct Pattern {
    items: Vec<Parsed<Item>>,
}

impl View for Pattern {
    type V = Seq<Spanned<ItemView>>;

    closed spec fn view(&self) -> Seq<Spanned<ItemView>> {
        views(self.items@)
    }
}

/// One part of a pattern that needs no child process.
#[derive(Debug, PartialEq)]
pub enum SimpleItem {
    /// Text that goes to the output as it is.
    Constant(String),
    /// The input record.
    Expression,
}

/// What an item of a simple pattern holds.
pub enum SimpleItemView {
    Constant(Seq<char>),
    Expression,
}

impl View for SimpleItem {
    type V = SimpleItemView;

    open spec fn view(&self) -> SimpleItemView {
        match self {
            SimpleItem::Constant(value) => SimpleItemView::Constant(value@),
            SimpleItem::Expression => SimpleItemView::Expression,
        }
    }
}

/// A pattern that needs no child process: constants and the input record.
#[derive(Debug, PartialEq)]
pub struct SimplePattern {
    items: Vec<SimpleItem>,
}

impl View for SimplePattern {
    type V = Seq<SimpleItemView>;

    closed spec fn view(&self) -> Seq<SimpleItemView> {
        views(self.items@)
    }
}

/// The constant that holds one quote, placed at byte `at` of the source.
pub open spec fn quote_mark(quote: char, at: int) -> Spanned<ItemView> {
    Spanned { value: ItemView::Constant(seq![quote]), start: at, end: at }
}

/// What an item becomes when expressions are put in quotes: a constant
/// stays; an expression gets a quote before it and one after it.
pub open spec fn quoted_item(item: Spanned<ItemView>, quote: char) -> Seq<Spanned<ItemView>> {
    match item.value {
        ItemView::Constant(_) => seq![item],
        ItemView::Expression(_) => seq![
            quote_mark(quote, item.start),
            item,
            quote_mark(quote, item.end),
        ],
    }
}

/// The items of a pattern with every expression put in quotes.
pub open spec fn quoted(items: Seq<Spanned<ItemView>>, quote: char) -> Seq<Spanned<ItemView>>
    decreases items.len(),
{
    if items.len() == 0 {
        Seq::empty()
    } else {
        quoted(items.drop_last(), quote) + quoted_item(items.last(), quote)
    }
}

/// True for an expression that is nothing but the input record: an empty
/// pipeline that reads the input.
pub open spec fn echoes(item: ItemView) -> bool {
    item matches ItemView::Expression(expression) && !expression.no_stdin && (
    expression.value matches ExpressionValueView::Pipeline(commands) && commands.len() == 0)
}

/// True where every item is a constant or the input record.
pub open spec fn is_simple(items: Seq<Spanned<ItemView>>) -> bool {
    forall|i: int|
        0 <= i < items.len() ==> (#[trigger] items[i]).value is Constant || echoes(items[i].value)
}

/// The simple form of an item that is a constant or the input record.
pub open spec fn simple_item(item: Spanned<ItemView>) -> SimpleItemView {
    match item.value {
        ItemView::Constant(value) => SimpleItemView::Constant(value),
        ItemView::Expression(_) => SimpleItemView::Expression,
    }
}

/// The simple form of a pattern, where it has one.
pub open spec fn simplified(items: Seq<Spanned<ItemView>>) -> Option<Seq<SimpleItemView>> {
    if is_simple(items) {
        Some(items.map_values(|item: Spanned<ItemView>| simple_item(item)))
    } else {
        None
    }
}

/// The record that a simple pattern composes from an input record: the
/// constants, encoded, and the record wherever the pattern asks for it.
pub open spec fn compose_simple(items: Seq<SimpleItemView>, record: Seq<u8>) -> Seq<u8>
    decreases items.len(),
{
    if items.len() == 0 {
        Seq::empty()
    } else {
        compose_simple(items.drop_last(), record) + (match items.last() {
            SimpleItemView::Constant(value) => encode_utf8(value),
            SimpleItemView::Expression => record,
        })
    }
}

/// Number of expressions among the items.
pub open spec fn expressions(items: Seq<Spanned<ItemView>>) -> nat
    decreases items.len(),
{
    if items.len() == 0 {
        0
    } else if items.last().value is Expression {
        expressions(items.drop_last()) + 1
    } else {
        expressions(items.drop_last())
    }
}

/// The record that a pattern composes from one record of each of its
/// pipelines: the constants, encoded, and in the place of each expression
/// the record that its pipeline gave. `outputs` holds those records in the
/// order of the expressions.
pub open spec fn compose(items: Seq<Spanned<ItemView>>, outputs: Seq<Seq<u8>>) -> Seq<u8>
    decreases items.len(),
{
    if items.len() == 0 {
        Seq::empty()
    } else {
        compose(items.drop_last(), outputs) + (match items.last().value {
            ItemView::Constant(value) => encode_utf8(value),
            ItemView::Expression(_) => outputs[expressions(items.drop_last()) as int],
        })
    }
}

/// A simple pattern composes what the pattern it came from composes when
/// each of its pipelines gives back the input record, as the pipeline of
/// an empty expression does.
pub proof fn lemma_simple_composes_alike(
    items: Seq<Spanned<ItemView>>,
    record: Seq<u8>,
    outputs: Seq<Seq<u8>>,
)
    requires
        simplified(items) is Some,
        forall|k: int| 0 <= k < expressions(items) ==> outputs[k] == record,
    ensures
        compose_simple(simplified(items)->0, record) == compose(items, outputs),
    decreases items.len(),
{
    if items.len() > 0 {
        let front = items.drop_last();
        assert(is_simple(front)) by {
            assert forall|i: int| 0 <= i < front.len() implies (#[trigger] front[i]).value
                is Constant || echoes(front[i].value) by {
                assert(front[i] == items[i]);
            }
        }
        lemma_simple_composes_alike(front, record, outputs);
        assert(simplified(items)->0.drop_last() =~= simplified(front)->0);
    }
}

/// What a simple pattern writes for an input stream: for each record of
/// the input, in order, the record it composes, followed by the
/// separator.
pub open spec fn simple_output(items: Seq<SimpleItemView>, input: Seq<u8>, separator: u8) -> Seq<
    u8,
> {
    written(
        records(input, separator).map_values(|record: Seq<u8>| compose_simple(items, record)),
        separator,
    )
}

/// Two input streams that hold the same records, one with either
/// separator, give output streams of the same length that differ only
/// where the separators stand.
pub proof fn lemma_simple_output_symmetry(
    items: Seq<SimpleItemView>,
    one: Seq<u8>,
    one_separator: u8,
    other: Seq<u8>,
    other_separator: u8,
)
    requires
        records(one, one_separator) == records(other, other_separator),
    ensures
        simple_output(items, one, one_separator).len() == simple_output(
            items,
            other,
            other_separator,
        ).len(),
        forall|k: int|
            0 <= k < simple_output(items, one, one_separator).len() ==> (#[trigger] simple_output(
                items,
                one,
                one_separator,
            )[k] == simple_output(items, other, other_separator)[k]) || (simple_output(
                items,
                one,
                one_separator,
            )[k] == one_separator && simple_output(items, other, other_separator)[k]
                == other_separator),
{
    lemma_separator_symmetry(
        records(one, one_separator).map_values(|record: Seq<u8>| compose_simple(items, record)),
        one_separator,
        other_separator,
    );
}

/// Writes what a simple pattern gives for a whole input stream: for each
/// record of the input, in order, the record it composes, followed by the
/// separator.
pub fn simple_records(pattern: &SimplePattern, input: &[u8], separator: Separator) -> (out: Vec<
    u8,
>)
    ensures
        out@ == simple_output(pattern@, input@, separator.spec_byte()),
{
    let records = split_records(input, separator);
    let mut composed: Vec<Vec<u8>> = Vec::new();
    let mut i: usize = 0;
    let ghost items = pattern@;
    let ghost all = byte_records(records@);
    let ghost wanted = all.map_values(|record: Seq<u8>| compose_simple(items, record));
    while i < records.len()
        invariant
            i <= records.len(),
            items == pattern@,
            all == byte_records(records@),
            wanted == all.map_values(|record: Seq<u8>| compose_simple(items, record)),
            byte_records(composed@) == wanted.take(i as int),
        decreases records.len() - i,
    {
        let ghost before = byte_records(composed@);
        let mut record: Vec<u8> = Vec::new();
        pattern.compose(records[i].as_slice(), &mut record);
        proof {
            assert(record@ =~= compose_simple(items, all[i as int]));
        }
        composed.push(record);
        i += 1;
        proof {
            assert(byte_records(composed@) =~= before.push(record@));
            assert(wanted.take(i as int) =~= wanted.take(i as int - 1).push(wanted[i as int - 1]));
        }
    }
    proof {
        assert(wanted.take(records.len() as int) =~= wanted);
    }
    write_records(composed.as_slice(), separator)
}

impl Pattern {
    /// Reads a pattern.
    pub fn parse(input: &str, escape: char) -> (result: Result<Pattern, Error>)
        ensures
            match parse_pattern(input@, escape) {
                Ok(items) => result is Ok && result->Ok_0@ == items,
                Err(flaw) => result is Err && result->Err_0@ == flaw,
            },
    {
        match parse_items(input, escape) {
            Ok(items) => Ok(Pattern { items }),
            Err(error) => Err(error),
        }
    }

    /// The items of the pattern.
    pub fn items(&self) -> (items: &Vec<Parsed<Item>>)
        ensures
            views(items@) == self@,
    {
        &self.items
    }

    /// Puts every expression in quotes: the quote becomes a constant before
    /// the expression and one after it.
    pub fn quote_expressions(self, quote: char) -> (pattern: Pattern)
        ensures
            pattern@ == quoted(self@, quote),
    {
        let mut rest = self.items;
        let mut items: Vec<Parsed<Item>> = Vec::new();
        let ghost all = rest@;
        let ghost mut done: int = 0;
        assert(all.take(0) =~= Seq::empty());
        assert(views(all.take(0)) =~= Seq::empty());
        assert(views(items@) =~= Seq::empty());
        assert(all.skip(0) =~= all);
        while rest.len() > 0
            invariant
                0 <= done <= all.len(),
                rest@ == all.skip(done),
                views(items@) == quoted(views(all.take(done)), quote),
            decreases rest.len(),
        {
            let ghost before = items@;
            let item = rest.remove(0);
            proof {
                assert(item == all[done]);
                assert(rest@ =~= all.skip(done + 1));
                let prefix = views(all.take(done + 1));
                assert(prefix.drop_last() =~= views(all.take(done)));
                assert(prefix.last() == item@);
            }
            match &item.value {
                Item::Constant(_) => {
                    items.push(item);
                    proof {
                        assert(views(items@) =~= views(before) + seq![item@]);
                    }
                },
                Item::Expression(_) => {
                    let opening = Parsed {
                        value: Item::Constant(quote_text(quote)),
                        start: item.start,
                        end: item.start,
                    };
                    let closing = Parsed {
                        value: Item::Constant(quote_text(quote)),
                        start: item.end,
                        end: item.end,
                    };
                    items.push(opening);
                    items.push(item);
                    items.push(closing);
                    proof {
                        assert(views(items@) =~= views(before) + seq![opening@, item@, closing@]);
                    }
                },
            }
            proof {
                done = done + 1;
            }
        }
        proof {
            assert(all.take(all.len() as int) =~= all);
        }
        Pattern { items }
    }

    /// The simple form of the pattern, where every expression is nothing
    /// but the input record.
    pub fn try_simplify(&self) -> (simple: Option<SimplePattern>)
        ensures
            match simplified(self@) {
                Some(items) => simple is Some && simple->0@ == items,
                None => simple is None,
            },
    {
        let mut items: Vec<SimpleItem> = Vec::new();
        let mut i: usize = 0;
        let ghost all = views(self.items@);
        assert(views(items@) =~= Seq::empty());
        while i < self.items.len()
            invariant
                i <= self.items.len(),
                all == views(self.items@),
                views(items@).len() == i,
                forall|k: int|
                    0 <= k < i ==> ((#[trigger] all[k]).value is Constant || echoes(all[k].value))
                        && views(items@)[k] == simple_item(all[k]),
            decreases self.items.len() - i,
        {
            let ghost before = items@;
            assert(all[i as int] == self.items@[i as int]@);
            let item = match &self.items[i].value {
                Item::Constant(value) => SimpleItem::Constant(value.clone()),
                Item::Expression(expression) => {
                    if expression.no_stdin {
                        return None;
                    }
                    match &expression.value {
                        ExpressionValue::Pipeline(commands) => {
                            if commands.len() > 0 {
                                return None;
                            }
                            SimpleItem::Expression
                        },
                        ExpressionValue::RawShell(_) => {
                            return None;
                        },
                    }
                },
            };
            items.push(item);
            assert(views(items@) =~= views(before).push(item@));
            i += 1;
        }
        assert(views(items@) =~= all.map_values(|item: Spanned<ItemView>| simple_item(item)));
        Some(SimplePattern { items })
    }
}

/// The text that holds one quote.
pub fn quote_text(quote: char) -> (text: String)
    ensures
        text@ == seq![quote],
{
    let mut text = String::new();
    text.push(quote);
    assert(text@ =~= seq![quote]);
    text
}

impl SimplePattern {
    /// The items of the pattern.
    pub fn items(&self) -> (items: &Vec<SimpleItem>)
        ensures
            views(items@) == self@,
    {
        &self.items
    }

    /// Appends to `out` the record composed from an input record.
    pub fn compose(&self, record: &[u8], out: &mut Vec<u8>)
        ensures
            final(out)@ == old(out)@ + compose_simple(self@, record@),
    {
        let mut i: usize = 0;
        let ghost all = views(self.items@);
        assert(all.take(0) =~= Seq::empty());
        assert(old(out)@ + compose_simple(all.take(0), record@) =~= old(out)@);
        while i < self.items.len()
            invariant
                i <= self.items.len(),
                all == views(self.items@),
                out@ == old(out)@ + compose_simple(all.take(i as int), record@),
            decreases self.items.len() - i,
        {
            match &self.items[i] {
                SimpleItem::Constant(value) => push_bytes(out, value.as_str().as_bytes()),
                SimpleItem::Expression => push_bytes(out, record),
            }
            i += 1;
            proof {
                let prefix = all.take(i as int);
                assert(prefix.drop_last() =~= all.take(i as int - 1));
                assert(prefix.last() == self.items@[i as int - 1]@);
                assert(out@ =~= old(out)@ + compose_simple(prefix, record@));
            }
        }
        assert(all.take(self.items.len() as int) =~= all);
    }
}

} // verus!

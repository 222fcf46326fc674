//! Tells the user what each part of a filter pattern is.

use crate::filter::{Filter, FilterView};
use crate::filter::parse::Parsed;
use crate::filter::parser::{item_text, Item, ItemView};
use crate::pattern::eval::{filter_text, push_filter};
use crate::pattern::lexer::{views, Spanned};
use vstd::prelude::*;

verus! {

/// What a part of a pattern is, which decides the colour it is shown in.
#[derive(Clone, Copy, Debug, PartialEq, Eq, Structural)]
pub enum PartKind {
    Constant,
    Expression,
    Filter,
}

/// A part of a pattern with what is said of it.
#[derive(Debug, PartialEq)]
pub struct Part {
    pub kind: PartKind,
    /// First byte of the part in the pattern.
    pub start: usize,
    /// Byte after the last byte of the part in the pattern.
    pub end: usize,
    pub text: String,
}

/// What a part holds.
pub struct PartView {
    pub kind: PartKind,
    pub start: int,
    pub end: int,
    pub text: Seq<char>,
}

impl View for Part {
    type V = PartView;

    open spec fn view(&self) -> PartView {
        PartView {
            kind: self.kind,
            start: self.start as int,
            end: self.end as int,
            text: self.text@,
        }
    }
}

/// What is said of a filter.
pub open spec fn filter_part(filter: Spanned<FilterView>) -> PartView {
    PartView {
        kind: PartKind::Filter,
        start: filter.start,
        end: filter.end,
        text: filter_text(filter.value),
    }
}

/// What is said of an item: of the item itself, then of each filter of an
/// expression in order.
pub open spec fn item_parts(item: Spanned<ItemView>) -> Seq<PartView> {
    match item.value {
        ItemView::Constant(_) => seq![
            PartView {
                kind: PartKind::Constant,
                start: item.start,
                end: item.end,
                text: item_text(item.value),
            },
        ],
        ItemView::Expression(filters) => seq![
            PartView {
                kind: PartKind::Expression,
                start: item.start,
                end: item.end,
                text: item_text(item.value),
            },
        ] + filters.map_values(|filter: Spanned<FilterView>| filter_part(filter)),
    }
}

/// What is said of a pattern: of each item in order.
pub open spec fn explanation(items: Seq<Spanned<ItemView>>) -> Seq<PartView>
    decreases items.len(),
{
    if items.len() == 0 {
        Seq::empty()
    } else {
        explanation(items.drop_last()) + item_parts(items.last())
    }
}

/// Tells what each part of a pattern is.
pub fn explain(items: &Vec<Parsed<Item>>) -> (parts: Vec<Part>)
    ensures
        views(parts@) == explanation(views(items@)),
{
    let mut parts: Vec<Part> = Vec::new();
    let ghost all = views(items@);
    let mut i: usize = 0;
    assert(all.take(0) =~= Seq::empty());
    assert(views(parts@) =~= Seq::empty());
    while i < items.len()
        invariant
            i <= items.len(),
            all == views(items@),
            views(parts@) == explanation(all.take(i as int)),
        decreases items.len() - i,
    {
        let item = &items[i];
        let ghost before = parts@;
        assert(all[i as int] == item@);
        let kind = match &item.value {
            Item::Constant(_) => PartKind::Constant,
            Item::Expression(_) => PartKind::Expression,
        };
        let head = Part {
            kind,
            start: item.range.start,
            end: item.range.end,
            text: item.value.to_string(),
        };
        parts.push(head);
        assert(views(parts@) =~= views(before).push(head@));
        if let Item::Expression(filters) = &item.value {
            let mut k: usize = 0;
            let ghost described = views(filters@).map_values(
                |filter: Spanned<FilterView>| filter_part(filter),
            );
            assert(described.take(0) =~= Seq::empty());
            while k < filters.len()
                invariant
                    k <= filters.len(),
                    described == views(filters@).map_values(
                        |filter: Spanned<FilterView>| filter_part(filter),
                    ),
                    views(parts@) == views(before).push(head@) + described.take(k as int),
                decreases filters.len() - k,
            {
                let ghost sofar = parts@;
                let mut text = String::new();
                push_filter(&mut text, &filters[k].value);
                assert(text@ =~= filter_text(filters@[k as int].value@));
                let part = Part {
                    kind: PartKind::Filter,
                    start: filters[k].range.start,
                    end: filters[k].range.end,
                    text,
                };
                parts.push(part);
                k += 1;
                proof {
                    assert(views(parts@) =~= views(sofar).push(part@));
                    assert(described[k as int - 1] == part@);
                    assert(described.take(k as int) =~= described.take(k as int - 1).push(
                        part@,
                    ));
                }
            }
            assert(described.take(filters.len() as int) =~= described);
        }
        i += 1;
        proof {
            let prefix = all.take(i as int);
            assert(prefix.drop_last() =~= all.take(i as int - 1));
            assert(prefix.last() == item@);
            assert(views(parts@) =~= explanation(prefix));
        }
    }
    assert(all.take(items.len() as int) =~= all);
    parts
}

} // verus!

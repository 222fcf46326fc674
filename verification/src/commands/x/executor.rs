//! The decisions taken while the pipelines of a pattern run: what is read
//! and written next, which inputs are still fed, and which children are
//! ended by force.

use crate::commands::x::compose::{
    compose, compose_simple, echoes, expressions, lemma_simple_composes_alike, simple_output,
    simplified, Pattern,
};
use crate::commands::x::pattern::{Item, ItemView};
use crate::io::{byte_records, lemma_separator_symmetry, records, written};
use crate::pattern::lexer::{views, Parsed, Spanned};
use crate::text::push_bytes;
use vstd::prelude::*;

verus! {

/// What the composer asks for next.
#[derive(Clone, Copy, Debug, PartialEq, Eq, Structural)]
pub enum Demand {
    /// One record from the pipeline of the expression with the given
    /// number, counted from 0.
    Record(usize),
    /// The writing of the record that is complete.
    Flush,
}

/// Composes output records from the constants of a pattern and one record
/// of each of its pipelines, taken in the order of the expressions.
pub struct Composer<'a> {
    items: &'a Vec<Parsed<Item>>,
    at: usize,
    children: usize,
    buffer: Vec<u8>,
    supplied: Ghost<Seq<Seq<u8>>>,
}

impl<'a> Composer<'a> {
    /// The items of the pattern.
    pub closed spec fn items(&self) -> Seq<Spanned<ItemView>> {
        views(self.items@)
    }

    /// Number of items that the record in the making holds already.
    pub closed spec fn position(&self) -> int {
        self.at as int
    }

    /// The records supplied for the record in the making.
    pub closed spec fn supplied(&self) -> Seq<Seq<u8>> {
        self.supplied@
    }

    /// The record in the making.
    pub closed spec fn buffer(&self) -> Seq<u8> {
        self.buffer@
    }

    /// The record in the making holds what the items before the position
    /// compose from the records supplied, one for each expression among
    /// them.
    pub closed spec fn wf(&self) -> bool {
        &&& self.at <= self.items.len()
        &&& self.children == expressions(views(self.items@).take(self.at as int))
        &&& self.supplied@.len() == self.children
        &&& self.buffer@ == compose(views(self.items@).take(self.at as int), self.supplied@)
    }

    /// A composer at the start of a record.
    pub fn new(pattern: &'a Pattern) -> (composer: Self)
        ensures
            composer.wf(),
            composer.items() == pattern@,
            composer.position() == 0,
            composer.supplied().len() == 0,
    {
        let items = pattern.items();
        assert(views(items@).take(0) =~= Seq::empty());
        Self { items, at: 0, children: 0, buffer: Vec::new(), supplied: Ghost(Seq::empty()) }
    }

    /// Takes the constants that come next into the record and tells what
    /// is needed then: a record of the pipeline of the next expression, or
    /// the writing of the record, which is complete.
    pub fn poll(&mut self) -> (demand: Demand)
        requires
            old(self).wf(),
        ensures
            final(self).wf(),
            final(self).items() == old(self).items(),
            final(self).supplied() == old(self).supplied(),
            old(self).position() <= final(self).position() <= final(self).items().len(),
            forall|k: int|
                old(self).position() <= k < final(self).position() ==> (
                #[trigger] final(self).items()[k]).value is Constant,
            match demand {
                Demand::Record(child) => {
                    &&& final(self).position() < final(self).items().len()
                    &&& final(self).items()[final(self).position()].value is Expression
                    &&& child == final(self).supplied().len()
                },
                Demand::Flush => {
                    &&& final(self).position() == final(self).items().len()
                    &&& final(self).buffer() == compose(final(self).items(), final(self).supplied())
                },
            },
    {
        let ghost all = views(self.items@);
        while self.at < self.items.len()
            invariant
                self.wf(),
                self.items == old(self).items,
                self.supplied@ == old(self).supplied@,
                all == views(self.items@),
                old(self).at <= self.at <= self.items.len(),
                forall|k: int| old(self).at <= k < self.at ==> (#[trigger] all[k]).value is Constant,
            decreases self.items.len() - self.at,
        {
            assert(all[self.at as int] == self.items@[self.at as int]@);
            match &self.items[self.at].value {
                Item::Constant(value) => {
                    push_bytes(&mut self.buffer, value.as_str().as_bytes());
                    self.at = self.at + 1;
                    proof {
                        let prefix = all.take(self.at as int);
                        assert(prefix.drop_last() =~= all.take(self.at as int - 1));
                        assert(prefix.last() == all[self.at as int - 1]);
                    }
                },
                Item::Expression(_) => {
                    return Demand::Record(self.children);
                },
            }
        }
        proof {
            assert(all.take(self.items.len() as int) =~= all);
        }
        Demand::Flush
    }

    /// Tells whether a record of a pipeline is needed next, so that
    /// `supply` can take it.
    pub fn wants_record(&self) -> (wanted: bool)
        requires
            self.wf(),
        ensures
            wanted == (self.position() < self.items().len() && self.items()[self.position()].value
                is Expression),
    {
        if self.at < self.items.len() {
            assert(views(self.items@)[self.at as int] == self.items@[self.at as int]@);
            match &self.items[self.at].value {
                Item::Expression(_) => true,
                Item::Constant(_) => false,
            }
        } else {
            false
        }
    }

    /// Tells whether the record in the making is complete, so that `take`
    /// can give it.
    pub fn is_complete(&self) -> (complete: bool)
        requires
            self.wf(),
        ensures
            complete == (self.position() == self.items().len()),
    {
        self.at >= self.items.len()
    }

    /// Takes the record of the pipeline of the next expression into the
    /// record in the making.
    pub fn supply(&mut self, record: &[u8])
        requires
            old(self).wf(),
            old(self).position() < old(self).items().len(),
            old(self).items()[old(self).position()].value is Expression,
        ensures
            final(self).wf(),
            final(self).items() == old(self).items(),
            final(self).position() == old(self).position() + 1,
            final(self).supplied() == old(self).supplied().push(record@),
    {
        let ghost all = views(self.items@);
        let ghost before = self.supplied@;
        proof {
            lemma_compose_ignores_later(all.take(self.at as int), before, record@);
            lemma_expressions_bound(all.take(self.at as int));
        }
        push_bytes(&mut self.buffer, record);
        self.supplied = Ghost(self.supplied@.push(record@));
        self.at = self.at + 1;
        self.children = self.children + 1;
        proof {
            let prefix = all.take(self.at as int);
            assert(prefix.drop_last() =~= all.take(self.at as int - 1));
            assert(prefix.last() == all[self.at as int - 1]);
            assert(self.supplied@[before.len() as int] == record@);
        }
    }

    /// Takes what the pipeline of the next expression gave. A record goes
    /// into the record in the making. The end of the pipeline ends the
    /// composition: the record in the making is dropped, nothing more is
    /// to be read or written, and the result tells so.
    pub fn supply_or_end(&mut self, record: Option<&[u8]>) -> (stop: bool)
        requires
            old(self).wf(),
            old(self).position() < old(self).items().len(),
            old(self).items()[old(self).position()].value is Expression,
        ensures
            final(self).wf(),
            final(self).items() == old(self).items(),
            match record {
                Some(bytes) => !stop && final(self).position() == old(self).position() + 1
                    && final(self).supplied() == old(self).supplied().push(bytes@),
                None => stop && final(self).position() == 0 && final(self).supplied().len() == 0,
            },
    {
        match record {
            Some(bytes) => {
                self.supply(bytes);
                false
            },
            None => {
                self.buffer.clear();
                self.at = 0;
                self.children = 0;
                self.supplied = Ghost(Seq::empty());
                proof {
                    assert(views(self.items@).take(0) =~= Seq::empty());
                }
                true
            },
        }
    }

    /// Gives the complete record and starts the next one.
    pub fn take(&mut self) -> (record: Vec<u8>)
        requires
            old(self).wf(),
            old(self).position() == old(self).items().len(),
        ensures
            final(self).wf(),
            final(self).items() == old(self).items(),
            final(self).position() == 0,
            final(self).supplied().len() == 0,
            record@ == compose(old(self).items(), old(self).supplied()),
    {
        let mut record: Vec<u8> = Vec::new();
        std::mem::swap(&mut self.buffer, &mut record);
        self.at = 0;
        self.children = 0;
        self.supplied = Ghost(Seq::empty());
        proof {
            assert(views(self.items@).take(0) =~= Seq::empty());
            assert(views(old(self).items@).take(old(self).items.len() as int) =~= views(
                old(self).items@,
            ));
        }
        record
    }
}

/// What each record of each pipeline holds.
pub open spec fn streams(pipelines: Seq<Vec<Vec<u8>>>) -> Seq<Seq<Seq<u8>>> {
    pipelines.map_values(
        |pipeline: Vec<Vec<u8>>| pipeline@.map_values(|record: Vec<u8>| record@),
    )
}

/// Number of records that the pipeline with the given number gives; none
/// for a pipeline that is not there.
pub open spec fn given(pipelines: Seq<Seq<Seq<u8>>>, pipeline: int) -> nat {
    if 0 <= pipeline < pipelines.len() {
        pipelines[pipeline].len()
    } else {
        0
    }
}

/// The records with index `k` of the first `count` pipelines.
pub open spec fn round(pipelines: Seq<Seq<Seq<u8>>>, k: int, count: nat) -> Seq<Seq<u8>> {
    Seq::new(count, |pipeline: int| pipelines[pipeline][k])
}

/// True where `out` holds the records that a pattern composes from the
/// records of its pipelines, one pipeline for each expression: as many
/// records as the shortest pipeline gives, the record with index `k`
/// composed from the records with index `k` of all pipelines. A pattern
/// without expressions composes nothing this way.
pub open spec fn composed(
    items: Seq<Spanned<ItemView>>,
    pipelines: Seq<Seq<Seq<u8>>>,
    out: Seq<Seq<u8>>,
) -> bool {
    let count = expressions(items);
    &&& forall|pipeline: int|
        0 <= pipeline < count ==> out.len() <= #[trigger] given(pipelines, pipeline)
    &&& count == 0 ==> out.len() == 0
    &&& count > 0 ==> exists|pipeline: int|
        0 <= pipeline < count && #[trigger] given(pipelines, pipeline) == out.len()
    &&& forall|k: int|
        0 <= k < out.len() ==> #[trigger] out[k] == compose(items, round(pipelines, k, count))
}

/// The items before an expression hold fewer expressions than all items.
pub proof fn lemma_expressions_before(items: Seq<Spanned<ItemView>>, at: int)
    requires
        0 <= at <= items.len(),
    ensures
        expressions(items.take(at)) <= expressions(items),
        at < items.len() && items[at].value is Expression ==> expressions(items.take(at))
            < expressions(items),
    decreases items.len() - at,
{
    if at < items.len() {
        lemma_expressions_before(items, at + 1);
        assert(items.take(at + 1).drop_last() =~= items.take(at));
        assert(items.take(at + 1).last() == items[at]);
    } else {
        assert(items.take(at) =~= items);
    }
}

/// Composes all the records that a pattern gives for the records of its
/// pipelines, where `pipelines` holds for each expression, in order, the
/// records that its pipeline gives. Composition ends with the shortest
/// pipeline.
pub fn compose_records(pattern: &Pattern, pipelines: &[Vec<Vec<u8>>]) -> (out: Vec<Vec<u8>>)
    ensures
        composed(pattern@, streams(pipelines@), byte_records(out@)),
{
    let mut composer = Composer::new(pattern);
    let mut out: Vec<Vec<u8>> = Vec::new();
    let mut any = false;
    let ghost items = pattern@;
    let ghost all = streams(pipelines@);
    let ghost count = expressions(items);
    loop
        invariant
            composer.wf(),
            composer.items() == items,
            items == pattern@,
            all == streams(pipelines@),
            count == expressions(items),
            any == (composer.supplied@.len() > 0),
            composer.supplied@.len() <= count,
            out.len() > 0 ==> count > 0,
            forall|pipeline: int|
                0 <= pipeline < count ==> out.len() <= #[trigger] given(all, pipeline),
            forall|pipeline: int|
                0 <= pipeline < composer.supplied@.len() ==> out.len() < #[trigger] given(
                    all,
                    pipeline,
                ) && composer.supplied@[pipeline] == all[pipeline][out.len() as int],
            forall|k: int|
                0 <= k < out.len() ==> #[trigger] byte_records(out@)[k] == compose(
                    items,
                    round(all, k, count),
                ),
        decreases given(all, 0) - out.len(), items.len() - composer.position(),
    {
        let ghost before = byte_records(out@);
        let ghost supplied = composer.supplied@;
        match composer.poll() {
            Demand::Record(child) => {
                proof {
                    lemma_expressions_before(items, composer.position());
                }
                let record: Option<&[u8]> = if child < pipelines.len() && out.len()
                    < pipelines[child].len() {
                    Some(pipelines[child][out.len()].as_slice())
                } else {
                    None
                };
                if composer.supply_or_end(record) {
                    proof {
                        assert(given(all, child as int) == out.len());
                    }
                    return out;
                }
                any = true;
                proof {
                    assert(composer.supplied@[child as int] == all[child as int][out.len() as int]);
                }
            },
            Demand::Flush => {
                proof {
                    assert(items.take(items.len() as int) =~= items);
                    assert(composer.at == items.len());
                    assert(composer.supplied@.len() == expressions(
                        views(composer.items@).take(composer.at as int),
                    ));
                    assert(composer.supplied@.len() == count);
                }
                if !any {
                    return out;
                }
                proof {
                    assert forall|pipeline: int| 0 <= pipeline < count implies composer.supplied@[pipeline]
                        == round(all, out.len() as int, count)[pipeline] by {
                        assert(out.len() < given(all, pipeline));
                    }
                    assert(composer.supplied@ =~= round(all, out.len() as int, count));
                    assert(out.len() < given(all, 0));
                }
                let record = composer.take();
                out.push(record);
                any = false;
                proof {
                    assert(byte_records(out@) =~= before.push(record@));
                }
            },
        }
    }
}

/// What a pattern composes from its pipelines is one sequence of records.
pub proof fn lemma_composed_is_unique(
    items: Seq<Spanned<ItemView>>,
    pipelines: Seq<Seq<Seq<u8>>>,
    one: Seq<Seq<u8>>,
    other: Seq<Seq<u8>>,
)
    requires
        composed(items, pipelines, one),
        composed(items, pipelines, other),
    ensures
        one == other,
{
    let count = expressions(items);
    if count > 0 {
        let shortest = choose|pipeline: int|
            0 <= pipeline < count && #[trigger] given(pipelines, pipeline) == one.len();
        let also = choose|pipeline: int|
            0 <= pipeline < count && #[trigger] given(pipelines, pipeline) == other.len();
        assert(other.len() <= given(pipelines, shortest));
        assert(one.len() <= given(pipelines, also));
    }
    assert(one =~= other);
}

/// A pattern that has no simple form has an expression, so that its
/// composition ends with its shortest pipeline.
pub proof fn lemma_general_has_expression(items: Seq<Spanned<ItemView>>)
    requires
        simplified(items) is None,
    ensures
        expressions(items) > 0,
{
    let at = choose|i: int|
        0 <= i < items.len() && !((#[trigger] items[i]).value is Constant || echoes(
            items[i].value,
        ));
    lemma_expressions_before(items, at);
}

/// A pattern with a simple form and at least one expression writes the
/// same stream either way: what it composes from pipelines that each give
/// back the records of the input, written out, is what its simple form
/// writes for the input.
pub proof fn lemma_simple_run_alike(
    items: Seq<Spanned<ItemView>>,
    input: Seq<u8>,
    separator: u8,
    pipelines: Seq<Seq<Seq<u8>>>,
    out: Seq<Seq<u8>>,
)
    requires
        simplified(items) is Some,
        expressions(items) > 0,
        forall|pipeline: int|
            0 <= pipeline < expressions(items) ==> pipeline < pipelines.len()
                && #[trigger] pipelines[pipeline] == records(input, separator),
        composed(items, pipelines, out),
    ensures
        written(out, separator) == simple_output(simplified(items)->0, input, separator),
{
    let count = expressions(items);
    let simple = simplified(items)->0;
    let given_in = records(input, separator);
    let wanted = given_in.map_values(|record: Seq<u8>| compose_simple(simple, record));
    let shortest = choose|pipeline: int|
        0 <= pipeline < count && #[trigger] given(pipelines, pipeline) == out.len();
    assert(pipelines[shortest] == given_in);
    assert(out.len() == given_in.len());
    assert forall|k: int| 0 <= k < out.len() implies out[k] == wanted[k] by {
        let outputs = round(pipelines, k, count);
        assert forall|pipeline: int| 0 <= pipeline < count implies outputs[pipeline]
            == given_in[k] by {
            assert(pipelines[pipeline] == given_in);
        }
        lemma_simple_composes_alike(items, given_in[k], outputs);
    }
    assert(out =~= wanted);
}

/// The streams written with two separators from what a pattern composes
/// from the same records of its pipelines have the same length and differ
/// only where the separators stand.
pub proof fn lemma_composed_output_symmetry(
    items: Seq<Spanned<ItemView>>,
    pipelines: Seq<Seq<Seq<u8>>>,
    one: Seq<Seq<u8>>,
    one_separator: u8,
    other: Seq<Seq<u8>>,
    other_separator: u8,
)
    requires
        composed(items, pipelines, one),
        composed(items, pipelines, other),
    ensures
        written(one, one_separator).len() == written(other, other_separator).len(),
        forall|k: int|
            0 <= k < written(one, one_separator).len() ==> (#[trigger] written(
                one,
                one_separator,
            )[k] == written(other, other_separator)[k]) || (written(one, one_separator)[k]
                == one_separator && written(other, other_separator)[k] == other_separator),
{
    lemma_composed_is_unique(items, pipelines, one, other);
    lemma_separator_symmetry(one, one_separator, other_separator);
}

/// What items compose does not depend on records supplied for later
/// expressions.
pub proof fn lemma_compose_ignores_later(
    items: Seq<Spanned<ItemView>>,
    outputs: Seq<Seq<u8>>,
    more: Seq<u8>,
)
    requires
        outputs.len() >= expressions(items),
    ensures
        compose(items, outputs.push(more)) == compose(items, outputs),
    decreases items.len(),
{
    if items.len() > 0 {
        lemma_expressions_grow(items);
        lemma_compose_ignores_later(items.drop_last(), outputs, more);
    }
}

/// There are no more expressions than items.
pub proof fn lemma_expressions_bound(items: Seq<Spanned<ItemView>>)
    ensures
        expressions(items) <= items.len(),
    decreases items.len(),
{
    if items.len() > 0 {
        lemma_expressions_bound(items.drop_last());
    }
}

/// Leaving out the last item leaves out at most one expression.
pub proof fn lemma_expressions_grow(items: Seq<Spanned<ItemView>>)
    requires
        items.len() > 0,
    ensures
        expressions(items.drop_last()) <= expressions(items) <= expressions(items.drop_last()) + 1,
{
}

/// Which pipelines still take the input of the parent.
pub struct Forwarder {
    open: Vec<bool>,
}

impl Forwarder {
    /// For each pipeline that was fed at the start, whether it still is.
    pub closed spec fn open(&self) -> Seq<bool> {
        self.open@
    }

    /// True where no pipeline takes input any more: forwarding ends.
    pub open spec fn done(&self) -> bool {
        forall|i: int| 0 <= i < self.open().len() ==> !self.open()[i]
    }

    /// Forwarding to the given number of pipelines, all of which take
    /// input.
    pub fn new(consumers: usize) -> (forwarder: Forwarder)
        ensures
            forwarder.open().len() == consumers,
            forall|i: int| 0 <= i < consumers ==> forwarder.open()[i],
    {
        let mut open: Vec<bool> = Vec::new();
        let mut i: usize = 0;
        while i < consumers
            invariant
                i <= consumers,
                open.len() == i,
                forall|k: int| 0 <= k < i ==> open[k],
            decreases consumers - i,
        {
            open.push(true);
            i += 1;
        }
        Forwarder { open }
    }

    /// Number of pipelines that were fed at the start.
    pub fn len(&self) -> (count: usize)
        ensures
            count == self.open().len(),
    {
        self.open.len()
    }

    /// Tells whether the pipeline with the given number still takes input.
    pub fn is_open(&self, consumer: usize) -> (open: bool)
        ensures
            open == (consumer < self.open().len() && self.open()[consumer as int]),
    {
        consumer < self.open.len() && self.open[consumer]
    }

    /// Tells whether forwarding ends: before the first chunk is read where
    /// no pipeline is fed, and after a chunk once every pipeline has
    /// closed its input.
    pub fn is_done(&self) -> (done: bool)
        ensures
            done == self.done(),
    {
        let mut i: usize = 0;
        while i < self.open.len()
            invariant
                i <= self.open.len(),
                forall|k: int| 0 <= k < i ==> !self.open[k],
            decreases self.open.len() - i,
        {
            if self.open[i] {
                assert(self.open()[i as int]);
                return false;
            }
            i += 1;
        }
        true
    }

    /// Takes note of a write to the pipeline with the given number: a
    /// pipeline that has closed its input gets nothing more. The other
    /// pipelines stay as they are.
    pub fn record(&mut self, consumer: usize, still_open: bool)
        requires
            consumer < old(self).open().len(),
        ensures
            final(self).open() == old(self).open().update(
                consumer as int,
                old(self).open()[consumer as int] && still_open,
            ),
    {
        let value = self.open[consumer] && still_open;
        self.open.set(consumer, value);
    }
}

/// A pipeline that closes its input does not end the forwarding to the
/// others: each of them stays as it was, and forwarding goes on as long as
/// one of them takes input.
pub proof fn lemma_closed_input_spares_the_others(
    before: Forwarder,
    after: Forwarder,
    closed: int,
    other: int,
)
    requires
        0 <= closed < before.open().len(),
        0 <= other < before.open().len(),
        other != closed,
        after.open() == before.open().update(closed, false),
    ensures
        after.open()[other] == before.open()[other],
        before.open()[other] ==> !after.done(),
{
    if before.open()[other] {
        assert(after.open()[other]);
    }
}

/// Tells whether the outcome of forwarding is waited for: only where
/// forwarding has ended, since it may be held up for good by a terminal.
pub fn joins_forwarder(finished: bool) -> (join: bool)
    ensures
        join == finished,
{
    finished
}

} // verus!

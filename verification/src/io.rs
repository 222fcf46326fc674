//! Records: how a stream of bytes is cut into them and how they are
//! written out.

use crate::text::push_bytes;
use vstd::prelude::*;
use vstd::slice::{slice_subrange, slice_to_vec};

verus! {

/// What ends a record.
#[derive(Clone, Copy, Debug, PartialEq, Eq, Structural)]
pub enum Separator {
    /// A line feed.
    Newline,
    /// A NUL byte.
    Null,
}

impl Separator {
    /// The byte that ends a record.
    pub open spec fn spec_byte(self) -> u8 {
        match self {
            Separator::Newline => 0x0Au8,
            Separator::Null => 0u8,
        }
    }

    /// The separator chosen by the setting that asks for NUL.
    pub fn new(null: bool) -> (separator: Separator)
        ensures
            separator == (if null {
                Separator::Null
            } else {
                Separator::Newline
            }),
    {
        if null {
            Separator::Null
        } else {
            Separator::Newline
        }
    }

    /// The byte that ends a record.
    pub fn as_byte(&self) -> (byte: u8)
        ensures
            byte == self.spec_byte(),
    {
        match self {
            Separator::Newline => 0x0A,
            Separator::Null => 0,
        }
    }
}

/// Index of the first byte at or after `i` that equals `separator`, or the
/// number of bytes where there is none.
pub open spec fn find_separator(bytes: Seq<u8>, separator: u8, i: int) -> int
    decreases bytes.len() - i,
{
    if 0 <= i < bytes.len() && bytes[i] != separator {
        find_separator(bytes, separator, i + 1)
    } else {
        i
    }
}

/// The records of a stream: the bytes before each separator, and what
/// follows the last separator unless that is nothing.
pub open spec fn records(bytes: Seq<u8>, separator: u8) -> Seq<Seq<u8>>
    decreases bytes.len(),
{
    let end = find_separator(bytes, separator, 0);
    if bytes.len() == 0 {
        Seq::empty()
    } else if end < 0 || end >= bytes.len() {
        seq![bytes]
    } else {
        seq![bytes.take(end)] + records(bytes.skip(end + 1), separator)
    }
}

/// The stream that holds the given records, each followed by the
/// separator.
pub open spec fn written(records: Seq<Seq<u8>>, separator: u8) -> Seq<u8>
    decreases records.len(),
{
    if records.len() == 0 {
        Seq::empty()
    } else {
        records[0].push(separator) + written(records.drop_first(), separator)
    }
}

/// True where no record holds the separator.
pub open spec fn separable(records: Seq<Seq<u8>>, separator: u8) -> bool {
    forall|i: int, j: int|
        0 <= i < records.len() && 0 <= j < records[i].len() ==> #[trigger] records[i][j]
            != separator
}

/// The search for a separator ends inside the bytes, at a separator if
/// before the end, and passes no separator.
pub proof fn lemma_find_separator(bytes: Seq<u8>, separator: u8, i: int)
    requires
        0 <= i <= bytes.len(),
    ensures
        i <= find_separator(bytes, separator, i) <= bytes.len(),
        find_separator(bytes, separator, i) < bytes.len() ==> bytes[find_separator(
            bytes,
            separator,
            i,
        )] == separator,
        forall|k: int| i <= k < find_separator(bytes, separator, i) ==> bytes[k] != separator,
    decreases bytes.len() - i,
{
    if i < bytes.len() && bytes[i] != separator {
        lemma_find_separator(bytes, separator, i + 1);
    }
}

/// A separator is found where the first one stands.
pub proof fn lemma_found_at(bytes: Seq<u8>, separator: u8, i: int, at: int)
    requires
        0 <= i <= at < bytes.len(),
        bytes[at] == separator,
        forall|k: int| i <= k < at ==> bytes[k] != separator,
    ensures
        find_separator(bytes, separator, i) == at,
    decreases at - i,
{
    if i < at {
        lemma_found_at(bytes, separator, i + 1, at);
    }
}

/// Reading what was written gives back the records, where no record
/// holds the separator.
pub proof fn lemma_read_written(records_in: Seq<Seq<u8>>, separator: u8)
    requires
        separable(records_in, separator),
    ensures
        records(written(records_in, separator), separator) == records_in,
    decreases records_in.len(),
{
    if records_in.len() > 0 {
        let first = records_in[0];
        let rest = records_in.drop_first();
        let stream = written(records_in, separator);
        assert(separable(rest, separator)) by {
            assert forall|i: int, j: int| 0 <= i < rest.len() && 0 <= j < rest[i].len() implies
                #[trigger] rest[i][j] != separator by {
                assert(rest[i][j] == records_in[i + 1][j]);
            }
        }
        lemma_read_written(rest, separator);
        assert forall|k: int| 0 <= k < first.len() implies stream[k] != separator by {
            assert(stream[k] == records_in[0][k]);
        }
        lemma_found_at(stream, separator, 0, first.len() as int);
        assert(stream.take(first.len() as int) =~= first);
        assert(stream.skip(first.len() as int + 1) =~= written(rest, separator));
        assert(seq![first] + rest =~= records_in);
    }
}

/// The streams written with two separators have the same length and
/// differ only where the separators stand: at every index both hold their
/// separator, or both hold the same byte of a record.
pub proof fn lemma_separator_symmetry(records_in: Seq<Seq<u8>>, one: u8, other: u8)
    ensures
        written(records_in, one).len() == written(records_in, other).len(),
        forall|k: int|
            0 <= k < written(records_in, one).len() ==> (#[trigger] written(records_in, one)[k]
                == written(records_in, other)[k]) || (written(records_in, one)[k] == one
                && written(records_in, other)[k] == other),
    decreases records_in.len(),
{
    if records_in.len() > 0 {
        lemma_separator_symmetry(records_in.drop_first(), one, other);
        let first = records_in[0];
        let left = written(records_in, one);
        let right = written(records_in, other);
        let left_rest = written(records_in.drop_first(), one);
        let right_rest = written(records_in.drop_first(), other);
        assert forall|k: int| 0 <= k < left.len() implies (#[trigger] left[k] == right[k]) || (
        left[k] == one && right[k] == other) by {
            if k > first.len() {
                assert(left[k] == left_rest[k - first.len() - 1]);
                assert(right[k] == right_rest[k - first.len() - 1]);
            }
        }
    }
}

/// A copy of the bytes from index `from` up to index `to`.
fn copy_range(bytes: &Vec<u8>, from: usize, to: usize) -> (copy: Vec<u8>)
    requires
        from <= to <= bytes.len(),
    ensures
        copy@ == bytes@.subrange(from as int, to as int),
{
    let mut copy: Vec<u8> = Vec::new();
    let mut i = from;
    assert(bytes@.subrange(from as int, from as int) =~= Seq::<u8>::empty());
    while i < to
        invariant
            from <= i <= to <= bytes.len(),
            copy@ == bytes@.subrange(from as int, i as int),
        decreases to - i,
    {
        copy.push(bytes[i]);
        i = i + 1;
        assert(bytes@.subrange(from as int, i as int) =~= bytes@.subrange(
            from as int,
            i as int - 1,
        ).push(bytes@[i as int - 1]));
    }
    copy
}

/// Bytes that follow a stream whose first record is complete leave that
/// record as it is: the records of the longer stream are that record and
/// the records of what follows it.
pub proof fn lemma_records_of_longer_stream(bytes: Seq<u8>, more: Seq<u8>, separator: u8)
    requires
        find_separator(bytes, separator, 0) < bytes.len(),
    ensures
        records(bytes + more, separator) == seq![
            bytes.take(find_separator(bytes, separator, 0)),
        ] + records(bytes.skip(find_separator(bytes, separator, 0) + 1) + more, separator),
{
    let end = find_separator(bytes, separator, 0);
    let longer = bytes + more;
    lemma_find_separator(bytes, separator, 0);
    assert forall|k: int| 0 <= k < end implies longer[k] != separator by {
        assert(longer[k] == bytes[k]);
    }
    assert(longer[end] == bytes[end]);
    lemma_found_at(longer, separator, 0, end);
    assert(longer.take(end) =~= bytes.take(end));
    assert(longer.skip(end + 1) =~= bytes.skip(end + 1) + more);
}

/// Writing one more record appends that record and the separator to the
/// stream.
pub proof fn lemma_written_push(records_in: Seq<Seq<u8>>, record: Seq<u8>, separator: u8)
    ensures
        written(records_in.push(record), separator) == written(records_in, separator)
            + record.push(separator),
    decreases records_in.len(),
{
    let longer = records_in.push(record);
    if records_in.len() == 0 {
        assert(longer.drop_first() =~= Seq::<Seq<u8>>::empty());
        assert(longer[0] == record);
        assert(written(longer.drop_first(), separator) =~= Seq::<u8>::empty());
        assert(written(longer, separator) =~= record.push(separator));
        assert(written(records_in, separator) + record.push(separator) =~= record.push(
            separator,
        ));
    } else {
        lemma_written_push(records_in.drop_first(), record, separator);
        assert(longer.drop_first() =~= records_in.drop_first().push(record));
        assert(longer[0] == records_in[0]);
        assert(written(longer, separator) =~= written(records_in, separator) + record.push(
            separator,
        ));
    }
}

/// What each record holds.
pub open spec fn byte_records(records: Seq<Vec<u8>>) -> Seq<Seq<u8>> {
    records.map_values(|record: Vec<u8>| record@)
}

/// A stream without a separator holds one record, or none where it is
/// empty.
pub proof fn lemma_no_separator(bytes: Seq<u8>, separator: u8)
    requires
        forall|k: int| 0 <= k < bytes.len() ==> bytes[k] != separator,
    ensures
        find_separator(bytes, separator, 0) == bytes.len(),
{
    lemma_find_separator(bytes, separator, 0);
}

/// Cuts a whole stream into its records.
pub fn split_records(input: &[u8], separator: Separator) -> (out: Vec<Vec<u8>>)
    ensures
        byte_records(out@) == records(input@, separator.spec_byte()),
{
    let byte = separator.as_byte();
    let mut out: Vec<Vec<u8>> = Vec::new();
    let mut i: usize = 0;
    proof {
        assert(input@.skip(0) =~= input@);
        assert(byte_records(out@) + records(input@, byte) =~= records(input@, byte));
    }
    while i < input.len()
        invariant
            i <= input.len(),
            byte == separator.spec_byte(),
            records(input@, byte) == byte_records(out@) + records(input@.skip(i as int), byte),
        decreases input.len() - i,
    {
        let ghost rest = input@.skip(i as int);
        let ghost before = byte_records(out@);
        let mut end = i;
        while end < input.len() && input[end] != byte
            invariant
                i <= end <= input.len(),
                rest == input@.skip(i as int),
                forall|k: int| 0 <= k < end - i ==> rest[k] != byte,
            decreases input.len() - end,
        {
            end = end + 1;
        }
        let record = slice_to_vec(slice_subrange(input, i, end));
        proof {
            assert(record@ =~= rest.take(end - i));
            if end < input.len() {
                lemma_found_at(rest, byte, 0, end - i);
                assert(rest.skip(end - i + 1) =~= input@.skip(end as int + 1));
            } else {
                lemma_no_separator(rest, byte);
                assert(rest.take(end - i) =~= rest);
                assert(records(input@.skip(input.len() as int), byte) =~= Seq::<Seq<u8>>::empty());
            }
        }
        out.push(record);
        i = if end < input.len() {
            end + 1
        } else {
            end
        };
        proof {
            let after = records(input@.skip(i as int), byte);
            assert(byte_records(out@) =~= before.push(record@));
            assert(before + (seq![record@] + after) =~= before.push(record@) + after);
        }
    }
    proof {
        assert(records(input@.skip(input.len() as int), byte) =~= Seq::<Seq<u8>>::empty());
        assert(byte_records(out@) + Seq::<Seq<u8>>::empty() =~= byte_records(out@));
    }
    out
}

/// Writes records into one stream, each followed by the separator.
pub fn write_records(records: &[Vec<u8>], separator: Separator) -> (out: Vec<u8>)
    ensures
        out@ == written(byte_records(records@), separator.spec_byte()),
{
    let byte = separator.as_byte();
    let mut out: Vec<u8> = Vec::new();
    let mut i: usize = 0;
    let ghost all = byte_records(records@);
    proof {
        assert(all.take(0) =~= Seq::<Seq<u8>>::empty());
    }
    while i < records.len()
        invariant
            i <= records.len(),
            byte == separator.spec_byte(),
            all == byte_records(records@),
            out@ == written(all.take(i as int), byte),
        decreases records.len() - i,
    {
        proof {
            lemma_written_push(all.take(i as int), all[i as int], byte);
            assert(all.take(i as int).push(all[i as int]) =~= all.take(i as int + 1));
        }
        push_bytes(&mut out, records[i].as_slice());
        out.push(byte);
        proof {
            assert(out@ =~= written(all.take(i as int), byte) + all[i as int].push(byte));
        }
        i += 1;
    }
    proof {
        assert(all.take(records.len() as int) =~= all);
    }
    out
}

/// A record was longer than the buffer.
#[derive(Clone, Copy, Debug, PartialEq, Eq, Structural)]
pub struct RecordTooLarge {
    /// The size of the buffer.
    pub limit: usize,
}

/// Cuts the bytes that it is fed with into records.
pub struct LineBuffer {
    pending: Vec<u8>,
    separator: u8,
    limit: usize,
}

impl LineBuffer {
    /// The bytes fed and not yet given out.
    pub closed spec fn pending(&self) -> Seq<u8> {
        self.pending@
    }

    /// The byte that ends a record.
    pub closed spec fn separator(&self) -> u8 {
        self.separator
    }

    /// The greatest length of a record.
    pub closed spec fn limit(&self) -> nat {
        self.limit as nat
    }

    /// A buffer that holds nothing.
    pub fn new(separator: Separator, limit: usize) -> (buffer: LineBuffer)
        ensures
            buffer.pending().len() == 0,
            buffer.separator() == separator.spec_byte(),
            buffer.limit() == limit,
    {
        LineBuffer { pending: Vec::new(), separator: separator.as_byte(), limit }
    }

    /// Takes in more bytes.
    pub fn feed(&mut self, chunk: &[u8])
        ensures
            final(self).pending() == old(self).pending() + chunk@,
            final(self).separator() == old(self).separator(),
            final(self).limit() == old(self).limit(),
    {
        push_bytes(&mut self.pending, chunk);
    }

    /// Gives out the first record, if the bytes taken in hold its
    /// separator. A record longer than the limit is refused, whether its
    /// separator was seen or not.
    pub fn next(&mut self) -> (result: Result<Option<Vec<u8>>, RecordTooLarge>)
        ensures
            final(self).separator() == old(self).separator(),
            final(self).limit() == old(self).limit(),
            match result {
                Ok(Some(record)) => {
                    let end = find_separator(old(self).pending(), old(self).separator(), 0);
                    &&& end < old(self).pending().len()
                    &&& end <= old(self).limit()
                    &&& record@ == old(self).pending().take(end)
                    &&& final(self).pending() == old(self).pending().skip(end + 1)
                    &&& records(old(self).pending(), old(self).separator()) == seq![record@]
                        + records(final(self).pending(), old(self).separator())
                },
                Ok(None) => {
                    &&& find_separator(old(self).pending(), old(self).separator(), 0) == old(
                        self,
                    ).pending().len()
                    &&& old(self).pending().len() <= old(self).limit()
                    &&& final(self).pending() == old(self).pending()
                },
                Err(error) => {
                    &&& find_separator(old(self).pending(), old(self).separator(), 0) > old(
                        self,
                    ).limit()
                    &&& error.limit == old(self).limit()
                    &&& final(self).pending() == old(self).pending()
                },
            },
    {
        let ghost bytes = self.pending@;
        proof {
            lemma_find_separator(bytes, self.separator, 0);
        }
        let mut end: usize = 0;
        while end < self.pending.len() && self.pending[end] != self.separator
            invariant
                end <= self.pending.len(),
                self.pending@ == bytes,
                self.separator == old(self).separator,
                find_separator(bytes, self.separator, 0) == find_separator(
                    bytes,
                    self.separator,
                    end as int,
                ),
            decreases self.pending.len() - end,
        {
            end = end + 1;
        }
        if end > self.limit {
            return Err(RecordTooLarge { limit: self.limit });
        }
        if end >= self.pending.len() {
            return Ok(None);
        }
        let record = copy_range(&self.pending, 0, end);
        let rest = copy_range(&self.pending, end + 1, self.pending.len());
        self.pending = rest;
        proof {
            assert(record@ =~= bytes.take(end as int));
            assert(self.pending@ =~= bytes.skip(end as int + 1));
        }
        Ok(Some(record))
    }

    /// Gives out the next record once the stream has ended: the first
    /// record as `next` gives it, or else what is left, unless nothing is
    /// left.
    pub fn finish(&mut self) -> (result: Result<Option<Vec<u8>>, RecordTooLarge>)
        ensures
            final(self).separator() == old(self).separator(),
            final(self).limit() == old(self).limit(),
            match result {
                Ok(Some(record)) => record@.len() <= old(self).limit() && records(
                    old(self).pending(),
                    old(self).separator(),
                ) == seq![record@] + records(final(self).pending(), old(self).separator()),
                Ok(None) => old(self).pending().len() == 0 && final(self).pending().len() == 0,
                Err(error) => find_separator(old(self).pending(), old(self).separator(), 0)
                    > old(self).limit() && error.limit == old(self).limit(),
            },
            result is Ok ==> final(self).pending().len() < old(self).pending().len() || old(
                self,
            ).pending().len() == 0,
    {
        proof {
            lemma_find_separator(self.pending@, self.separator, 0);
        }
        match self.next() {
            Err(error) => Err(error),
            Ok(Some(record)) => {
                proof {
                    let end = find_separator(old(self).pending@, old(self).separator, 0);
                    assert(old(self).pending@.take(end).len() == end);
                    assert(old(self).pending@.skip(end + 1).len() == old(self).pending@.len()
                        - end - 1);
                }
                Ok(Some(record))
            },
            Ok(None) => {
                if self.pending.len() == 0 {
                    return Ok(None);
                }
                let mut record: Vec<u8> = Vec::new();
                std::mem::swap(&mut self.pending, &mut record);
                proof {
                    assert(records(self.pending@, self.separator) =~= Seq::empty());
                    assert(seq![record@] + Seq::<Seq<u8>>::empty() =~= seq![record@]);
                }
                Ok(Some(record))
            },
        }
    }
}

/// Collects records and tells when their bytes are to be written out.
pub struct WriteBuffer {
    buffer: Vec<u8>,
    separator: u8,
    full: bool,
    size: usize,
}

impl WriteBuffer {
    /// The bytes collected and not yet written out.
    pub closed spec fn buffered(&self) -> Seq<u8> {
        self.buffer@
    }

    /// The byte that ends a record.
    pub closed spec fn separator(&self) -> u8 {
        self.separator
    }

    /// True where bytes are written out only when the buffer is full.
    pub closed spec fn full_mode(&self) -> bool {
        self.full
    }

    /// The number of bytes at which the buffer is full.
    pub closed spec fn size(&self) -> nat {
        self.size as nat
    }

    /// A buffer that holds nothing.
    pub fn new(separator: Separator, full: bool, size: usize) -> (buffer: WriteBuffer)
        ensures
            buffer.buffered().len() == 0,
            buffer.separator() == separator.spec_byte(),
            buffer.full_mode() == full,
            buffer.size() == size,
    {
        WriteBuffer { buffer: Vec::new(), separator: separator.as_byte(), full, size }
    }

    /// Takes in a record and its separator. Gives the bytes that are to be
    /// written out now: all that is collected, after every record where
    /// output goes out by records, else once the buffer is full.
    pub fn write_record(&mut self, record: &[u8]) -> (flushed: Option<Vec<u8>>)
        ensures
            final(self).separator() == old(self).separator(),
            final(self).full_mode() == old(self).full_mode(),
            final(self).size() == old(self).size(),
            (match flushed {
                Some(bytes) => bytes@,
                None => Seq::empty(),
            }) + final(self).buffered() == old(self).buffered() + record@.push(
                old(self).separator(),
            ),
            flushed is Some <==> !old(self).full_mode() || old(self).buffered().len()
                + record@.len() + 1 >= old(self).size(),
            flushed is Some ==> final(self).buffered().len() == 0,
    {
        push_bytes(&mut self.buffer, record);
        self.buffer.push(self.separator);
        assert(self.buffer@ =~= old(self).buffer@ + record@.push(self.separator));
        if !self.full || self.buffer.len() >= self.size {
            let mut bytes: Vec<u8> = Vec::new();
            std::mem::swap(&mut self.buffer, &mut bytes);
            assert(bytes@ + self.buffer@ =~= bytes@);
            Some(bytes)
        } else {
            assert(Seq::<u8>::empty() + self.buffer@ =~= self.buffer@);
            None
        }
    }

    /// Gives all that is collected, to be written out at the end.
    pub fn finish(&mut self) -> (flushed: Vec<u8>)
        ensures
            flushed@ == old(self).buffered(),
            final(self).buffered().len() == 0,
            final(self).separator() == old(self).separator(),
            final(self).full_mode() == old(self).full_mode(),
            final(self).size() == old(self).size(),
    {
        let mut bytes: Vec<u8> = Vec::new();
        std::mem::swap(&mut self.buffer, &mut bytes);
        bytes
    }
}

} // verus!

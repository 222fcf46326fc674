//! Removes white space from the ends of each line.

use bstr::ByteSlice;
use vstd::prelude::*;

verus! {

/// What `ByteSlice::trim_start` of the bstr crate keeps of the given
/// bytes: all but the white space at their start, where white space is
/// what Unicode calls so.
pub uninterp spec fn bstr_trim_start(bytes: Seq<u8>) -> Seq<u8>;

/// What `ByteSlice::trim_end` of the bstr crate keeps of the given bytes:
/// all but the white space at their end.
pub uninterp spec fn bstr_trim_end(bytes: Seq<u8>) -> Seq<u8>;

/// Calls `ByteSlice::trim_start` of the bstr crate. Its result depends on
/// the bytes alone and is the end of the line from some index on.
#[verifier::external_body]
fn trim_start<'a>(line: &'a [u8]) -> (kept: &'a [u8])
    ensures
        kept@ == bstr_trim_start(line@),
        kept@.len() <= line@.len(),
        kept@ == line@.skip(line@.len() - kept@.len()),
{
    line.trim_start()
}

/// Calls `ByteSlice::trim_end` of the bstr crate. Its result depends on
/// the bytes alone and is the start of the line up to some index.
#[verifier::external_body]
fn trim_end<'a>(line: &'a [u8]) -> (kept: &'a [u8])
    ensures
        kept@ == bstr_trim_end(line@),
        kept@.len() <= line@.len(),
        kept@ == line@.take(kept@.len() as int),
{
    line.trim_end()
}

/// Calls `ByteSlice::trim` of the bstr crate, which trims the start and
/// then the end.
#[verifier::external_body]
fn trim<'a>(line: &'a [u8]) -> (kept: &'a [u8])
    ensures
        kept@ == bstr_trim_end(bstr_trim_start(line@)),
{
    line.trim()
}

/// What is kept of a line. Both ends are trimmed where both or neither
/// are asked for, else the one that is asked for.
pub open spec fn trimmed(line: Seq<u8>, start: bool, end: bool) -> Seq<u8> {
    if start == end {
        bstr_trim_end(bstr_trim_start(line))
    } else if start {
        bstr_trim_start(line)
    } else {
        bstr_trim_end(line)
    }
}

/// Trims a line at the ends that are asked for.
pub fn trim_line<'a>(line: &'a [u8], start: bool, end: bool) -> (kept: &'a [u8])
    ensures
        kept@ == trimmed(line@, start, end),
        start != end ==> kept@.len() <= line@.len(),
        start && !end ==> kept@ == line@.skip(line@.len() - kept@.len()),
        end && !start ==> kept@ == line@.take(kept@.len() as int),
{
    match (start, end) {
        (true, true) | (false, false) => trim(line),
        (true, false) => trim_start(line),
        (false, true) => trim_end(line),
    }
}

} // verus!

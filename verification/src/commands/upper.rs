//! Converts text to upper case.

use bstr::ByteSlice;
use vstd::prelude::*;

verus! {

/// What `ByteSlice::to_uppercase_into` of the bstr crate appends for the
/// given bytes: their upper case by the Unicode tables, with invalid
/// UTF-8 left as it is.
pub uninterp spec fn bstr_uppercase(bytes: Seq<u8>) -> Seq<u8>;

/// Calls `ByteSlice::to_uppercase_into` of the bstr crate, which appends
/// the upper case of `block` to `buffer` and leaves what `buffer` holds in
/// place. What is appended depends on the bytes of `block` alone.
#[verifier::external_body]
fn to_uppercase_into(block: &[u8], buffer: &mut Vec<u8>)
    ensures
        final(buffer)@ == old(buffer)@ + bstr_uppercase(block@),
{
    block.to_uppercase_into(buffer);
}

/// True where every byte is an ASCII character.
pub open spec fn is_ascii(bytes: Seq<u8>) -> bool {
    forall|i: int| 0 <= i < bytes.len() ==> bytes[i] < 0x80
}

/// The upper case of an ASCII character: the letters `a` to `z` become
/// `A` to `Z`, every other byte stays.
pub open spec fn ascii_upper(byte: u8) -> u8 {
    if 0x61 <= byte <= 0x7A {
        (byte - 0x20) as u8
    } else {
        byte
    }
}

/// The upper case of a block. A block of ASCII characters is converted
/// byte by byte; any other block is converted by the Unicode tables.
pub open spec fn upper(block: Seq<u8>) -> Seq<u8> {
    if is_ascii(block) {
        block.map_values(|byte: u8| ascii_upper(byte))
    } else {
        bstr_uppercase(block)
    }
}

/// Tells whether every byte is an ASCII character.
pub fn block_is_ascii(block: &[u8]) -> (ascii: bool)
    ensures
        ascii == is_ascii(block@),
{
    let mut i: usize = 0;
    while i < block.len()
        invariant
            i <= block.len(),
            forall|k: int| 0 <= k < i ==> block@[k] < 0x80,
        decreases block.len() - i,
    {
        if block[i] >= 0x80 {
            return false;
        }
        i += 1;
    }
    true
}

/// Appends the upper case of a block to `out`.
pub fn uppercase_block(block: &[u8], out: &mut Vec<u8>)
    ensures
        final(out)@ == old(out)@ + upper(block@),
{
    if block_is_ascii(block) {
        let mut i: usize = 0;
        let ghost converted = block@.map_values(|byte: u8| ascii_upper(byte));
        assert(old(out)@ + converted.take(0) =~= old(out)@);
        while i < block.len()
            invariant
                i <= block.len(),
                converted == block@.map_values(|byte: u8| ascii_upper(byte)),
                out@ == old(out)@ + converted.take(i as int),
            decreases block.len() - i,
        {
            let byte = block[i];
            if byte >= 0x61 && byte <= 0x7A {
                out.push(byte - 0x20);
            } else {
                out.push(byte);
            }
            i += 1;
            assert(out@ =~= old(out)@ + converted.take(i as int));
        }
        assert(converted.take(block.len() as int) =~= converted);
    } else {
        to_uppercase_into(block, out);
    }
}

} // verus!

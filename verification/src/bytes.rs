//! Bytes in buffers: copying a run of bytes, and 32-bit words as the machine
//! lays them out in memory.
//!
//! The row id and the cell count of a leaf node are stored as the four bytes
//! of a `u32` in the byte order of the machine that runs the program.

use vstd::bytes::{
    lemma_auto_spec_u32_to_from_le_bytes,
    spec_u32_from_le_bytes,
    spec_u32_to_le_bytes,
};
use vstd::endian::{endianness, Endian};
use vstd::prelude::*;

verus! {

/// Bytes in a stored word.
pub const WORD_SIZE: usize = 4;

/// The four bytes of `x` in the machine's byte order: least significant byte
/// first on a little-endian machine, most significant first on a big-endian
/// one.
pub open spec fn native_bytes(x: u32) -> Seq<u8> {
    match endianness() {
        Endian::Little => spec_u32_to_le_bytes(x),
        Endian::Big => spec_u32_to_le_bytes(x).reverse(),
    }
}

/// The word that four bytes in the machine's byte order stand for.
pub open spec fn native_word(bytes: Seq<u8>) -> u32 {
    match endianness() {
        Endian::Little => spec_u32_from_le_bytes(bytes),
        Endian::Big => spec_u32_from_le_bytes(bytes.reverse()),
    }
}

/// A word has four bytes, and they stand for that word.
pub proof fn lemma_native_bytes(x: u32)
    ensures
        native_bytes(x).len() == WORD_SIZE,
        native_word(native_bytes(x)) == x,
{
    lemma_auto_spec_u32_to_from_le_bytes();
    let le = spec_u32_to_le_bytes(x);
    assert(le.reverse().reverse() =~= le);
}

/// Any four bytes are the bytes of the word they stand for.
pub proof fn lemma_native_word(bytes: Seq<u8>)
    requires
        bytes.len() == WORD_SIZE,
    ensures
        native_bytes(native_word(bytes)) == bytes,
{
    lemma_auto_spec_u32_to_from_le_bytes();
    assert(bytes.reverse().reverse() =~= bytes);
}

/// `u32::to_ne_bytes`: the memory representation of `x` as four bytes in the
/// byte order of the target. The contract says which bytes these are for
/// either byte order.
#[verifier::external_body]
fn to_ne_bytes(x: u32) -> (bytes: [u8; 4])
    ensures
        bytes@ == native_bytes(x),
{
    x.to_ne_bytes()
}

/// `u32::from_ne_bytes`: the word whose memory representation in the byte
/// order of the target is `bytes`. The contract says which word that is for
/// either byte order.
#[verifier::external_body]
fn from_ne_bytes(bytes: [u8; 4]) -> (x: u32)
    ensures
        x == native_word(bytes@),
{
    u32::from_ne_bytes(bytes)
}

/// Stores `x` in the four bytes of `destination` that start at `offset`.
pub(crate) fn write_word(destination: &mut [u8], offset: usize, x: u32)
    requires
        offset + WORD_SIZE <= old(destination)@.len(),
    ensures
        final(destination)@ == old(destination)@.subrange(0, offset as int) + native_bytes(x)
            + old(destination)@.subrange(offset + WORD_SIZE, old(destination)@.len() as int),
{
    let bytes = to_ne_bytes(x);
    destination[offset] = bytes[0];
    destination[offset + 1] = bytes[1];
    destination[offset + 2] = bytes[2];
    destination[offset + 3] = bytes[3];
    proof {
        lemma_native_bytes(x);
    }
}

/// The word stored in the four bytes of `source` that start at `offset`.
pub(crate) fn read_word(source: &[u8], offset: usize) -> (x: u32)
    requires
        offset + WORD_SIZE <= source@.len(),
    ensures
        x == native_word(source@.subrange(offset as int, offset + WORD_SIZE)),
{
    let bytes = [source[offset], source[offset + 1], source[offset + 2], source[offset + 3]];
    assert(bytes@ =~= source@.subrange(offset as int, offset + WORD_SIZE));
    from_ne_bytes(bytes)
}

/// A new buffer of `count` zeros.
pub(crate) fn zeroed(count: usize) -> (out: Vec<u8>)
    ensures
        out@ == Seq::new(count as nat, |i: int| 0u8),
{
    let mut out: Vec<u8> = Vec::new();
    while out.len() < count
        invariant
            out@.len() <= count,
            forall|i: int| 0 <= i < out@.len() ==> out@[i] == 0u8,
        decreases count - out@.len(),
    {
        out.push(0);
    }
    assert(out@ =~= Seq::new(count as nat, |i: int| 0u8));
    out
}

/// Copies `source` over the bytes of `destination` that start at `offset`.
pub(crate) fn copy_into(destination: &mut [u8], offset: usize, source: &[u8])
    requires
        offset + source@.len() <= old(destination)@.len(),
    ensures
        final(destination)@ == old(destination)@.subrange(0, offset as int) + source@
            + old(destination)@.subrange(
            offset + source@.len(),
            old(destination)@.len() as int,
        ),
{
    let count: usize = source.len();
    let total: usize = destination.len();
    let mut i: usize = 0;
    while i < count
        invariant
            i <= count == source@.len(),
            offset + count <= total,
            destination@.len() == total == old(destination)@.len(),
            forall|j: int| 0 <= j < i ==> destination@[offset + j] == source@[j],
            forall|j: int|
                0 <= j < destination@.len() && !(offset <= j < offset + i) ==> destination@[j]
                    == old(destination)@[j],
        decreases count - i,
    {
        destination[offset + i] = source[i];
        i += 1;
    }
}

/// A new buffer with the `count` bytes of `source` that start at `offset`.
pub(crate) fn copy_range(source: &[u8], offset: usize, count: usize) -> (out: Vec<u8>)
    requires
        offset + count <= source@.len(),
    ensures
        out@ == source@.subrange(offset as int, offset + count),
{
    let total: usize = source.len();
    let mut out: Vec<u8> = Vec::new();
    let mut i: usize = 0;
    while i < count
        invariant
            i <= count,
            offset + count <= total == source@.len(),
            out@ == source@.subrange(offset as int, offset + i),
        decreases count - i,
    {
        out.push(source[offset + i]);
        assert(out@ =~= source@.subrange(offset as int, offset + i + 1));
        i += 1;
    }
    out
}

} // verus!

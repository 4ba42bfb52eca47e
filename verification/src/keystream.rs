//! The keystream: the blocks of successive counters, end to end.

use crate::block::keystream_block;
use crate::counter::counter_advance;
use vstd::prelude::*;

verus! {

/// Number of blocks that cover `len` bytes; the last one may be partly used.
pub open spec fn blocks_needed(len: int) -> int {
    (len + 63) / 64
}

/// Byte `i` of the keystream of `key` that starts at `counter`: byte
/// `i % 64` of the block `i / 64` blocks on.
pub open spec fn keystream_byte(key: Seq<u8>, counter: Seq<u32>, i: int) -> u8 {
    keystream_block(key, counter_advance(counter, i / 64))[i % 64]
}

/// The first `len` bytes of the keystream of `key` that starts at `counter`.
pub open spec fn keystream(key: Seq<u8>, counter: Seq<u32>, len: nat) -> Seq<u8> {
    Seq::new(len, |i: int| keystream_byte(key, counter, i))
}

/// `input` XORed byte by byte with the keystream of `key` that starts at
/// `counter`.
pub open spec fn xor_keystream(key: Seq<u8>, counter: Seq<u32>, input: Seq<u8>) -> Seq<u8> {
    Seq::new(input.len(), |i: int| input[i] ^ keystream_byte(key, counter, i))
}

/// Byte `j` of block `k` is byte `64 * k + j` of the keystream.
pub proof fn lemma_keystream_byte_of_block(key: Seq<u8>, counter: Seq<u32>, k: int, j: int)
    requires
        0 <= k,
        0 <= j < 64,
    ensures
        keystream_byte(key, counter, 64 * k + j) == keystream_block(
            key,
            counter_advance(counter, k),
        )[j],
{
    assert((64 * k + j) / 64 == k);
    assert((64 * k + j) % 64 == j);
}

} // verus!

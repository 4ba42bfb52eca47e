//! What holds of the cipher as a whole, proved of the functions that the
//! contracts of the engine are stated over.

use crate::block::keystream_block;
use crate::counter::{blocks_remain, counter_advance, counter_words};
use crate::engine::xor_within;
use crate::keystream::{blocks_needed, keystream, keystream_byte, xor_keystream};
use vstd::prelude::*;

verus! {

/// XORing a byte twice with the same byte gives the byte back, and XORing
/// zero with a byte gives that byte.
pub proof fn lemma_xor_byte(a: u8, k: u8)
    ensures
        (a ^ k) ^ k == a,
        0u8 ^ k == k,
{
    assert((a ^ k) ^ k == a) by (bit_vector);
    assert(0u8 ^ k == k) by (bit_vector);
}

/// A keystream block is 64 bytes long.
pub proof fn lemma_block_len(key: Seq<u8>, counter: Seq<u32>)
    ensures
        keystream_block(key, counter).len() == 64,
{
    reveal(keystream_block);
}

/// The output is as long as the input.
pub proof fn lemma_output_len(key: Seq<u8>, counter: Seq<u32>, input: Seq<u8>)
    ensures
        xor_keystream(key, counter, input).len() == input.len(),
{
}

/// Determinism: the output is decided by the key, the nonce, the starting
/// block counter and the input. Two outputs for the same four are the same,
/// byte for byte.
pub proof fn lemma_deterministic(
    key: Seq<u8>,
    nonce: Seq<u8>,
    block_counter: u32,
    input: Seq<u8>,
    first: Seq<u8>,
    second: Seq<u8>,
)
    requires
        first == xor_keystream(key, counter_words(nonce, block_counter), input),
        second == xor_keystream(key, counter_words(nonce, block_counter), input),
    ensures
        first == second,
{
}

/// Involution: XORing the output once more, with the same key and counter,
/// gives the input back.
pub proof fn lemma_involution(key: Seq<u8>, counter: Seq<u32>, input: Seq<u8>)
    ensures
        xor_keystream(key, counter, xor_keystream(key, counter, input)) == input,
{
    let once = xor_keystream(key, counter, input);
    let twice = xor_keystream(key, counter, once);
    assert forall|i: int| 0 <= i < input.len() implies twice[i] == input[i] by {
        lemma_xor_byte(input[i], keystream_byte(key, counter, i));
    }
    assert(twice =~= input);
}

/// XORing zeros gives the keystream itself.
pub proof fn lemma_zeros_give_keystream(key: Seq<u8>, counter: Seq<u32>, len: nat)
    ensures
        xor_keystream(key, counter, Seq::new(len, |i: int| 0u8)) == keystream(key, counter, len),
{
    let zeros = Seq::new(len, |i: int| 0u8);
    let out = xor_keystream(key, counter, zeros);
    assert forall|i: int| 0 <= i < len implies out[i] == keystream(key, counter, len)[i] by {
        lemma_xor_byte(0u8, keystream_byte(key, counter, i));
    }
    assert(out =~= keystream(key, counter, len));
}

/// Prefix consistency: the first `p` bytes of the output for an input are
/// the output for the first `p` bytes of that input.
pub proof fn lemma_prefix(key: Seq<u8>, counter: Seq<u32>, input: Seq<u8>, p: int)
    requires
        0 <= p <= input.len(),
    ensures
        xor_keystream(key, counter, input).subrange(0, p) == xor_keystream(
            key,
            counter,
            input.subrange(0, p),
        ),
{
    assert(xor_keystream(key, counter, input).subrange(0, p) =~= xor_keystream(
        key,
        counter,
        input.subrange(0, p),
    ));
}

/// Overlap invariance: wherever the input region and the output region lie
/// in a buffer (apart, one on the other, the input ahead of the output or
/// behind it, by any number of bytes), the output region ends up holding
/// what XORing the same input into a buffer of its own gives, and no byte
/// outside the output region changes.
pub proof fn lemma_overlap_invariance(
    key: Seq<u8>,
    counter: Seq<u32>,
    buf: Seq<u8>,
    src: int,
    dst: int,
    len: int,
)
    requires
        0 <= len,
        0 <= src,
        src + len <= buf.len(),
        0 <= dst,
        dst + len <= buf.len(),
    ensures
        xor_within(buf, key, counter, src, dst, len).len() == buf.len(),
        xor_within(buf, key, counter, src, dst, len).subrange(dst, dst + len) == xor_keystream(
            key,
            counter,
            buf.subrange(src, src + len),
        ),
        xor_within(buf, key, counter, src, dst, len).subrange(0, dst) == buf.subrange(0, dst),
        xor_within(buf, key, counter, src, dst, len).subrange(dst + len, buf.len() as int)
            == buf.subrange(dst + len, buf.len() as int),
{
    let after = xor_within(buf, key, counter, src, dst, len);
    assert(after.subrange(dst, dst + len) =~= xor_keystream(
        key,
        counter,
        buf.subrange(src, src + len),
    ));
    assert(after.subrange(0, dst) =~= buf.subrange(0, dst));
    assert(after.subrange(dst + len, buf.len() as int) =~= buf.subrange(
        dst + len,
        buf.len() as int,
    ));
}

/// Two buffers that hold the same input, each at a place of its own, get
/// the same output, whatever the two placements.
pub proof fn lemma_placement_is_immaterial(
    key: Seq<u8>,
    counter: Seq<u32>,
    one: Seq<u8>,
    src1: int,
    dst1: int,
    other: Seq<u8>,
    src2: int,
    dst2: int,
    len: int,
)
    requires
        0 <= len,
        0 <= src1,
        src1 + len <= one.len(),
        0 <= dst1,
        dst1 + len <= one.len(),
        0 <= src2,
        src2 + len <= other.len(),
        0 <= dst2,
        dst2 + len <= other.len(),
        one.subrange(src1, src1 + len) == other.subrange(src2, src2 + len),
    ensures
        xor_within(one, key, counter, src1, dst1, len).subrange(dst1, dst1 + len) == xor_within(
            other,
            key,
            counter,
            src2,
            dst2,
            len,
        ).subrange(dst2, dst2 + len),
{
    lemma_overlap_invariance(key, counter, one, src1, dst1, len);
    lemma_overlap_invariance(key, counter, other, src2, dst2, len);
}

/// XORing a buffer onto itself is XORing it in place.
pub proof fn lemma_within_in_place(key: Seq<u8>, counter: Seq<u32>, buf: Seq<u8>)
    ensures
        xor_within(buf, key, counter, 0, 0, buf.len() as int) == xor_keystream(key, counter, buf),
{
    assert(buf.subrange(0, buf.len() as int) =~= buf);
    assert(xor_within(buf, key, counter, 0, 0, buf.len() as int) =~= xor_keystream(
        key,
        counter,
        buf,
    ));
}

/// Whole blocks are counted one counter step each.
pub proof fn lemma_blocks_of_whole_blocks(blocks: int)
    requires
        0 <= blocks,
    ensures
        blocks_needed(64 * blocks) == blocks,
{
}

/// Advancing a counter in two steps is advancing it by their sum, and
/// advancing it by nothing leaves it as it is.
pub proof fn lemma_advance_adds(counter: Seq<u32>, a: int, b: int)
    requires
        counter.len() == 4,
        0 <= a,
        0 <= b,
    ensures
        counter_advance(counter_advance(counter, a), b) == counter_advance(counter, a + b),
        counter_advance(counter, 0) == counter,
{
    let m = 0x1_0000_0000int;
    let c = counter[0] as int;
    assert(((c + a) % m + b) % m == (c + a + b) % m) by {
        vstd::arithmetic::div_mod::lemma_add_mod_noop(c + a, b, m);
        vstd::arithmetic::div_mod::lemma_mod_twice(c + a, m);
        vstd::arithmetic::div_mod::lemma_add_mod_noop((c + a) % m, b, m);
    }
    assert(counter_advance(counter_advance(counter, a), b) =~= counter_advance(counter, a + b));
    assert(counter_advance(counter, 0) =~= counter);
}

/// Counter increment: after `blocks` whole blocks the keystream goes on as
/// the keystream that starts `blocks` counter steps later.
pub proof fn lemma_keystream_resumes(key: Seq<u8>, counter: Seq<u32>, blocks: int, i: int)
    requires
        counter.len() == 4,
        0 <= blocks,
        0 <= i,
    ensures
        keystream_byte(key, counter, 64 * blocks + i) == keystream_byte(
            key,
            counter_advance(counter, blocks),
            i,
        ),
{
    assert((64 * blocks + i) / 64 == blocks + i / 64);
    assert((64 * blocks + i) % 64 == i % 64);
    lemma_advance_adds(counter, blocks, i / 64);
}

/// Splitting at a block boundary: one call over `head + tail`, where `head`
/// is `blocks` whole blocks, gives what a call over `head` gives, followed
/// by what a call over `tail` gives that starts at the counter advanced by
/// `blocks`.
pub proof fn lemma_split_at_block_boundary(
    key: Seq<u8>,
    counter: Seq<u32>,
    head: Seq<u8>,
    tail: Seq<u8>,
    blocks: int,
)
    requires
        counter.len() == 4,
        0 <= blocks,
        head.len() == 64 * blocks,
    ensures
        xor_keystream(key, counter, head + tail) == xor_keystream(key, counter, head)
            + xor_keystream(key, counter_advance(counter, blocks), tail),
        blocks_needed(head.len() as int) == blocks,
{
    let whole = xor_keystream(key, counter, head + tail);
    let first = xor_keystream(key, counter, head);
    let second = xor_keystream(key, counter_advance(counter, blocks), tail);
    assert forall|i: int| 0 <= i < whole.len() implies whole[i] == (first + second)[i] by {
        if i >= head.len() {
            lemma_keystream_resumes(key, counter, blocks, i - head.len());
        }
    }
    assert(whole =~= first + second);
}

/// A call that the counter allows for an input allows for every shorter
/// one.
pub proof fn lemma_shorter_is_allowed(counter: Seq<u32>, len: int, shorter: int)
    requires
        0 <= shorter <= len,
        blocks_remain(counter, blocks_needed(len)),
    ensures
        blocks_remain(counter, blocks_needed(shorter)),
{
}

} // verus!

//! The XOR engine: a byte buffer XORed with the keystream, between two
//! buffers or within one, whatever the overlap of input and output.

use crate::block::{chacha20_block, keystream_block, BLOCK_LEN};
use crate::counter::{blocks_remain, counter_advance, counter_at, Counter};
use crate::error::Error;
use crate::key::Key;
use crate::keystream::{
    blocks_needed, keystream, keystream_byte, lemma_keystream_byte_of_block, xor_keystream,
};
use vstd::prelude::*;

verus! {

/// `buf` after the `len` bytes at `src` have been XORed with the keystream
/// and the result written to the `len` bytes at `dst`: the output region
/// holds what `xor_keystream` gives for the input region as it was, and
/// every other byte is as in `buf`.
pub open spec fn xor_within(
    buf: Seq<u8>,
    key: Seq<u8>,
    counter: Seq<u32>,
    src: int,
    dst: int,
    len: int,
) -> Seq<u8> {
    let out = xor_keystream(key, counter, buf.subrange(src, src + len));
    Seq::new(
        buf.len(),
        |p: int|
            if dst <= p < dst + len {
                out[p - dst]
            } else {
                buf[p]
            },
    )
}

/// Whether the blocks that cover `len` bytes can be drawn from `counter`
/// without its block counter wrapping.
fn counter_allows(counter: &Counter, len: usize) -> (ok: bool)
    ensures
        ok == blocks_remain(counter@, blocks_needed(len as int)),
{
    let whole: u64 = (len / BLOCK_LEN) as u64;
    let blocks: u64 = if len % BLOCK_LEN == 0 {
        whole
    } else {
        whole + 1
    };
    blocks <= 0x1_0000_0000u64 - (counter[0] as u64)
}

/// Fills `out` with the keystream of `key` that starts at `counter`: one
/// block after another, each at the counter after that of the one before,
/// the last cut to what is left of `out`. One block is held at a time.
///
/// Nothing is written unless the call succeeds.
pub fn chacha20_keystream(key: &Key, counter: &Counter, out: &mut [u8]) -> (r: Result<(), Error>)
    ensures
        match r {
            Ok(_) => {
                &&& blocks_remain(counter@, blocks_needed(old(out)@.len() as int))
                &&& final(out)@ == keystream(key@, counter@, old(out)@.len())
            },
            Err(e) => {
                &&& !blocks_remain(counter@, blocks_needed(old(out)@.len() as int))
                &&& e == Error::CounterOverflow
                &&& final(out)@ == old(out)@
            },
        },
{
    let len: usize = out.len();
    if !counter_allows(counter, len) {
        return Err(Error::CounterOverflow);
    }
    let mut k: usize = 0;
    let mut off: usize = 0;
    while off < len
        invariant
            out@.len() == len,
            blocks_remain(counter@, blocks_needed(len as int)),
            off <= len,
            off == len || off == 64 * k,
            forall|i: int| 0 <= i < off ==> out@[i] == keystream_byte(key@, counter@, i),
        decreases len - off,
    {
        let block = chacha20_block(key, &counter_at(counter, k as u32));
        let n: usize = if len - off < BLOCK_LEN {
            len - off
        } else {
            BLOCK_LEN
        };
        let mut j: usize = 0;
        while j < n
            invariant
                out@.len() == len,
                off == 64 * k,
                off + n <= len,
                n <= BLOCK_LEN,
                j <= n,
                block@ == keystream_block(key@, counter_advance(counter@, k as int)),
                forall|i: int| 0 <= i < off + j ==> out@[i] == keystream_byte(key@, counter@, i),
            decreases n - j,
        {
            proof {
                lemma_keystream_byte_of_block(key@, counter@, k as int, j as int);
            }
            out[off + j] = block[j];
            j += 1;
        }
        off += n;
        k += 1;
    }
    assert(out@ =~= keystream(key@, counter@, len as nat));
    Ok(())
}

/// XORs `input` with the keystream of `key` that starts at `counter` and
/// writes the result to `output`, which must be as long as `input`.
///
/// Nothing is written unless the call succeeds.
pub fn chacha20_xor_inner(key: &Key, counter: &Counter, input: &[u8], output: &mut [u8]) -> (r:
    Result<(), Error>)
    ensures
        match r {
            Ok(_) => {
                &&& input@.len() == old(output)@.len()
                &&& blocks_remain(counter@, blocks_needed(input@.len() as int))
                &&& final(output)@ == xor_keystream(key@, counter@, input@)
            },
            Err(e) => {
                &&& final(output)@ == old(output)@
                &&& if input@.len() != old(output)@.len() {
                    e == Error::LengthMismatch
                } else {
                    !blocks_remain(counter@, blocks_needed(input@.len() as int)) && e
                        == Error::CounterOverflow
                }
            },
        },
{
    let len: usize = input.len();
    if output.len() != len {
        return Err(Error::LengthMismatch);
    }
    if !counter_allows(counter, len) {
        return Err(Error::CounterOverflow);
    }
    let mut k: usize = 0;
    let mut off: usize = 0;
    while off < len
        invariant
            len == input@.len(),
            output@.len() == len,
            blocks_remain(counter@, blocks_needed(len as int)),
            off <= len,
            off == len || off == 64 * k,
            forall|i: int| 0 <= i < off ==> output@[i] == input@[i] ^ keystream_byte(
                key@,
                counter@,
                i,
            ),
        decreases len - off,
    {
        let block = chacha20_block(key, &counter_at(counter, k as u32));
        let n: usize = if len - off < BLOCK_LEN {
            len - off
        } else {
            BLOCK_LEN
        };
        let mut j: usize = 0;
        while j < n
            invariant
                len == input@.len(),
                output@.len() == len,
                off == 64 * k,
                off + n <= len,
                n <= BLOCK_LEN,
                j <= n,
                block@ == keystream_block(key@, counter_advance(counter@, k as int)),
                forall|i: int| 0 <= i < off + j ==> output@[i] == input@[i] ^ keystream_byte(
                    key@,
                    counter@,
                    i,
                ),
            decreases n - j,
        {
            proof {
                lemma_keystream_byte_of_block(key@, counter@, k as int, j as int);
            }
            output[off + j] = input[off + j] ^ block[j];
            j += 1;
        }
        off += n;
        k += 1;
    }
    assert(output@ =~= xor_keystream(key@, counter@, input@));
    Ok(())
}

/// `buf` after the span `lo .. hi` of a region has been processed: byte
/// `dst + i` holds byte `src + i` of `buf` XORed with keystream byte `i`, for
/// `lo <= i < hi`, and every other byte is as in `buf`.
spec fn xor_span(
    buf: Seq<u8>,
    key: Seq<u8>,
    counter: Seq<u32>,
    src: int,
    dst: int,
    lo: int,
    hi: int,
) -> Seq<u8> {
    Seq::new(
        buf.len(),
        |p: int|
            if dst + lo <= p < dst + hi {
                buf[p - dst + src] ^ keystream_byte(key, counter, p - dst)
            } else {
                buf[p]
            },
    )
}

/// Where chunk `k` of a region of `len` bytes ends.
spec fn chunk_end(k: int, len: int) -> int {
    if 64 * k + 64 < len {
        64 * k + 64
    } else {
        len
    }
}

/// Processes chunk `k` of a region: copies its input bytes aside, then
/// writes them, XORed with keystream block `k`, to the output region.
fn xor_chunk(
    key: &Key,
    counter: &Counter,
    buf: &mut [u8],
    src: usize,
    dst: usize,
    len: usize,
    k: usize,
)
    requires
        src + len <= old(buf)@.len(),
        dst + len <= old(buf)@.len(),
        64 * k < len,
        blocks_remain(counter@, blocks_needed(len as int)),
    ensures
        final(buf)@ == xor_span(
            old(buf)@,
            key@,
            counter@,
            src as int,
            dst as int,
            64 * k,
            chunk_end(k as int, len as int),
        ),
{
    let ghost before = buf@;
    let total: usize = buf.len();
    let lo: usize = 64 * k;
    let n: usize = if len - lo < BLOCK_LEN {
        len - lo
    } else {
        BLOCK_LEN
    };
    let block = chacha20_block(key, &counter_at(counter, k as u32));
    let mut held: [u8; BLOCK_LEN] = [0u8; BLOCK_LEN];
    let mut j: usize = 0;
    while j < n
        invariant
            buf@ == before,
            before.len() == total,
            src + lo + n <= total,
            n <= BLOCK_LEN,
            j <= n,
            forall|i: int| 0 <= i < j ==> held@[i] == before[src + lo + i],
        decreases n - j,
    {
        held[j] = buf[src + lo + j];
        j += 1;
    }
    let mut j: usize = 0;
    while j < n
        invariant
            buf@.len() == total,
            before.len() == total,
            src + lo + n <= total,
            dst + lo + n <= total,
            lo == 64 * k,
            n <= BLOCK_LEN,
            j <= n,
            block@ == keystream_block(key@, counter_advance(counter@, k as int)),
            forall|i: int| 0 <= i < n ==> held@[i] == before[src + lo + i],
            buf@ == xor_span(before, key@, counter@, src as int, dst as int, lo as int, lo + j),
        decreases n - j,
    {
        proof {
            lemma_keystream_byte_of_block(key@, counter@, k as int, j as int);
        }
        buf[dst + lo + j] = held[j] ^ block[j];
        j += 1;
        assert(buf@ =~= xor_span(
            before,
            key@,
            counter@,
            src as int,
            dst as int,
            lo as int,
            lo + j,
        ));
    }
}

/// XORs the `len` bytes of `buf` that start at `src` with the keystream of
/// `key` that starts at `counter`, and writes the result to the `len` bytes
/// that start at `dst`. The two regions may lie anywhere in `buf`: apart,
/// one on the other, or partly overlapping with the input ahead of the
/// output or behind it. The result is that of XORing a copy of the input
/// taken before the call. Bytes outside the output region keep their values.
///
/// The buffer is worked through in chunks of one block, from the front where
/// the output starts at or before the input and from the back where it
/// starts after it, so that no chunk's output lands on input that is still
/// to be read. Only one block of scratch space is used.
///
/// Nothing is written unless the call succeeds.
pub fn chacha20_xor_within(
    key: &Key,
    counter: &Counter,
    buf: &mut [u8],
    src: usize,
    dst: usize,
    len: usize,
) -> (r: Result<(), Error>)
    requires
        src + len <= old(buf)@.len(),
        dst + len <= old(buf)@.len(),
    ensures
        match r {
            Ok(_) => {
                &&& blocks_remain(counter@, blocks_needed(len as int))
                &&& final(buf)@ == xor_within(
                    old(buf)@,
                    key@,
                    counter@,
                    src as int,
                    dst as int,
                    len as int,
                )
            },
            Err(e) => {
                &&& !blocks_remain(counter@, blocks_needed(len as int))
                &&& e == Error::CounterOverflow
                &&& final(buf)@ == old(buf)@
            },
        },
{
    if !counter_allows(counter, len) {
        return Err(Error::CounterOverflow);
    }
    let ghost before = buf@;
    let blocks: usize = if len % BLOCK_LEN == 0 {
        len / BLOCK_LEN
    } else {
        len / BLOCK_LEN + 1
    };
    if dst <= src {
        let mut k: usize = 0;
        while k < blocks
            invariant
                buf@.len() == before.len(),
                src + len <= before.len(),
                dst + len <= before.len(),
                dst <= src,
                blocks == blocks_needed(len as int),
                blocks_remain(counter@, blocks_needed(len as int)),
                k <= blocks,
                buf@ == xor_span(
                    before,
                    key@,
                    counter@,
                    src as int,
                    dst as int,
                    0,
                    if k == blocks {
                        len as int
                    } else {
                        64 * k
                    },
                ),
            decreases blocks - k,
        {
            xor_chunk(key, counter, buf, src, dst, len, k);
            k += 1;
            assert(buf@ =~= xor_span(
                before,
                key@,
                counter@,
                src as int,
                dst as int,
                0,
                if k == blocks {
                    len as int
                } else {
                    64 * k
                },
            ));
        }
    } else {
        let mut k: usize = blocks;
        while k > 0
            invariant
                buf@.len() == before.len(),
                src + len <= before.len(),
                dst + len <= before.len(),
                dst > src,
                blocks == blocks_needed(len as int),
                blocks_remain(counter@, blocks_needed(len as int)),
                k <= blocks,
                buf@ == xor_span(
                    before,
                    key@,
                    counter@,
                    src as int,
                    dst as int,
                    if k == blocks {
                        len as int
                    } else {
                        64 * k
                    },
                    len as int,
                ),
            decreases k,
        {
            k -= 1;
            xor_chunk(key, counter, buf, src, dst, len, k);
            assert(buf@ =~= xor_span(
                before,
                key@,
                counter@,
                src as int,
                dst as int,
                64 * k,
                len as int,
            ));
        }
    }
    assert(buf@ =~= xor_within(before, key@, counter@, src as int, dst as int, len as int));
    Ok(())
}

/// XORs `in_out` in place with the keystream of `key` that starts at
/// `counter`.
///
/// Nothing is written unless the call succeeds.
pub fn chacha20_xor_in_place(key: &Key, counter: &Counter, in_out: &mut [u8]) -> (r: Result<
    (),
    Error,
>)
    ensures
        match r {
            Ok(_) => {
                &&& blocks_remain(counter@, blocks_needed(old(in_out)@.len() as int))
                &&& final(in_out)@ == xor_keystream(key@, counter@, old(in_out)@)
            },
            Err(e) => {
                &&& !blocks_remain(counter@, blocks_needed(old(in_out)@.len() as int))
                &&& e == Error::CounterOverflow
                &&& final(in_out)@ == old(in_out)@
            },
        },
{
    let ghost before = in_out@;
    let len: usize = in_out.len();
    let r = chacha20_xor_within(key, counter, in_out, 0, 0, len);
    proof {
        assert(before.subrange(0, len as int) =~= before);
        if r is Ok {
            assert(in_out@ =~= xor_keystream(key@, counter@, before));
        }
    }
    r
}

/// XORs the bytes of `in_out` from `in_prefix_len` on with the keystream of
/// `key` that starts at `counter`, and writes the result to the front of
/// `in_out`: the input lies `in_prefix_len` bytes ahead of the output and
/// overlaps it wherever the input is longer than that. The last
/// `in_prefix_len` bytes of `in_out` keep their values. `in_prefix_len` is
/// at most the length of `in_out`.
///
/// Nothing is written unless the call succeeds.
pub fn chacha20_xor_overlapping(
    key: &Key,
    counter: &Counter,
    in_out: &mut [u8],
    in_prefix_len: usize,
) -> (r: Result<(), Error>)
    requires
        in_prefix_len <= old(in_out)@.len(),
    ensures
        match r {
            Ok(_) => {
                &&& blocks_remain(counter@, blocks_needed(old(in_out)@.len() - in_prefix_len))
                &&& final(in_out)@ == xor_within(
                    old(in_out)@,
                    key@,
                    counter@,
                    in_prefix_len as int,
                    0,
                    old(in_out)@.len() - in_prefix_len,
                )
            },
            Err(e) => {
                &&& !blocks_remain(counter@, blocks_needed(old(in_out)@.len() - in_prefix_len))
                &&& e == Error::CounterOverflow
                &&& final(in_out)@ == old(in_out)@
            },
        },
{
    let len: usize = in_out.len() - in_prefix_len;
    chacha20_xor_within(key, counter, in_out, in_prefix_len, 0, len)
}

} // verus!

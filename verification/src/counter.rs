//! The counter: the 32-bit block counter followed by the three nonce words.

use crate::error::Error;
use crate::word::{le_words, load_le};
use vstd::prelude::*;

verus! {

/// Length of a nonce in bytes.
pub const NONCE_LEN: usize = 12;

/// The last four words of the cipher state: the block counter, then the
/// nonce as three little-endian words.
pub type Counter = [u32; 4];

/// The counter made of a starting block counter and a 12-byte nonce.
pub open spec fn counter_words(nonce: Seq<u8>, block_counter: u32) -> Seq<u32> {
    seq![block_counter] + le_words(nonce)
}

/// Whether `blocks` blocks can be drawn starting at `counter` without the
/// block counter passing 2^32 - 1.
pub open spec fn blocks_remain(counter: Seq<u32>, blocks: int) -> bool {
    counter[0] + blocks <= 0x1_0000_0000
}

/// `counter` with its block counter moved on by `blocks` (modulo 2^32); the
/// nonce words stay.
pub open spec fn counter_advance(counter: Seq<u32>, blocks: int) -> Seq<u32> {
    counter.update(0, ((counter[0] + blocks) % 0x1_0000_0000) as u32)
}

/// Decodes the nonce and puts the block counter before it.
fn assemble(nonce: &[u8], counter: u32) -> (c: Counter)
    requires
        nonce@.len() == NONCE_LEN,
    ensures
        c@ == counter_words(nonce@, counter),
{
    let c: Counter = [
        counter,
        load_le(nonce[0], nonce[1], nonce[2], nonce[3]),
        load_le(nonce[4], nonce[5], nonce[6], nonce[7]),
        load_le(nonce[8], nonce[9], nonce[10], nonce[11]),
    ];
    assert(c@ =~= counter_words(nonce@, counter));
    c
}

/// Builds the counter for a nonce and a starting block counter.
pub fn make_counter(nonce: &[u8; NONCE_LEN], counter: u32) -> (c: Counter)
    ensures
        c@ == counter_words(nonce@, counter),
{
    assemble(nonce.as_slice(), counter)
}

/// Builds the counter for a nonce given as a slice, which must hold exactly
/// 12 bytes.
pub fn try_make_counter(nonce: &[u8], counter: u32) -> (r: Result<Counter, Error>)
    ensures
        match r {
            Ok(c) => nonce@.len() == NONCE_LEN && c@ == counter_words(nonce@, counter),
            Err(e) => nonce@.len() != NONCE_LEN && e == Error::InvalidNonceLength,
        },
{
    if nonce.len() != NONCE_LEN {
        return Err(Error::InvalidNonceLength);
    }
    Ok(assemble(nonce, counter))
}

/// The counter `blocks` blocks after `counter`, where the block counter
/// does not wrap on the way.
pub(crate) fn counter_at(counter: &Counter, blocks: u32) -> (c: Counter)
    requires
        counter[0] + blocks <= u32::MAX,
    ensures
        c@ == counter_advance(counter@, blocks as int),
{
    let c: Counter = [counter[0] + blocks, counter[1], counter[2], counter[3]];
    assert(c@ =~= counter_advance(counter@, blocks as int));
    c
}

/// The counter of the block `blocks` blocks after that of `counter`. It is
/// refused where the block counter would pass its largest value: a wrapped
/// counter would repeat keystream.
pub fn advance_counter(counter: &Counter, blocks: u32) -> (r: Result<Counter, Error>)
    ensures
        match r {
            Ok(c) => counter[0] + blocks <= u32::MAX && c@ == counter_advance(
                counter@,
                blocks as int,
            ),
            Err(e) => counter[0] + blocks > u32::MAX && e == Error::CounterOverflow,
        },
{
    if blocks > u32::MAX - counter[0] {
        return Err(Error::CounterOverflow);
    }
    Ok(counter_at(counter, blocks))
}

/// The counter of the next block.
pub fn next_counter(counter: &Counter) -> (r: Result<Counter, Error>)
    ensures
        match r {
            Ok(c) => counter[0] < u32::MAX && c@ == counter_advance(counter@, 1),
            Err(e) => counter[0] == u32::MAX && e == Error::CounterOverflow,
        },
{
    advance_counter(counter, 1)
}

} // verus!

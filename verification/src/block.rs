//! The block function: one 64-byte keystream block from a key and a counter.

use crate::counter::Counter;
use crate::key::Key;
use crate::word::{add32, byte_of, le_bytes, le_words, rotate_left, rotl32, wrapping_sum};
use vstd::prelude::*;

verus! {

/// Length of a keystream block in bytes.
pub const BLOCK_LEN: usize = 64;

/// Number of double rounds: twenty rounds in all.
pub const DOUBLE_ROUNDS: usize = 10;

/// The four constant words that open the state ("expand 32-byte k").
pub open spec fn sigma() -> Seq<u32> {
    seq![0x6170_7865u32, 0x3320_646eu32, 0x7962_2d32u32, 0x6b20_6574u32]
}

/// The quarter round on the words at `a`, `b`, `c`, `d` of a state: four
/// steps of add, XOR and rotate left, by 16, 12, 8 and 7 bits.
pub open spec fn quarter_round(s: Seq<u32>, a: int, b: int, c: int, d: int) -> Seq<u32> {
    let a1 = add32(s[a], s[b]);
    let d1 = rotl32(s[d] ^ a1, 16);
    let c1 = add32(s[c], d1);
    let b1 = rotl32(s[b] ^ c1, 12);
    let a2 = add32(a1, b1);
    let d2 = rotl32(d1 ^ a2, 8);
    let c2 = add32(c1, d2);
    let b2 = rotl32(b1 ^ c2, 7);
    s.update(a, a2).update(b, b2).update(c, c2).update(d, d2)
}

/// Quarter rounds down the four columns of the state.
pub open spec fn column_round(s: Seq<u32>) -> Seq<u32> {
    let s = quarter_round(s, 0, 4, 8, 12);
    let s = quarter_round(s, 1, 5, 9, 13);
    let s = quarter_round(s, 2, 6, 10, 14);
    quarter_round(s, 3, 7, 11, 15)
}

/// Quarter rounds along the four diagonals of the state.
pub open spec fn diagonal_round(s: Seq<u32>) -> Seq<u32> {
    let s = quarter_round(s, 0, 5, 10, 15);
    let s = quarter_round(s, 1, 6, 11, 12);
    let s = quarter_round(s, 2, 7, 8, 13);
    quarter_round(s, 3, 4, 9, 14)
}

/// A column round, then a diagonal round.
pub open spec fn double_round(s: Seq<u32>) -> Seq<u32> {
    diagonal_round(column_round(s))
}

/// `n` double rounds.
pub open spec fn double_rounds(s: Seq<u32>, n: nat) -> Seq<u32>
    decreases n,
{
    if n == 0 {
        s
    } else {
        double_round(double_rounds(s, (n - 1) as nat))
    }
}

/// The sixteen words that the rounds start from: the constants, the eight
/// key words, the block counter and the three nonce words.
pub open spec fn initial_state(key: Seq<u8>, counter: Seq<u32>) -> Seq<u32> {
    sigma() + le_words(key) + counter
}

/// The state after twenty rounds, with the initial state added back word by
/// word.
pub open spec fn block_words(key: Seq<u8>, counter: Seq<u32>) -> Seq<u32> {
    let start = initial_state(key, counter);
    let mixed = double_rounds(start, DOUBLE_ROUNDS as nat);
    Seq::new(16, |i: int| add32(mixed[i], start[i]))
}

/// The keystream block of `key` at `counter`: the sixteen words of
/// `block_words`, each laid out little-endian.
#[verifier::opaque]
pub open spec fn keystream_block(key: Seq<u8>, counter: Seq<u32>) -> Seq<u8> {
    le_bytes(block_words(key, counter))
}

/// One quarter round in place.
fn quarter_round_in_place(state: &mut [u32; 16], a: usize, b: usize, c: usize, d: usize)
    requires
        a < 16,
        b < 16,
        c < 16,
        d < 16,
        a != b,
        a != c,
        a != d,
        b != c,
        b != d,
        c != d,
    ensures
        final(state)@ == quarter_round(old(state)@, a as int, b as int, c as int, d as int),
{
    let mut wa: u32 = state[a];
    let mut wb: u32 = state[b];
    let mut wc: u32 = state[c];
    let mut wd: u32 = state[d];
    wa = wrapping_sum(wa, wb);
    wd = rotate_left(wd ^ wa, 16);
    wc = wrapping_sum(wc, wd);
    wb = rotate_left(wb ^ wc, 12);
    wa = wrapping_sum(wa, wb);
    wd = rotate_left(wd ^ wa, 8);
    wc = wrapping_sum(wc, wd);
    wb = rotate_left(wb ^ wc, 7);
    state[a] = wa;
    state[b] = wb;
    state[c] = wc;
    state[d] = wd;
}

/// One double round in place.
fn double_round_in_place(state: &mut [u32; 16])
    ensures
        final(state)@ == double_round(old(state)@),
{
    quarter_round_in_place(state, 0, 4, 8, 12);
    quarter_round_in_place(state, 1, 5, 9, 13);
    quarter_round_in_place(state, 2, 6, 10, 14);
    quarter_round_in_place(state, 3, 7, 11, 15);
    quarter_round_in_place(state, 0, 5, 10, 15);
    quarter_round_in_place(state, 1, 6, 11, 12);
    quarter_round_in_place(state, 2, 7, 8, 13);
    quarter_round_in_place(state, 3, 4, 9, 14);
}

/// Computes the keystream block of `key` at `counter`. The work is the same
/// fixed run of additions, XORs and rotations for every key and counter: no
/// branch and no index depends on their values.
pub fn chacha20_block(key: &Key, counter: &Counter) -> (block: [u8; BLOCK_LEN])
    ensures
        block@ == keystream_block(key@, counter@),
{
    let k = key.words();
    let start: [u32; 16] = [
        0x6170_7865u32,
        0x3320_646eu32,
        0x7962_2d32u32,
        0x6b20_6574u32,
        k[0],
        k[1],
        k[2],
        k[3],
        k[4],
        k[5],
        k[6],
        k[7],
        counter[0],
        counter[1],
        counter[2],
        counter[3],
    ];
    assert(start@ =~= initial_state(key@, counter@));
    let mut state: [u32; 16] = start;
    let mut round: usize = 0;
    while round < DOUBLE_ROUNDS
        invariant
            round <= DOUBLE_ROUNDS,
            state@ == double_rounds(start@, round as nat),
        decreases DOUBLE_ROUNDS - round,
    {
        double_round_in_place(&mut state);
        round += 1;
    }
    let mut block: [u8; BLOCK_LEN] = [0u8; BLOCK_LEN];
    let mut i: usize = 0;
    while i < 16
        invariant
            i <= 16,
            state@ == double_rounds(start@, DOUBLE_ROUNDS as nat),
            start@ == initial_state(key@, counter@),
            forall|j: int|
                0 <= j < 4 * i ==> block@[j] == le_bytes(block_words(key@, counter@))[j],
        decreases 16 - i,
    {
        let w: u32 = wrapping_sum(state[i], start[i]);
        block[4 * i] = byte_of(w, 0);
        block[4 * i + 1] = byte_of(w, 1);
        block[4 * i + 2] = byte_of(w, 2);
        block[4 * i + 3] = byte_of(w, 3);
        i += 1;
    }
    assert(block@ =~= keystream_block(key@, counter@)) by {
        reveal(keystream_block);
    }
    block
}

} // verus!

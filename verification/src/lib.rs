//! ChaCha20 in counter mode: a keystream derived from a 256-bit key, a 96-bit
//! nonce and a 32-bit block counter, XORed over byte buffers.

pub mod block;
pub mod counter;
pub mod engine;
pub mod error;
pub mod key;
pub mod keystream;
pub mod laws;
pub mod word;

pub use block::{chacha20_block, BLOCK_LEN};
pub use counter::{
    advance_counter, make_counter, next_counter, try_make_counter, Counter, NONCE_LEN,
};
pub use engine::{
    chacha20_keystream, chacha20_xor_in_place, chacha20_xor_inner, chacha20_xor_overlapping,
    chacha20_xor_within,
};
pub use error::Error;
pub use key::{Key, KEY_LEN};

//! The 256-bit key.

use crate::error::Error;
use crate::word::{le_bytes, le_words, lemma_le_bytes_of_words, lemma_le_words_of_bytes, load_le};
use vstd::prelude::*;

verus! {

/// Length of a key in bytes.
pub const KEY_LEN: usize = 32;

/// A ChaCha20 key: 32 bytes, held as the eight little-endian words that the
/// block function reads. It cannot be changed once made.
pub struct Key {
    words: [u32; 8],
}

impl View for Key {
    type V = Seq<u8>;

    /// The 32 key bytes.
    closed spec fn view(&self) -> Seq<u8> {
        le_bytes(self.words@)
    }
}

/// Decodes 32 bytes into eight words.
fn decode_words(bytes: &[u8]) -> (words: [u32; 8])
    requires
        bytes@.len() == KEY_LEN,
    ensures
        words@ == le_words(bytes@),
{
    let mut words: [u32; 8] = [0u32; 8];
    let mut i: usize = 0;
    while i < 8
        invariant
            i <= 8,
            bytes@.len() == KEY_LEN,
            forall|j: int| 0 <= j < i ==> words@[j] == le_words(bytes@)[j],
        decreases 8 - i,
    {
        words[i] = load_le(bytes[4 * i], bytes[4 * i + 1], bytes[4 * i + 2], bytes[4 * i + 3]);
        i += 1;
    }
    assert(words@ =~= le_words(bytes@));
    words
}

impl Key {
    /// Every key is 32 bytes long.
    pub proof fn lemma_len(&self)
        ensures
            self@.len() == KEY_LEN,
    {
    }

    /// Makes a key from a byte slice, which must hold exactly 32 bytes.
    pub fn from_slice(bytes: &[u8]) -> (r: Result<Key, Error>)
        ensures
            match r {
                Ok(key) => bytes@.len() == KEY_LEN && key@ == bytes@,
                Err(e) => bytes@.len() != KEY_LEN && e == Error::InvalidKeyLength,
            },
    {
        if bytes.len() != KEY_LEN {
            return Err(Error::InvalidKeyLength);
        }
        let key = Key { words: decode_words(bytes) };
        proof {
            lemma_holds(key, bytes@);
        }
        Ok(key)
    }

    /// The key as the eight words of the cipher state.
    pub(crate) fn words(&self) -> (words: &[u32; 8])
        ensures
            words@ == le_words(self@),
    {
        proof {
            lemma_le_words_of_bytes(self.words@);
        }
        &self.words
    }
}

/// The key that 32 bytes spell.
pub closed spec fn key_of(bytes: Seq<u8>) -> Key {
    Key {
        words: [
            le_words(bytes)[0],
            le_words(bytes)[1],
            le_words(bytes)[2],
            le_words(bytes)[3],
            le_words(bytes)[4],
            le_words(bytes)[5],
            le_words(bytes)[6],
            le_words(bytes)[7],
        ],
    }
}

/// The key that 32 bytes spell holds those bytes.
pub proof fn lemma_key_of(bytes: Seq<u8>)
    requires
        bytes.len() == KEY_LEN,
    ensures
        key_of(bytes)@ == bytes,
{
    let key = key_of(bytes);
    assert(key.words@ =~= le_words(bytes));
    lemma_holds(key, bytes);
}

/// A key whose words are those of `bytes` holds `bytes`.
proof fn lemma_holds(key: Key, bytes: Seq<u8>)
    requires
        bytes.len() == KEY_LEN,
        key.words@ == le_words(bytes),
    ensures
        key@ == bytes,
{
    lemma_le_bytes_of_words(bytes);
}

/// A key whose words are those of `bytes` is the key that `bytes` spell.
proof fn lemma_spells(key: Key, bytes: Seq<u8>)
    requires
        key.words@ == le_words(bytes),
    ensures
        key == key_of(bytes),
{
    let spelled = key_of(bytes).words;
    assert(key.words =~= spelled);
}

impl vstd::std_specs::convert::FromSpecImpl<&[u8; KEY_LEN]> for Key {
    open spec fn obeys_from_spec() -> bool {
        true
    }

    open spec fn from_spec(v: &[u8; KEY_LEN]) -> Key {
        key_of(v@)
    }
}

impl From<&[u8; KEY_LEN]> for Key {
    /// Makes a key from its 32 bytes.
    fn from(value: &[u8; KEY_LEN]) -> (key: Key)
        ensures
            key@ == value@,
    {
        let key = Key { words: decode_words(value.as_slice()) };
        proof {
            lemma_spells(key, value@);
            lemma_holds(key, value@);
        }
        key
    }
}

} // verus!

//! Published keystream blocks and ciphertexts.

use chacha20::{
    chacha20_block, chacha20_keystream, chacha20_xor_in_place, chacha20_xor_inner, make_counter,
    Key,
};

fn hex(text: &str) -> Vec<u8> {
    let digits: Vec<u8> = text.chars().map(|c| c.to_digit(16).unwrap() as u8).collect();
    digits.chunks(2).map(|pair| pair[0] * 16 + pair[1]).collect()
}

const ZERO_KEY_BLOCK_0: &str = "76b8e0ada0f13d90405d6ae55386bd28bdd219b8a08ded1aa836efcc8b770dc7\
                                da41597c5157488d7724e03fb8d84a376a43b8f41518a11cc387b669b2ee6586";

const ZERO_KEY_BLOCK_1: &str = "9f07e7be5551387a98ba977c732d080dcb0f29a048e3656912c6533e32ee7aed\
                                29b721769ce64e43d57133b074d839d531ed1f28510afb45ace10a1f4b794d6f";

fn counting_key() -> Key {
    let mut bytes = [0u8; 32];
    for (i, b) in bytes.iter_mut().enumerate() {
        *b = i as u8;
    }
    Key::from(&bytes)
}

#[test]
fn zero_key_zero_input_gives_the_first_keystream_block() {
    let key = Key::from(&[0u8; 32]);
    let counter = make_counter(&[0u8; 12], 0);
    let input = [0u8; 64];
    let mut output = [0xaau8; 64];
    assert_eq!(chacha20_xor_inner(&key, &counter, &input, &mut output), Ok(()));
    assert_eq!(output.to_vec(), hex(ZERO_KEY_BLOCK_0));

    let mut in_place = [0u8; 64];
    assert_eq!(chacha20_xor_in_place(&key, &counter, &mut in_place), Ok(()));
    assert_eq!(in_place.to_vec(), hex(ZERO_KEY_BLOCK_0));
}

#[test]
fn seventy_bytes_take_six_bytes_of_the_second_block() {
    let key = Key::from(&[0u8; 32]);
    let counter = make_counter(&[0u8; 12], 0);
    let mut input = [0u8; 70];
    for (i, b) in input.iter_mut().enumerate() {
        *b = (3 * i + 1) as u8;
    }
    let mut output = [0u8; 70];
    assert_eq!(chacha20_xor_inner(&key, &counter, &input, &mut output), Ok(()));

    let first = hex(ZERO_KEY_BLOCK_0);
    let second = hex(ZERO_KEY_BLOCK_1);
    for i in 0..64usize {
        assert_eq!(output[i], input[i] ^ first[i]);
    }
    for i in 0..6usize {
        assert_eq!(output[64 + i], input[64 + i] ^ second[i]);
    }
}

#[test]
fn block_function_matches_the_published_block() {
    let key = counting_key();
    let nonce: [u8; 12] = [0, 0, 0, 9, 0, 0, 0, 0x4a, 0, 0, 0, 0];
    let counter = make_counter(&nonce, 1);
    let block = chacha20_block(&key, &counter);
    assert_eq!(
        block.to_vec(),
        hex(
            "10f1e7e4d13b5915500fdd1fa32071c4c7d1f4c733c068030422aa9ac3d46c4e\
             d2826446079faa0914c2d705d98b02a2b5129cd1de164eb9cbd083e8a2503c4e"
        )
    );
}

#[test]
fn block_function_of_the_zero_key() {
    let key = Key::from(&[0u8; 32]);
    assert_eq!(
        chacha20_block(&key, &make_counter(&[0u8; 12], 0)).to_vec(),
        hex(ZERO_KEY_BLOCK_0)
    );
    assert_eq!(
        chacha20_block(&key, &make_counter(&[0u8; 12], 1)).to_vec(),
        hex(ZERO_KEY_BLOCK_1)
    );
}

#[test]
fn published_ciphertext() {
    let key = counting_key();
    let nonce: [u8; 12] = [0, 0, 0, 0, 0, 0, 0, 0x4a, 0, 0, 0, 0];
    let counter = make_counter(&nonce, 1);
    let mut text = b"Ladies and Gentlemen of the class of '99: If I could offer you only one \
                     tip for the future, sunscreen would be it."
        .to_vec();
    assert_eq!(text.len(), 114);
    assert_eq!(chacha20_xor_in_place(&key, &counter, &mut text), Ok(()));
    assert_eq!(
        text,
        hex(
            "6e2e359a2568f98041ba0728dd0d6981e97e7aec1d4360c20a27afccfd9fae0b\
             f91b65c5524733ab8f593dabcd62b3571639d624e65152ab8f530c359f0861d8\
             07ca0dbf500d6a6156a38e088a22b65e52bc514d16ccf806818ce91ab7793736\
             5af90bbf74a35be6b40b8eedf2785e42874d"
        )
    );
}

#[test]
fn keystream_runs_over_successive_blocks() {
    let key = Key::from(&[0u8; 32]);
    let counter = make_counter(&[0u8; 12], 0);
    let mut out = [0x55u8; 100];
    assert_eq!(chacha20_keystream(&key, &counter, &mut out), Ok(()));
    let mut expected = hex(ZERO_KEY_BLOCK_0);
    expected.extend_from_slice(&hex(ZERO_KEY_BLOCK_1)[..36]);
    assert_eq!(out.to_vec(), expected);
}

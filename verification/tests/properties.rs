//! What holds of every call, tried on chosen values.

use chacha20::{
    advance_counter, chacha20_keystream, chacha20_xor_in_place, chacha20_xor_inner,
    chacha20_xor_overlapping, chacha20_xor_within, make_counter, next_counter, Counter, Key,
};

fn some_key() -> Key {
    let mut bytes = [0u8; 32];
    for (i, b) in bytes.iter_mut().enumerate() {
        *b = (7 * i + 3) as u8;
    }
    Key::from(&bytes)
}

fn some_counter() -> Counter {
    make_counter(&[1, 2, 3, 4, 5, 6, 7, 8, 9, 10, 11, 12], 5)
}

fn some_input(len: usize) -> Vec<u8> {
    (0..len).map(|i| (i * i + 11 * i + 5) as u8).collect()
}

fn apart(key: &Key, counter: &Counter, input: &[u8]) -> Vec<u8> {
    let mut output = vec![0u8; input.len()];
    assert_eq!(chacha20_xor_inner(key, counter, input, &mut output), Ok(()));
    output
}

#[test]
fn same_arguments_same_output() {
    let input = some_input(300);
    let first = apart(&some_key(), &some_counter(), &input);
    let second = apart(&some_key(), &some_counter(), &input);
    assert_eq!(first, second);
    assert_ne!(first, input);
}

#[test]
fn second_pass_gives_the_input_back() {
    let key = some_key();
    let counter = some_counter();
    for len in [0usize, 1, 63, 64, 65, 128, 200] {
        let input = some_input(len);
        let once = apart(&key, &counter, &input);
        let twice = apart(&key, &counter, &once);
        assert_eq!(twice, input);

        let mut in_place = input.clone();
        assert_eq!(chacha20_xor_in_place(&key, &counter, &mut in_place), Ok(()));
        assert_eq!(in_place, once);
        assert_eq!(chacha20_xor_in_place(&key, &counter, &mut in_place), Ok(()));
        assert_eq!(in_place, input);
    }
}

#[test]
fn output_of_a_prefix_is_a_prefix_of_the_output() {
    let key = some_key();
    let counter = some_counter();
    let input = some_input(200);
    let whole = apart(&key, &counter, &input);
    for p in 0..201usize {
        assert_eq!(apart(&key, &counter, &input[..p]), &whole[..p]);
    }
}

#[test]
fn any_overlap_gives_the_output_of_buffers_apart() {
    let key = some_key();
    let counter = some_counter();
    for len in [0usize, 1, 17, 64, 65, 130, 200] {
        let input = some_input(len);
        let expected = apart(&key, &counter, &input);
        let total: usize = len + 210;
        for (src, dst) in [
            (0usize, 0usize),
            (5, 5),
            (1, 0),
            (0, 1),
            (63, 0),
            (0, 63),
            (64, 0),
            (0, 64),
            (65, 3),
            (3, 65),
            (100, 0),
            (0, 100),
            (200, 7),
            (7, 200),
            (len, 0),
            (0, len),
            (210, 0),
            (0, 210),
        ] {
            let mut buf = vec![0xc3u8; total];
            buf[src..src + len].copy_from_slice(&input);
            let before = buf.clone();
            assert_eq!(chacha20_xor_within(&key, &counter, &mut buf, src, dst, len), Ok(()));
            assert_eq!(&buf[dst..dst + len], &expected[..], "src {} dst {} len {}", src, dst, len);
            assert_eq!(&buf[..dst], &before[..dst]);
            assert_eq!(&buf[dst + len..], &before[dst + len..]);
        }
    }
}

#[test]
fn every_offset_behind_and_ahead() {
    let key = some_key();
    let counter = some_counter();
    let len: usize = 150;
    let input = some_input(len);
    let expected = apart(&key, &counter, &input);
    for offset in 0..(len + 1) {
        let mut ahead = vec![0u8; len + offset];
        ahead[offset..].copy_from_slice(&input);
        assert_eq!(chacha20_xor_within(&key, &counter, &mut ahead, offset, 0, len), Ok(()));
        assert_eq!(&ahead[..len], &expected[..]);

        let mut behind = vec![0u8; len + offset];
        behind[..len].copy_from_slice(&input);
        assert_eq!(chacha20_xor_within(&key, &counter, &mut behind, 0, offset, len), Ok(()));
        assert_eq!(&behind[offset..], &expected[..]);
    }
}

#[test]
fn overlapping_keeps_the_tail() {
    let key = some_key();
    let counter = some_counter();
    let input = some_input(100);
    let expected = apart(&key, &counter, &input);
    let mut buf = vec![0x11u8; 130];
    buf[30..].copy_from_slice(&input);
    let before = buf.clone();
    assert_eq!(chacha20_xor_overlapping(&key, &counter, &mut buf, 30), Ok(()));
    assert_eq!(&buf[..100], &expected[..]);
    assert_eq!(&buf[100..], &before[100..]);

    let mut all_prefix = vec![0x22u8; 40];
    assert_eq!(chacha20_xor_overlapping(&key, &counter, &mut all_prefix, 40), Ok(()));
    assert_eq!(all_prefix, vec![0x22u8; 40]);
}

#[test]
fn split_at_a_block_boundary() {
    let key = some_key();
    let counter = some_counter();
    let input = some_input(300);
    let whole = apart(&key, &counter, &input);
    for blocks in 0..5u32 {
        let cut: usize = 64 * blocks as usize;
        let later = advance_counter(&counter, blocks).unwrap();
        assert_eq!(later, [5 + blocks, counter[1], counter[2], counter[3]]);
        let mut joined = apart(&key, &counter, &input[..cut]);
        joined.extend_from_slice(&apart(&key, &later, &input[cut..]));
        assert_eq!(joined, whole);
    }
}

#[test]
fn split_off_a_block_boundary_differs() {
    let key = some_key();
    let counter = some_counter();
    let input = some_input(128);
    let whole = apart(&key, &counter, &input);
    let later = next_counter(&counter).unwrap();
    let mut joined = apart(&key, &counter, &input[..63]);
    joined.extend_from_slice(&apart(&key, &later, &input[63..]));
    assert_ne!(joined, whole);
}

#[test]
fn zeros_give_the_keystream() {
    let key = some_key();
    let counter = some_counter();
    let mut stream = vec![0x77u8; 150];
    assert_eq!(chacha20_keystream(&key, &counter, &mut stream), Ok(()));
    assert_eq!(apart(&key, &counter, &vec![0u8; 150]), stream);
    let input = some_input(150);
    let output = apart(&key, &counter, &input);
    for i in 0..150usize {
        assert_eq!(output[i], input[i] ^ stream[i]);
    }
}

#[test]
fn counter_is_the_block_counter_and_the_nonce_words() {
    let nonce: [u8; 12] = [0, 0, 0, 9, 0, 0, 0, 0x4a, 0x78, 0x56, 0x34, 0x12];
    assert_eq!(make_counter(&nonce, 1), [1, 0x0900_0000, 0x4a00_0000, 0x1234_5678]);
    assert_eq!(make_counter(&[0xff; 12], 0xdead_beef), [0xdead_beef, !0, !0, !0]);
}

#[test]
fn next_counter_adds_one_to_the_block_counter() {
    let counter: Counter = [41, 7, 8, 9];
    assert_eq!(next_counter(&counter), Ok([42, 7, 8, 9]));
    assert_eq!(next_counter(&[0xffff_fffe, 7, 8, 9]), Ok([0xffff_ffff, 7, 8, 9]));
    assert_eq!(advance_counter(&counter, 0), Ok(counter));
    assert_eq!(advance_counter(&counter, 0xffff_ffff - 41), Ok([0xffff_ffff, 7, 8, 9]));
}

#[test]
fn key_bytes_are_read_as_little_endian_words() {
    // With a key of one set byte, the keystream differs from that of the
    // zero key and from that of the same byte set elsewhere in its word.
    let counter = make_counter(&[0u8; 12], 0);
    let mut low = [0u8; 32];
    low[0] = 1;
    let mut high = [0u8; 32];
    high[3] = 1;
    let zero = apart(&Key::from(&[0u8; 32]), &counter, &[0u8; 64]);
    let from_low = apart(&Key::from(&low), &counter, &[0u8; 64]);
    let from_high = apart(&Key::from(&high), &counter, &[0u8; 64]);
    assert_ne!(zero, from_low);
    assert_ne!(zero, from_high);
    assert_ne!(from_low, from_high);
    assert_eq!(apart(&Key::from_slice(&low).unwrap(), &counter, &[0u8; 64]), from_low);
}

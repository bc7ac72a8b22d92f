//! End-to-end checks of the compression driver against an independent
//! oracle that computes SHA-512 compression restricted to the 16
//! implemented rounds. A standard SHA-512 library cannot serve here:
//! it runs all 80 rounds, while this gadget deliberately stops at 16.

use sha512_circuit::compress::{
    extract_digest, initial_state_words, process_padded, sha512_digest, H512_512, K64,
};
use sha512_circuit::padding::{array_to_bits, pad_message};
use sha512_circuit::word::{word_from_u64, Word64};

fn word_value(w: &Word64) -> u64 {
    ((w.high as u64) << 32) | (w.low as u64)
}

const ORACLE_K: [u64; 16] = [
    0x428a2f98d728ae22,
    0x7137449123ef65cd,
    0xb5c0fbcfec4d3b2f,
    0xe9b5dba58189dbbc,
    0x3956c25bf348b538,
    0x59f111f1b605d019,
    0x923f82a4af194f9b,
    0xab1c5ed5da6d8118,
    0xd807aa98a3030242,
    0x12835b0145706fbe,
    0x243185be4ee4b28c,
    0x550c7dc3d5ffb4e2,
    0x72be5d74f27b896f,
    0x80deb1fe3b1696b1,
    0x9bdc06a725c71235,
    0xc19bf174cf692694,
];

/// One block of SHA-512 compression, restricted to the 16 direct
/// message-schedule words, on native 64-bit arithmetic.
fn oracle_compress_block(state: &mut [u64; 8], w: &[u64; 16]) {
    let mut a = state[0];
    let mut b = state[1];
    let mut c = state[2];
    let mut d = state[3];
    let mut e = state[4];
    let mut f = state[5];
    let mut g = state[6];
    let mut h = state[7];
    for i in 0..16 {
        let s1 = e.rotate_right(14) ^ e.rotate_right(18) ^ e.rotate_right(41);
        let t1 = h
            .wrapping_add(s1)
            .wrapping_add(ORACLE_K[i])
            .wrapping_add(w[i]);
        let t2 = a.rotate_right(28) ^ a.rotate_right(34) ^ a.rotate_right(39);
        h = g;
        g = f;
        f = e;
        e = d.wrapping_add(t1);
        d = c;
        c = b;
        b = a;
        a = t1.wrapping_add(t2);
    }
    state[0] = state[0].wrapping_add(a);
    state[1] = state[1].wrapping_add(b);
    state[2] = state[2].wrapping_add(c);
    state[3] = state[3].wrapping_add(d);
    state[4] = state[4].wrapping_add(e);
    state[5] = state[5].wrapping_add(f);
    state[6] = state[6].wrapping_add(g);
    state[7] = state[7].wrapping_add(h);
}

fn words_of_block(padded: &[bool], block: usize) -> [u64; 16] {
    let mut w = [0u64; 16];
    for i in 0..16 {
        let mut v = 0u64;
        for j in 0..64 {
            v = (v << 1) | (padded[block * 1024 + i * 64 + j] as u64);
        }
        w[i] = v;
    }
    w
}

fn oracle_digest_bits(msg_bits: &[bool]) -> Vec<bool> {
    // Oracle padding, built independently of the library.
    let len = msg_bits.len();
    let block_count = (len + 129 + 1023) / 1024;
    let padded_len = 1024 * block_count;
    let p = padded_len - 128 - len;
    assert!(p > 1);
    let mut padded = msg_bits.to_vec();
    padded.push(true);
    for _ in 0..p - 1 {
        padded.push(false);
    }
    for i in 0..128 {
        padded.push((len as u128 >> (127 - i)) & 1 == 1);
    }
    let mut state = H512_512;
    for blk in 0..block_count {
        let w = words_of_block(&padded, blk);
        oracle_compress_block(&mut state, &w);
    }
    let mut digest = Vec::new();
    for k in 0..8 {
        for i in 0..64 {
            digest.push((state[k] >> (63 - i)) & 1 == 1);
        }
    }
    digest
}

#[test]
fn test_constant_tables() {
    assert_eq!(H512_512[0], 0x6a09e667f3bcc908);
    assert_eq!(H512_512[7], 0x5be0cd19137e2179);
    assert_eq!(K64[0], 0x428a2f98d728ae22);
    assert_eq!(K64[15], 0xc19bf174cf692694);
    assert_eq!(K64[79], 0x6c44198c4a475817);
    for i in 0..16 {
        assert_eq!(K64[i], ORACLE_K[i]);
    }
}

#[test]
fn test_initial_state_words() {
    let st = initial_state_words();
    assert_eq!(st.len(), 8);
    for i in 0..8 {
        assert_eq!(word_value(&st[i]), H512_512[i]);
    }
}

#[test]
fn test_sixteen_byte_message_against_oracle() {
    // message = 16 bytes {0x00, ..., 0x0F}: one block, the 16
    // implemented rounds only.
    let mut bytes = Vec::new();
    for i in 0..16u8 {
        bytes.push(i);
    }
    let msg_bits = array_to_bits(&bytes);
    assert_eq!(msg_bits.len(), 128);
    let digest = sha512_digest(&msg_bits).expect("one-block construction must succeed");
    assert_eq!(digest.len(), 512);
    let expected = oracle_digest_bits(&msg_bits);
    assert_eq!(digest, expected);
}

#[test]
fn test_sixteen_byte_message_state_words() {
    let mut bytes = Vec::new();
    for i in 0..16u8 {
        bytes.push(i);
    }
    let msg_bits = array_to_bits(&bytes);
    let padded = pad_message(&msg_bits).expect("padding must succeed");
    assert_eq!(padded.len(), 1024);
    let state = process_padded(&padded);
    let w = words_of_block(&padded, 0);
    assert_eq!(w[0], 0x0001020304050607);
    assert_eq!(w[1], 0x08090a0b0c0d0e0f);
    assert_eq!(w[2], 1u64 << 63);
    assert_eq!(w[15], 128);
    let mut oracle_state = H512_512;
    oracle_compress_block(&mut oracle_state, &w);
    for k in 0..8 {
        assert_eq!(word_value(&state[k]), oracle_state[k]);
    }
    let digest = extract_digest(&state);
    assert_eq!(digest.len(), 512);
    for i in 0..64 {
        assert_eq!(digest[i], (oracle_state[0] >> (63 - i)) & 1 == 1);
    }
}

#[test]
fn test_empty_message_against_oracle() {
    let msg_bits: Vec<bool> = Vec::new();
    let digest = sha512_digest(&msg_bits).expect("empty message must succeed");
    assert_eq!(digest, oracle_digest_bits(&msg_bits));
}

#[test]
fn test_two_block_message_against_oracle() {
    // 128 bytes: 1024 message bits need a second block for the padding.
    let mut bytes = vec![0u8; 128];
    for i in 0..127 {
        bytes[i] = i as u8;
    }
    let msg_bits = array_to_bits(&bytes);
    assert_eq!(msg_bits.len(), 1024);
    let digest = sha512_digest(&msg_bits).expect("two-block construction must succeed");
    assert_eq!(digest, oracle_digest_bits(&msg_bits));
}

#[test]
fn test_construction_error_end_to_end() {
    let msg_bits = vec![false; 895];
    assert!(sha512_digest(&msg_bits).is_err());
}

use sha512_circuit::word::{add_word, bits_to_word, word_from_u64, word_to_bits, Word64};

fn word_value(w: &Word64) -> u64 {
    ((w.high as u64) << 32) | (w.low as u64)
}

fn bits_of_u64(x: u64) -> Vec<bool> {
    let mut out = Vec::new();
    for i in 0..64 {
        out.push((x >> (63 - i)) & 1 == 1);
    }
    out
}

#[test]
fn test_word_from_u64_limbs() {
    let w = word_from_u64(0x0123_4567_89AB_CDEF);
    assert_eq!(w.high, 0x0123_4567);
    assert_eq!(w.low, 0x89AB_CDEF);
}

#[test]
fn test_word_to_bits_order() {
    // Bit 0 of the output is the most significant bit of the high limb.
    let w = Word64 { high: 0x8000_0000, low: 0x0000_0001 };
    let bits = word_to_bits(&w);
    assert_eq!(bits.len(), 64);
    assert!(bits[0]);
    assert!(bits[63]);
    for i in 1..63 {
        assert!(!bits[i]);
    }
}

#[test]
fn test_round_trip_word_to_bits_to_word() {
    let samples: [u64; 6] = [
        0,
        1,
        u64::MAX,
        0x0123_4567_89AB_CDEF,
        0x8000_0000_0000_0001,
        0x6a09_e667_f3bc_c908,
    ];
    for &x in samples.iter() {
        let w = word_from_u64(x);
        let bits = word_to_bits(&w);
        let w2 = bits_to_word(&bits);
        assert_eq!(w2.high, w.high);
        assert_eq!(w2.low, w.low);
        assert_eq!(word_value(&w2), x);
    }
}

#[test]
fn test_round_trip_bits_to_word_to_bits() {
    let samples: [u64; 4] = [0, u64::MAX, 0xDEAD_BEEF_0BAD_F00D, 0x0000_0001_8000_0000];
    for &x in samples.iter() {
        let bits = bits_of_u64(x);
        let w = bits_to_word(&bits);
        let bits2 = word_to_bits(&w);
        assert_eq!(bits2, bits);
    }
}

#[test]
fn test_add_word_plain() {
    let a = word_from_u64(3);
    let b = word_from_u64(4);
    assert_eq!(word_value(&add_word(&a, &b)), 7);
}

#[test]
fn test_add_word_carry_between_limbs() {
    let a = word_from_u64(0x0000_0000_FFFF_FFFF);
    let b = word_from_u64(1);
    let r = add_word(&a, &b);
    assert_eq!(r.high, 1);
    assert_eq!(r.low, 0);
}

#[test]
fn test_add_word_wraps_around() {
    let a = word_from_u64(u64::MAX);
    let b = word_from_u64(2);
    assert_eq!(word_value(&add_word(&a, &b)), 1);
}

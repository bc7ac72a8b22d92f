//! The round-function gadget: three-way XOR written as the exact field
//! polynomial, right rotation as a re-indexing of wires, and the two
//! big-sigma functions assembled bit-position-wise from both.

use vstd::prelude::*;

use crate::bits::{bit64, u64_bits};
use crate::word::{bits_to_word, lemma_word_of_u64_bits, word_to_bits, word_val, Word64};

verus! {

/// Index map of a right rotation by `y` over a 64-bit word in big-endian
/// bit order: output position `i` reads input position `(i + 64 - y) % 64`.
pub fn rotate64(y: usize) -> (r: Vec<usize>)
    requires
        y < 64,
    ensures
        r@.len() == 64,
        forall|i: int| 0 <= i < 64 ==> r@[i] as int == (i + 64 - y) % 64,
{
    let mut res: Vec<usize> = Vec::new();
    for i in (64 - y)..64
        invariant
            y < 64,
            res@.len() == i - (64 - y),
            forall|j: int| 0 <= j < res@.len() ==> res@[j] as int == 64 - y + j,
    {
        res.push(i);
    }
    for i in 0..(64 - y)
        invariant
            y < 64,
            res@.len() == y + i,
            forall|j: int| 0 <= j < y ==> res@[j] as int == 64 - y + j,
            forall|j: int| y <= j < res@.len() ==> res@[j] as int == j - y,
    {
        res.push(i);
    }
    assert forall|i: int| 0 <= i < 64 implies res@[i] as int == (i + 64 - y) % 64 by {
        if i < y {
            assert((i + 64 - y) % 64 == i + 64 - y);
        } else {
            assert((i + 64 - y) % 64 == i - y);
        }
    }
    res
}

/// Right rotation of a 64-bit value by `y` positions.
pub open spec fn rotr64(x: u64, y: u64) -> u64
    recommends
        1 <= y < 64,
{
    (x >> y) | (x << ((64 - y) as u64))
}

/// Right rotation of a 64-bit big-endian bit string: output position `i`
/// reads input position `(i + 64 - y) % 64`.
pub open spec fn rotr_bits(s: Seq<bool>, y: int) -> Seq<bool>
    recommends
        s.len() == 64,
        0 <= y <= 64,
{
    Seq::new(64, |i: int| s[(i + 64 - y) % 64])
}

/// Bit `i` of a rotated value is the input's bit at the rotated position.
pub proof fn lemma_rotr64_bit(x: u64, y: u64, i: u64)
    requires
        1 <= y < 64,
        i < 64,
    ensures
        bit64(rotr64(x, y), i as int) == bit64(x, (i + 64 - y) % 64),
{
    let j: u64 = ((i + 64 - y) % 64) as u64;
    let sh_o: u64 = (63 - i) as u64;
    let sh_i: u64 = (63 - j) as u64;
    assert((rotr64(x, y) >> sh_o) & 1 == 1 <==> (x >> sh_i) & 1 == 1) by (bit_vector)
        requires
            1 <= y < 64,
            i < 64,
            j == ((i + 64 - y) % 64) as u64,
            sh_o == (63 - i) as u64,
            sh_i == (63 - j) as u64,
    ;
}

/// Re-indexing by the rotation map is the value-level right rotation.
pub proof fn lemma_rotr_bits_is_rotr64(x: u64, y: u64)
    requires
        1 <= y < 64,
    ensures
        rotr_bits(u64_bits(x), y as int) == u64_bits(rotr64(x, y)),
{
    assert forall|i: int| 0 <= i < 64 implies rotr_bits(u64_bits(x), y as int)[i] == u64_bits(
        rotr64(x, y),
    )[i] by {
        lemma_rotr64_bit(x, y, i as u64);
    }
    assert(rotr_bits(u64_bits(x), y as int) =~= u64_bits(rotr64(x, y)));
}

/// Rotating right by `y` and then by `64 - y` restores every bit.
pub proof fn lemma_rotate_right_composition(s: Seq<bool>, y: int)
    requires
        s.len() == 64,
        0 <= y < 64,
    ensures
        rotr_bits(rotr_bits(s, y), 64 - y) == s,
{
    let r1 = rotr_bits(s, y);
    assert forall|i: int| 0 <= i < 64 implies rotr_bits(r1, 64 - y)[i] == s[i] by {
        let m = (i + 64 - (64 - y)) % 64;
        if i + y < 64 {
            assert(m == i + y);
            assert((m + 64 - y) % 64 == i);
        } else {
            assert(m == i + y - 64);
            assert((m + 64 - y) % 64 == i);
        }
    }
    assert(rotr_bits(rotr_bits(s, y), 64 - y) =~= s);
}

/// The value-level form of the rotation composition law.
pub proof fn lemma_rotr64_composition(x: u64, y: u64)
    requires
        1 <= y < 64,
    ensures
        rotr64(rotr64(x, y), (64 - y) as u64) == x,
{
    assert(rotr64(rotr64(x, y), (64 - y) as u64) == x) by (bit_vector)
        requires
            1 <= y < 64,
    ;
}

/// XOR distributes to each bit position.
pub proof fn lemma_xor3_bit64(a: u64, b: u64, c: u64, i: u64)
    requires
        i < 64,
    ensures
        bit64(a ^ b ^ c, i as int) == ((bit64(a, i as int) ^ bit64(b, i as int)) ^ bit64(
            c,
            i as int,
        )),
{
    let sh: u64 = (63 - i) as u64;
    let ba: bool = (a >> sh) & 1 == 1;
    let bb: bool = (b >> sh) & 1 == 1;
    let bc: bool = (c >> sh) & 1 == 1;
    assert(((a ^ b ^ c) >> sh) & 1 == 1 <==> (ba ^ bb) ^ bc) by (bit_vector)
        requires
            ba == ((a >> sh) & 1 == 1),
            bb == ((b >> sh) & 1 == 1),
            bc == ((c >> sh) & 1 == 1),
    ;
}

/// Three-way XOR of boolean wires, written as the exact field polynomial
/// `a·(1 − 2b − 2c + 4m) + b + c − 2m` with `m = b·c`. The polynomial uses
/// only additions, subtractions and two multiplications, which is what
/// keeps the constraint count down; it equals `a ⊕ b ⊕ c` exactly when
/// `a`, `b`, `c` lie in `{0, 1}`.
pub fn xor3(a: i64, b: i64, c: i64) -> (r: i64)
    requires
        a == 0 || a == 1,
        b == 0 || b == 1,
        c == 0 || c == 1,
    ensures
        r == 0 || r == 1,
        (r == 1) == (((a == 1) ^ (b == 1)) ^ (c == 1)),
{
    proof {
        if b == 0 {
            assert(b * c == 0);
        } else {
            assert(b * c == c);
        }
    }
    let m = b * c;
    let two_b = b + b;
    let two_c = c + c;
    let two_m = m + m;
    let four_m = two_m + two_m;
    let one: i64 = 1;
    let one_minus_two_b = one - two_b;
    let one_minus_two_b_minus_two_c = one_minus_two_b - two_c;
    let one_minus_two_b_minus_two_c_add_four_m = one_minus_two_b_minus_two_c + four_m;
    proof {
        if a == 0 {
            assert(a * one_minus_two_b_minus_two_c_add_four_m == 0);
        } else {
            assert(a * one_minus_two_b_minus_two_c_add_four_m
                == one_minus_two_b_minus_two_c_add_four_m);
        }
    }
    let mut res = a * one_minus_two_b_minus_two_c_add_four_m;
    res = res + b;
    res = res + c;
    res - two_m
}

/// Three-way XOR on bit values, routed through the `xor3` polynomial on
/// the `{0, 1}` encoding of each bit.
pub fn xor3_bits(a: bool, b: bool, c: bool) -> (r: bool)
    ensures
        r == ((a ^ b) ^ c),
{
    let x = xor3(
        if a {
            1
        } else {
            0
        },
        if b {
            1
        } else {
            0
        },
        if c {
            1
        } else {
            0
        },
    );
    x == 1
}

/// `Σ0(x) = rotr(x,28) ⊕ rotr(x,34) ⊕ rotr(x,39)`.
pub open spec fn big_sigma0_spec(x: u64) -> u64 {
    rotr64(x, 28) ^ rotr64(x, 34) ^ rotr64(x, 39)
}

/// `Σ1(x) = rotr(x,14) ⊕ rotr(x,18) ⊕ rotr(x,41)`.
pub open spec fn big_sigma1_spec(x: u64) -> u64 {
    rotr64(x, 14) ^ rotr64(x, 18) ^ rotr64(x, 41)
}

/// `Σ0`, built bit-position-wise: each output bit is the three-way XOR of
/// the input bits at the three rotated positions, then repacked to a word.
pub fn big_sigma0(a: &Word64) -> (r: Word64)
    ensures
        word_val(r) == big_sigma0_spec(word_val(*a)),
{
    let a_bits = word_to_bits(a);
    let rotate28 = rotate64(28);
    let rotate34 = rotate64(34);
    let rotate39 = rotate64(39);
    let ghost v = word_val(*a);
    let mut res_bits: Vec<bool> = Vec::new();
    for i in 0..64
        invariant
            a_bits@ == u64_bits(v),
            rotate28@.len() == 64,
            rotate34@.len() == 64,
            rotate39@.len() == 64,
            forall|j: int| 0 <= j < 64 ==> rotate28@[j] as int == (j + 64 - 28) % 64,
            forall|j: int| 0 <= j < 64 ==> rotate34@[j] as int == (j + 64 - 34) % 64,
            forall|j: int| 0 <= j < 64 ==> rotate39@[j] as int == (j + 64 - 39) % 64,
            res_bits@.len() == i,
            forall|j: int| 0 <= j < i ==> res_bits@[j] == bit64(big_sigma0_spec(v), j),
    {
        let x = xor3_bits(a_bits[rotate28[i]], a_bits[rotate34[i]], a_bits[rotate39[i]]);
        proof {
            lemma_rotr64_bit(v, 28, i as u64);
            lemma_rotr64_bit(v, 34, i as u64);
            lemma_rotr64_bit(v, 39, i as u64);
            lemma_xor3_bit64(rotr64(v, 28), rotr64(v, 34), rotr64(v, 39), i as u64);
        }
        res_bits.push(x);
    }
    let r = bits_to_word(&res_bits);
    proof {
        assert(res_bits@ =~= u64_bits(big_sigma0_spec(v)));
        lemma_word_of_u64_bits(big_sigma0_spec(v));
    }
    r
}

/// `Σ1`, built bit-position-wise exactly as `Σ0` with its own rotations.
pub fn big_sigma1(a: &Word64) -> (r: Word64)
    ensures
        word_val(r) == big_sigma1_spec(word_val(*a)),
{
    let a_bits = word_to_bits(a);
    let rotate14 = rotate64(14);
    let rotate18 = rotate64(18);
    let rotate41 = rotate64(41);
    let ghost v = word_val(*a);
    let mut res_bits: Vec<bool> = Vec::new();
    for i in 0..64
        invariant
            a_bits@ == u64_bits(v),
            rotate14@.len() == 64,
            rotate18@.len() == 64,
            rotate41@.len() == 64,
            forall|j: int| 0 <= j < 64 ==> rotate14@[j] as int == (j + 64 - 14) % 64,
            forall|j: int| 0 <= j < 64 ==> rotate18@[j] as int == (j + 64 - 18) % 64,
            forall|j: int| 0 <= j < 64 ==> rotate41@[j] as int == (j + 64 - 41) % 64,
            res_bits@.len() == i,
            forall|j: int| 0 <= j < i ==> res_bits@[j] == bit64(big_sigma1_spec(v), j),
    {
        let x = xor3_bits(a_bits[rotate14[i]], a_bits[rotate18[i]], a_bits[rotate41[i]]);
        proof {
            lemma_rotr64_bit(v, 14, i as u64);
            lemma_rotr64_bit(v, 18, i as u64);
            lemma_rotr64_bit(v, 41, i as u64);
            lemma_xor3_bit64(rotr64(v, 14), rotr64(v, 18), rotr64(v, 41), i as u64);
        }
        res_bits.push(x);
    }
    let r = bits_to_word(&res_bits);
    proof {
        assert(res_bits@ =~= u64_bits(big_sigma1_spec(v)));
        lemma_word_of_u64_bits(big_sigma1_spec(v));
    }
    r
}

} // verus!

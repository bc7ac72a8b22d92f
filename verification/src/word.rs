//! 64-bit logical words held as two 32-bit limbs, the big-endian
//! bit-sequence view of a word, conversions in both directions, and
//! modular 64-bit addition on the limb pair.

use vstd::prelude::*;

use crate::bits::{
    bit32, bit64, lemma_limb_val_bits, lemma_u32_from_bits, lemma_word_val_bit, limb_val, u64_bits,
};

verus! {

/// A 64-bit value stored as two 32-bit limbs, the field arithmetic's
/// native word width. Limbs are whole `u32` values, so both lie in
/// `[0, 2^32)` by construction.
#[derive(Clone, Copy, PartialEq, Eq, Structural, Debug)]
pub struct Word64 {
    pub high: u32,
    pub low: u32,
}

/// The 64-bit value a limb pair stands for.
pub open spec fn word_val(w: Word64) -> u64 {
    ((w.high as u64) << 32u64) | (w.low as u64)
}

/// The 64 bits of a word, most significant first: the high limb's bits,
/// then the low limb's bits.
pub open spec fn word_bits(w: Word64) -> Seq<bool> {
    u64_bits(word_val(w))
}

/// The word whose big-endian bits are `s`: bits `[0, 32)` pack into the
/// high limb, bits `[32, 64)` into the low limb.
pub open spec fn pack_word(s: Seq<bool>) -> Word64
    recommends
        s.len() == 64,
{
    Word64 { high: limb_val(s.subrange(0, 32)), low: limb_val(s.subrange(32, 64)) }
}

/// The 64-bit value of a big-endian bit string of length 64.
pub open spec fn word_of_bits(s: Seq<bool>) -> u64
    recommends
        s.len() == 64,
{
    word_val(pack_word(s))
}

/// 64-bit modular addition: any carry out of the top limb is dropped.
pub open spec fn add64(x: u64, y: u64) -> u64 {
    ((x + y) % 0x1_0000_0000_0000_0000) as u64
}

/// Two words with the same 64-bit value have the same limbs.
pub proof fn lemma_word_val_injective(w1: Word64, w2: Word64)
    requires
        word_val(w1) == word_val(w2),
    ensures
        w1 == w2,
{
    let h1 = w1.high;
    let l1 = w1.low;
    let h2 = w2.high;
    let l2 = w2.low;
    assert(h1 == h2 && l1 == l2) by (bit_vector)
        requires
            ((h1 as u64) << 32u64) | (l1 as u64) == ((h2 as u64) << 32u64) | (l2 as u64),
    ;
}

/// Packing the 64 bits of a value gives that value back.
pub proof fn lemma_word_of_u64_bits(x: u64)
    ensures
        word_of_bits(u64_bits(x)) == x,
{
    let s = u64_bits(x);
    let h = (x >> 32u64) as u32;
    let l = x as u32;
    assert(((h as u64) << 32u64) | (l as u64) == x) by (bit_vector)
        requires
            h == (x >> 32u64) as u32,
            l == x as u32,
    ;
    assert forall|i: int| 0 <= i < 32 implies s[i] == bit32(h, i) by {
        lemma_word_val_bit(h, l, i);
    }
    assert forall|i: int| 32 <= i < 64 implies s[i] == bit32(l, i - 32) by {
        lemma_word_val_bit(h, l, i);
    }
    let sh = s.subrange(0, 32);
    let sl = s.subrange(32, 64);
    lemma_limb_val_bits(sh);
    lemma_limb_val_bits(sl);
    assert forall|j: int| 0 <= j < 32 implies bit32(limb_val(sh), j) == bit32(h, j) by {
        assert(sh[j] == s[j]);
    }
    assert forall|j: int| 0 <= j < 32 implies bit32(limb_val(sl), j) == bit32(l, j) by {
        assert(sl[j] == s[j + 32]);
    }
    lemma_u32_from_bits(limb_val(sh), h);
    lemma_u32_from_bits(limb_val(sl), l);
}

/// Round trip, word first: repacking the bits of a word gives the same
/// word back.
pub proof fn lemma_pack_of_word_bits(w: Word64)
    ensures
        pack_word(word_bits(w)) == w,
{
    lemma_word_of_u64_bits(word_val(w));
    lemma_word_val_injective(pack_word(word_bits(w)), w);
}

/// Round trip, bits first: the bit view of a packed word is the bit
/// string it was packed from.
pub proof fn lemma_word_bits_of_pack(s: Seq<bool>)
    requires
        s.len() == 64,
    ensures
        word_bits(pack_word(s)) == s,
{
    let h = limb_val(s.subrange(0, 32));
    let l = limb_val(s.subrange(32, 64));
    lemma_limb_val_bits(s.subrange(0, 32));
    lemma_limb_val_bits(s.subrange(32, 64));
    assert forall|i: int| 0 <= i < 64 implies word_bits(pack_word(s))[i] == s[i] by {
        lemma_word_val_bit(h, l, i);
        if i < 32 {
            assert(s.subrange(0, 32)[i] == s[i]);
        } else {
            assert(s.subrange(32, 64)[i - 32] == s[i]);
        }
    }
    assert(word_bits(pack_word(s)) =~= s);
}

/// Builds the word with a given 64-bit value, high limb first.
pub fn word_from_u64(x: u64) -> (w: Word64)
    ensures
        word_val(w) == x,
{
    let high: u32 = (x >> 32u64) as u32;
    let low: u32 = (x & 0xFFFF_FFFF) as u32;
    proof {
        assert(((((x >> 32u64) as u32) as u64) << 32u64) | (((x & 0xFFFF_FFFF) as u32) as u64)
            == x) by (bit_vector);
    }
    Word64 { high, low }
}

/// Decomposes a word into its 64 bits, most significant first: the high
/// limb's 32 bits, then the low limb's 32 bits.
pub fn word_to_bits(w: &Word64) -> (r: Vec<bool>)
    ensures
        r@ == word_bits(*w),
{
    let mut res: Vec<bool> = Vec::new();
    for i in 0..32
        invariant
            res@.len() == i,
            forall|j: int| 0 <= j < i ==> res@[j] == bit32(w.high, j),
    {
        res.push((w.high >> ((31 - i) as u32)) & 1 == 1);
    }
    for i in 0..32
        invariant
            res@.len() == 32 + i,
            forall|j: int| 0 <= j < 32 ==> res@[j] == bit32(w.high, j),
            forall|j: int| 32 <= j < 32 + i ==> res@[j] == bit32(w.low, j - 32),
    {
        res.push((w.low >> ((31 - i) as u32)) & 1 == 1);
    }
    proof {
        assert forall|i: int| 0 <= i < 64 implies res@[i] == word_bits(*w)[i] by {
            lemma_word_val_bit(w.high, w.low, i);
        }
        assert(res@ =~= word_bits(*w));
    }
    res
}

/// Packs an ordered big-endian bit string of length 64 into a word:
/// bits `[0, 32)` become the high limb, bits `[32, 64)` the low limb.
pub fn bits_to_word(bits: &Vec<bool>) -> (w: Word64)
    requires
        bits@.len() == 64,
    ensures
        w == pack_word(bits@),
        word_bits(w) == bits@,
{
    let mut high: u32 = 0;
    for i in 0..32
        invariant
            bits@.len() == 64,
            high == limb_val(bits@.subrange(0, i as int)),
    {
        let c: u32 = if bits[i] {
            1
        } else {
            0
        };
        proof {
            let s = bits@.subrange(0, i as int);
            let s2 = bits@.subrange(0, i + 1);
            lemma_limb_val_bits(s);
            let iu = i as u32;
            assert(high < 0x8000_0000) by (bit_vector)
                requires
                    high >> iu == 0,
                    iu < 32,
            ;
            assert(s2.drop_last() =~= s);
            assert((high << 1u32) | c == 2 * high + c) by (bit_vector)
                requires
                    high < 0x8000_0000,
                    c <= 1,
            ;
        }
        high = high * 2 + c;
    }
    let mut low: u32 = 0;
    for i in 0..32
        invariant
            bits@.len() == 64,
            low == limb_val(bits@.subrange(32, 32 + i as int)),
    {
        let c: u32 = if bits[32 + i] {
            1
        } else {
            0
        };
        proof {
            let s = bits@.subrange(32, 32 + i as int);
            let s2 = bits@.subrange(32, 32 + i + 1);
            lemma_limb_val_bits(s);
            let iu = i as u32;
            assert(low < 0x8000_0000) by (bit_vector)
                requires
                    low >> iu == 0,
                    iu < 32,
            ;
            assert(s2.drop_last() =~= s);
            assert((low << 1u32) | c == 2 * low + c) by (bit_vector)
                requires
                    low < 0x8000_0000,
                    c <= 1,
            ;
        }
        low = low * 2 + c;
    }
    let w = Word64 { high, low };
    proof {
        assert(w == pack_word(bits@));
        lemma_word_bits_of_pack(bits@);
    }
    w
}

/// 64-bit modular addition over the limb pair: adds the low limbs, carries
/// into the high limbs, and drops any carry out of the high limbs.
pub fn add_word(a: &Word64, b: &Word64) -> (r: Word64)
    ensures
        word_val(r) == add64(word_val(*a), word_val(*b)),
{
    let low_sum: u64 = (a.low as u64) + (b.low as u64);
    let lo: u32 = (low_sum & 0xFFFF_FFFF) as u32;
    let carry: u64 = low_sum >> 32u64;
    proof {
        assert(low_sum >> 32u64 <= 1) by (bit_vector)
            requires
                low_sum <= 0x1_FFFF_FFFE,
        ;
    }
    let high_sum: u64 = (a.high as u64) + (b.high as u64) + carry;
    let hi: u32 = (high_sum & 0xFFFF_FFFF) as u32;
    proof {
        let ah = a.high;
        let al = a.low;
        let bh = b.high;
        let bl = b.low;
        assert((((hi as u64) << 32u64) | (lo as u64)) == ((((ah as u64) << 32u64) | (al as u64))
            + (((bh as u64) << 32u64) | (bl as u64))) % 0x1_0000_0000_0000_0000) by (bit_vector)
            requires
                low_sum == (al as u64) + (bl as u64),
                lo == (low_sum & 0xFFFF_FFFF) as u32,
                carry == low_sum >> 32u64,
                high_sum == (ah as u64) + (bh as u64) + carry,
                hi == (high_sum & 0xFFFF_FFFF) as u32,
        ;
    }
    Word64 { high: hi, low: lo }
}

} // verus!

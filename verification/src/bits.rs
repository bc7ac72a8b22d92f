//! Bit-level model shared by the whole gadget: big-endian bit views of
//! 32-bit limbs and 64-bit words, and the lemmas that tie a value to its
//! ordered bit sequence.

use vstd::prelude::*;

verus! {

/// Bit `i` of a 64-bit value in big-endian order: bit 0 is the most
/// significant, bit 63 the least.
pub open spec fn bit64(v: u64, i: int) -> bool
    recommends
        0 <= i < 64,
{
    (v >> ((63 - i) as u64)) & 1 == 1
}

/// Bit `i` of a 32-bit limb in big-endian order.
pub open spec fn bit32(v: u32, i: int) -> bool
    recommends
        0 <= i < 32,
{
    (v >> ((31 - i) as u32)) & 1 == 1
}

/// The 64 bits of a value, most significant first.
pub open spec fn u64_bits(v: u64) -> Seq<bool> {
    Seq::new(64, |i: int| bit64(v, i))
}

/// The 32-bit limb whose big-endian bits are `s` (high bits first).
pub open spec fn limb_val(s: Seq<bool>) -> u32
    recommends
        s.len() <= 32,
    decreases s.len(),
{
    if s.len() == 0 {
        0u32
    } else {
        (limb_val(s.drop_last()) << 1u32) | (if s.last() {
            1u32
        } else {
            0u32
        })
    }
}

/// A packed limb reproduces exactly the bits it was packed from: bit `j`
/// of `limb_val(s)` is `s[j]`, and all bits above `s.len()` are zero.
pub proof fn lemma_limb_val_bits(s: Seq<bool>)
    requires
        s.len() <= 32,
    ensures
        s.len() < 32 ==> limb_val(s) >> (s.len() as u32) == 0,
        forall|j: int|
            0 <= j < s.len() ==> (((limb_val(s) >> ((s.len() - 1 - j) as u32)) & 1 == 1) == s[j]),
    decreases s.len(),
{
    if s.len() == 0 {
        assert(0u32 >> 0u32 == 0) by (bit_vector);
    } else {
        let t = s.drop_last();
        lemma_limb_val_bits(t);
        let a = limb_val(t);
        let c: u32 = if s.last() {
            1u32
        } else {
            0u32
        };
        let n = t.len() as u32;
        let v = (a << 1u32) | c;
        assert(a >> 31u32 == 0) by (bit_vector)
            requires
                a >> n == 0,
                n <= 31,
        ;
        if s.len() < 32 {
            assert(((a << 1u32) | c) >> ((n + 1) as u32) == 0) by (bit_vector)
                requires
                    a >> n == 0,
                    n < 31,
                    c <= 1,
            ;
        }
        assert forall|j: int| 0 <= j < s.len() implies (((v >> ((s.len() - 1 - j) as u32)) & 1 == 1)
            == s[j]) by {
            if j < n {
                let k = (s.len() - 1 - j) as u32;
                assert((((a << 1u32) | c) >> k) & 1 == (a >> ((k - 1) as u32)) & 1) by (bit_vector)
                    requires
                        a >> 31u32 == 0,
                        c <= 1,
                        1 <= k < 32,
                ;
                assert(((a >> ((t.len() - 1 - j) as u32)) & 1 == 1) == t[j]);
                assert(t[j] == s[j]);
            } else {
                assert((((a << 1u32) | c) >> 0u32) & 1 == c) by (bit_vector)
                    requires
                        c <= 1,
                ;
                assert(s[j] == s.last());
            }
        }
    }
}

/// Two 32-bit limbs that agree on every big-endian bit are equal.
pub proof fn lemma_u32_from_bits(x: u32, y: u32)
    requires
        forall|j: int| 0 <= j < 32 ==> bit32(x, j) == bit32(y, j),
    ensures
        x == y,
{
    assert forall|sh: u32| sh < 32 implies #[trigger] ((x >> sh) & 1) == (y >> sh) & 1 by {
        let j = 31 - sh as int;
        assert(bit32(x, j) == bit32(y, j));
        assert((x >> sh) & 1 <= 1 && (y >> sh) & 1 <= 1) by (bit_vector);
    }
    lemma_u32_shr_eq(x, y, 0);
    assert(x >> 0u32 == x && y >> 0u32 == y) by (bit_vector);
}

proof fn lemma_u32_shr_eq(x: u32, y: u32, k: u32)
    requires
        k <= 31,
        forall|sh: u32| k <= sh < 32 ==> #[trigger] ((x >> sh) & 1) == (y >> sh) & 1,
    ensures
        x >> k == y >> k,
    decreases 32 - k,
{
    if k == 31 {
        assert((x >> 31u32) & 1 == (y >> 31u32) & 1);
        assert(x >> 31u32 == (x >> 31u32) & 1 && y >> 31u32 == (y >> 31u32) & 1) by (bit_vector);
    } else {
        lemma_u32_shr_eq(x, y, (k + 1) as u32);
        assert((x >> k) & 1 == (y >> k) & 1);
        assert(x >> k == y >> k) by (bit_vector)
            requires
                k < 31,
                x >> ((k + 1) as u32) == y >> ((k + 1) as u32),
                (x >> k) & 1 == (y >> k) & 1,
        ;
    }
}

/// Splitting a 64-bit value into its two limbs splits its bit sequence:
/// the first 32 bits come from the high limb, the last 32 from the low.
pub proof fn lemma_word_val_bit(h: u32, l: u32, i: int)
    requires
        0 <= i < 64,
    ensures
        i < 32 ==> bit64(((h as u64) << 32u64) | (l as u64), i) == bit32(h, i),
        32 <= i ==> bit64(((h as u64) << 32u64) | (l as u64), i) == bit32(l, i - 32),
{
    let ii = i as u64;
    if i < 32 {
        assert(((((h as u64) << 32u64) | (l as u64)) >> ((63 - ii) as u64)) & 1 == 1 <==> (h >> ((31
            - ii) as u32)) & 1 == 1) by (bit_vector)
            requires
                ii < 32,
        ;
    } else {
        assert(((((h as u64) << 32u64) | (l as u64)) >> ((63 - ii) as u64)) & 1 == 1 <==> (l >> ((63
            - ii) as u32)) & 1 == 1) by (bit_vector)
            requires
                32 <= ii < 64,
        ;
        assert((63 - i) as u32 == (31 - (i - 32)) as u32);
    }
}

} // verus!

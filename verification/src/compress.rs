//! The compression driver: fixed constant tables, the 16-round state
//! machine over 1024-bit blocks, and the digest extractor.

use vstd::prelude::*;

use vstd::arithmetic::div_mod::{lemma_fundamental_div_mod, lemma_fundamental_div_mod_converse};

use crate::bits::bit64;
use crate::gadget::{big_sigma0, big_sigma0_spec, big_sigma1, big_sigma1_spec};
use crate::padding::{
    block_count_of, pad_message, padded_spec, padding_ok, ConfigurationError,
};
use crate::word::{
    add64, add_word, bits_to_word, word_from_u64, word_of_bits, word_to_bits, word_val, Word64,
};

verus! {

/// SHA-512 initialization constants: the initial hash state.
pub const H512_512: [u64; 8] = [
    0x6a09e667f3bcc908, 0xbb67ae8584caa73b, 0x3c6ef372fe94f82b, 0xa54ff53a5f1d36f1,
    0x510e527fade682d1, 0x9b05688c2b3e6c1f, 0x1f83d9abfb41bd6b, 0x5be0cd19137e2179,
];

/// SHA-512 round constants. Only indices 0..16 are consumed here: the
/// message-schedule expansion for rounds 16..80 is deliberately absent,
/// an unresolved deviation from the full standard that is reproduced,
/// not repaired.
pub const K64: [u64; 80] = [
    0x428a2f98d728ae22, 0x7137449123ef65cd, 0xb5c0fbcfec4d3b2f, 0xe9b5dba58189dbbc,
    0x3956c25bf348b538, 0x59f111f1b605d019, 0x923f82a4af194f9b, 0xab1c5ed5da6d8118,
    0xd807aa98a3030242, 0x12835b0145706fbe, 0x243185be4ee4b28c, 0x550c7dc3d5ffb4e2,
    0x72be5d74f27b896f, 0x80deb1fe3b1696b1, 0x9bdc06a725c71235, 0xc19bf174cf692694,
    0xe49b69c19ef14ad2, 0xefbe4786384f25e3, 0x0fc19dc68b8cd5b5, 0x240ca1cc77ac9c65,
    0x2de92c6f592b0275, 0x4a7484aa6ea6e483, 0x5cb0a9dcbd41fbd4, 0x76f988da831153b5,
    0x983e5152ee66dfab, 0xa831c66d2db43210, 0xb00327c898fb213f, 0xbf597fc7beef0ee4,
    0xc6e00bf33da88fc2, 0xd5a79147930aa725, 0x06ca6351e003826f, 0x142929670a0e6e70,
    0x27b70a8546d22ffc, 0x2e1b21385c26c926, 0x4d2c6dfc5ac42aed, 0x53380d139d95b3df,
    0x650a73548baf63de, 0x766a0abb3c77b2a8, 0x81c2c92e47edaee6, 0x92722c851482353b,
    0xa2bfe8a14cf10364, 0xa81a664bbc423001, 0xc24b8b70d0f89791, 0xc76c51a30654be30,
    0xd192e819d6ef5218, 0xd69906245565a910, 0xf40e35855771202a, 0x106aa07032bbd1b8,
    0x19a4c116b8d2d0c8, 0x1e376c085141ab53, 0x2748774cdf8eeb99, 0x34b0bcb5e19b48a8,
    0x391c0cb3c5c95a63, 0x4ed8aa4ae3418acb, 0x5b9cca4f7763e373, 0x682e6ff3d6b2b8a3,
    0x748f82ee5defb2fc, 0x78a5636f43172f60, 0x84c87814a1f0ab72, 0x8cc702081a6439ec,
    0x90befffa23631e28, 0xa4506cebde82bde9, 0xbef9a3f7b2c67915, 0xc67178f2e372532b,
    0xca273eceea26619c, 0xd186b8c721c0c207, 0xeada7dd6cde0eb1e, 0xf57d4f7fee6ed178,
    0x06f067aa72176fba, 0x0a637dc5a2c898a6, 0x113f9804bef90dae, 0x1b710b35131c471b,
    0x28db77f523047d84, 0x32caab7b40c72493, 0x3c9ebe0a15c9bebc, 0x431d67c49c100d4c,
    0x4cc5d4becb3e42b6, 0x597f299cfc657e2a, 0x5fcb6fab3ad6faec, 0x6c44198c4a475817,
];

/// The initial hash state as a word-value sequence.
pub open spec fn initial_state() -> Seq<u64> {
    H512_512@
}

/// The 64-bit values of a sequence of limb-pair words.
pub open spec fn word_vals(s: Seq<Word64>) -> Seq<u64> {
    s.map_values(|w: Word64| word_val(w))
}

/// Builds the eight initial state words from the constant table.
pub fn initial_state_words() -> (st: Vec<Word64>)
    ensures
        st@.len() == 8,
        word_vals(st@) == initial_state(),
{
    let mut st: Vec<Word64> = Vec::new();
    for i in 0..8usize
        invariant
            st@.len() == i,
            forall|j: int| 0 <= j < i ==> word_val(st@[j]) == H512_512@[j],
    {
        st.push(word_from_u64(H512_512[i]));
    }
    proof {
        assert(word_vals(st@) =~= initial_state());
    }
    st
}

/// Builds the 80 round-constant words from the constant table.
pub fn round_constant_words() -> (ks: Vec<Word64>)
    ensures
        ks@.len() == 80,
        forall|j: int| 0 <= j < 80 ==> word_val(ks@[j]) == K64@[j],
{
    let mut ks: Vec<Word64> = Vec::new();
    for i in 0..80usize
        invariant
            ks@.len() == i,
            forall|j: int| 0 <= j < i ==> word_val(ks@[j]) == K64@[j],
    {
        ks.push(word_from_u64(K64[i]));
    }
    ks
}

/// One round's rotation of the working variables `a..h`: `T1` folds in
/// `h`, `Σ1(e)`, the round constant and the message word; `T2` is
/// `Σ0(a)`; then `e` becomes `d + T1` and `a` becomes `T1 + T2`, all
/// additions 64-bit modular.
pub open spec fn round_step(v: Seq<u64>, w: u64, k: u64) -> Seq<u64>
    recommends
        v.len() == 8,
{
    let t1 = add64(add64(add64(v[7], big_sigma1_spec(v[4])), k), w);
    let t2 = big_sigma0_spec(v[0]);
    seq![add64(t1, t2), v[0], v[1], v[2], add64(v[3], t1), v[4], v[5], v[6]]
}

/// Message word `i` of a 1024-bit block: 64 consecutive bits, sliced
/// directly from the block and packed big-endian.
pub open spec fn block_word(block: Seq<bool>, i: int) -> u64
    recommends
        block.len() == 1024,
        0 <= i < 16,
{
    word_of_bits(block.subrange(64 * i, 64 * i + 64))
}

/// The working variables after the first `n` rounds of a block.
pub open spec fn rounds_upto(st: Seq<u64>, block: Seq<bool>, n: int) -> Seq<u64>
    recommends
        st.len() == 8,
        block.len() == 1024,
        0 <= n <= 16,
    decreases n,
{
    if n <= 0 {
        st
    } else {
        round_step(rounds_upto(st, block, n - 1), block_word(block, n - 1), K64@[n - 1])
    }
}

/// One block transition: run the 16 implemented rounds, then add each
/// working variable into its state slot, 64-bit modular.
pub open spec fn compress_block_spec(st: Seq<u64>, block: Seq<bool>) -> Seq<u64>
    recommends
        st.len() == 8,
        block.len() == 1024,
{
    let v = rounds_upto(st, block, 16);
    Seq::new(8, |k: int| add64(st[k], v[k]))
}

/// The hash state after the first `n` blocks of a padded message.
pub open spec fn compress_upto(st: Seq<u64>, padded: Seq<bool>, n: int) -> Seq<u64>
    recommends
        st.len() == 8,
        padded.len() % 1024 == 0,
        0 <= n,
        1024 * n <= padded.len(),
    decreases n,
{
    if n <= 0 {
        st
    } else {
        compress_block_spec(
            compress_upto(st, padded, n - 1),
            padded.subrange(1024 * (n - 1), 1024 * n),
        )
    }
}

/// The 512 digest bits: each state word's 64 bits in order, big-endian
/// within each word, words in state order.
pub open spec fn digest_bits_spec(st: Seq<u64>) -> Seq<bool>
    recommends
        st.len() == 8,
{
    Seq::new(512, |i: int| bit64(st[i / 64], i % 64))
}

/// The full model: pad, compress every block with the 16 implemented
/// rounds, and serialize the final state.
pub open spec fn sha512_16_digest(msg: Seq<bool>) -> Seq<bool>
    recommends
        padding_ok(msg.len()),
{
    digest_bits_spec(
        compress_upto(initial_state(), padded_spec(msg), block_count_of(msg.len()) as int),
    )
}

/// Slices 64 consecutive bits out of the padded message and packs them
/// into a word.
fn message_word(padded: &Vec<bool>, index: usize) -> (w: Word64)
    requires
        index + 64 <= padded@.len(),
    ensures
        word_val(w) == word_of_bits(padded@.subrange(index as int, index as int + 64)),
{
    let n: usize = padded.len();
    let mut bits: Vec<bool> = Vec::new();
    for j in 0..64usize
        invariant
            index + 64 <= n,
            n == padded@.len(),
            bits@.len() == j,
            forall|k: int| 0 <= k < j ==> bits@[k] == padded@[index + k],
    {
        bits.push(padded[index + j]);
    }
    let w = bits_to_word(&bits);
    proof {
        assert(bits@ =~= padded@.subrange(index as int, index as int + 64));
    }
    w
}

/// Runs the compression driver over every 1024-bit block of a padded
/// message, starting from the fixed initial state.
pub fn process_padded(padded: &Vec<bool>) -> (st: Vec<Word64>)
    requires
        padded@.len() % 1024 == 0,
    ensures
        st@.len() == 8,
        word_vals(st@) == compress_upto(
            initial_state(),
            padded@,
            padded@.len() as int / 1024,
        ),
{
    let mut state = initial_state_words();
    let k512 = round_constant_words();
    let total: usize = padded.len();
    let n_blocks: usize = total / 1024;
    proof {
        lemma_fundamental_div_mod(padded@.len() as int, 1024);
    }
    for blk in 0..n_blocks
        invariant
            padded@.len() % 1024 == 0,
            total == padded@.len(),
            n_blocks == padded@.len() as int / 1024,
            1024 * n_blocks == padded@.len(),
            k512@.len() == 80,
            forall|j: int| 0 <= j < 80 ==> word_val(k512@[j]) == K64@[j],
            state@.len() == 8,
            word_vals(state@) == compress_upto(initial_state(), padded@, blk as int),
    {
        let ghost st0 = word_vals(state@);
        let ghost block = padded@.subrange(1024 * blk as int, 1024 * (blk as int + 1));
        let base: usize = blk * 1024;
        let mut a = state[0];
        let mut b = state[1];
        let mut c = state[2];
        let mut d = state[3];
        let mut e = state[4];
        let mut f = state[5];
        let mut g = state[6];
        let mut h = state[7];
        proof {
            assert(seq![
                word_val(a),
                word_val(b),
                word_val(c),
                word_val(d),
                word_val(e),
                word_val(f),
                word_val(g),
                word_val(h),
            ] =~= rounds_upto(st0, block, 0));
        }
        for i in 0..16usize
            invariant
                padded@.len() % 1024 == 0,
                1024 * n_blocks == padded@.len(),
                blk < n_blocks,
                base == 1024 * blk,
                st0.len() == 8,
                block.len() == 1024,
                block == padded@.subrange(1024 * blk as int, 1024 * (blk as int + 1)),
                k512@.len() == 80,
                forall|j: int| 0 <= j < 80 ==> word_val(k512@[j]) == K64@[j],
                seq![
                    word_val(a),
                    word_val(b),
                    word_val(c),
                    word_val(d),
                    word_val(e),
                    word_val(f),
                    word_val(g),
                    word_val(h),
                ] == rounds_upto(st0, block, i as int),
        {
            let index: usize = base + i * 64;
            let ghost vars = rounds_upto(st0, block, i as int);
            let w_i = message_word(padded, index);
            proof {
                assert(padded@.subrange(index as int, index as int + 64) =~= block.subrange(
                    64 * i as int,
                    64 * i as int + 64,
                ));
                assert(word_val(w_i) == block_word(block, i as int));
            }
            let s1 = big_sigma1(&e);
            let mut t1 = add_word(&h, &s1);
            t1 = add_word(&t1, &k512[i]);
            t1 = add_word(&t1, &w_i);
            let t2 = big_sigma0(&a);
            h = g;
            g = f;
            f = e;
            e = add_word(&d, &t1);
            d = c;
            c = b;
            b = a;
            a = add_word(&t1, &t2);
            proof {
                assert(seq![
                    word_val(a),
                    word_val(b),
                    word_val(c),
                    word_val(d),
                    word_val(e),
                    word_val(f),
                    word_val(g),
                    word_val(h),
                ] =~= round_step(vars, block_word(block, i as int), K64@[i as int]));
                assert(rounds_upto(st0, block, i as int + 1) == round_step(
                    vars,
                    block_word(block, i as int),
                    K64@[i as int],
                ));
            }
        }
        let mut new_state: Vec<Word64> = Vec::new();
        new_state.push(add_word(&state[0], &a));
        new_state.push(add_word(&state[1], &b));
        new_state.push(add_word(&state[2], &c));
        new_state.push(add_word(&state[3], &d));
        new_state.push(add_word(&state[4], &e));
        new_state.push(add_word(&state[5], &f));
        new_state.push(add_word(&state[6], &g));
        new_state.push(add_word(&state[7], &h));
        state = new_state;
        proof {
            assert(word_vals(state@) =~= compress_block_spec(st0, block));
            assert(compress_upto(initial_state(), padded@, blk as int + 1) == compress_block_spec(
                st0,
                block,
            ));
        }
    }
    state
}

/// Serializes the final hash state into 512 ordered digest bits.
pub fn extract_digest(state: &Vec<Word64>) -> (d: Vec<bool>)
    requires
        state@.len() == 8,
    ensures
        d@ == digest_bits_spec(word_vals(state@)),
{
    let mut digest: Vec<bool> = Vec::new();
    for i in 0..8usize
        invariant
            state@.len() == 8,
            digest@.len() == 64 * i,
            forall|k: int|
                0 <= k < 64 * i ==> digest@[k] == digest_bits_spec(word_vals(state@))[k],
    {
        let wi = state[i];
        let mut bits = word_to_bits(&wi);
        digest.append(&mut bits);
        proof {
            assert forall|k: int| 64 * i <= k < 64 * (i + 1) implies digest@[k] == digest_bits_spec(
                word_vals(state@),
            )[k] by {
                lemma_fundamental_div_mod_converse(k, 64, i as int, k - 64 * i);
            }
        }
    }
    proof {
        assert(digest@ =~= digest_bits_spec(word_vals(state@)));
    }
    digest
}

/// The whole gadget on concrete bit values: pads the message, drives the
/// compression over every block, and extracts the 512 digest bits.
/// Fails with `ConfigurationError` exactly when the padding formula
/// leaves `p ≤ 1`.
pub fn sha512_digest(msg: &Vec<bool>) -> (r: Result<Vec<bool>, ConfigurationError>)
    ensures
        r is Ok <==> padding_ok(msg@.len()),
        r is Ok ==> r->Ok_0@ == sha512_16_digest(msg@),
        r is Ok ==> r->Ok_0@.len() == 512,
{
    let padded = match pad_message(msg) {
        Ok(p) => p,
        Err(err) => {
            return Err(err);
        },
    };
    proof {
        crate::padding::lemma_padded_length(msg@.len());
        lemma_fundamental_div_mod_converse(
            padded@.len() as int,
            1024,
            block_count_of(msg@.len()) as int,
            0,
        );
    }
    let state = process_padded(&padded);
    let d = extract_digest(&state);
    Ok(d)
}

} // verus!

//! The padding builder: the block-count formula, the padded-message
//! layout (message, a fixed 1 bit, a zero run, the 128-bit big-endian
//! length), and the construction-time check that the zero-run parameter
//! `p` exceeds 1.

use vstd::prelude::*;

use vstd::arithmetic::div_mod::{
    lemma_fundamental_div_mod, lemma_fundamental_div_mod_converse, lemma_mod_multiples_basic,
};

verus! {

/// The padding computation rejected the configuration: the length
/// formula left a zero-run parameter `p` of at most 1.
#[derive(Clone, Copy, PartialEq, Eq, Structural, Debug)]
pub struct ConfigurationError;

/// Number of 1024-bit blocks for a message of `len` bits:
/// `ceil((len + 129) / 1024)`.
pub open spec fn block_count_of(len: nat) -> nat {
    (len + 129 + 1023) / 1024
}

/// Total padded length in bits: `1024 * block_count_of(len)`.
pub open spec fn padded_len_of(len: nat) -> nat {
    1024 * block_count_of(len)
}

/// The zero-run parameter `p`: a fixed 1 bit followed by `p − 1` zero
/// bits stands between the message and the 128-bit length field.
pub open spec fn pad_p_of(len: nat) -> int {
    padded_len_of(len) - 128 - len
}

/// A message length is accepted exactly when `p > 1`.
pub open spec fn padding_ok(len: nat) -> bool {
    pad_p_of(len) > 1
}

/// The 128-bit big-endian encoding of the message bit length.
pub open spec fn length_bits_128(len: u128) -> Seq<bool> {
    Seq::new(128, |i: int| (len >> ((127 - i) as u128)) & 1 == 1)
}

/// The padded layout: the message, one 1 bit, `p − 1` zero bits, then
/// the 128-bit big-endian message length.
pub open spec fn padded_spec(msg: Seq<bool>) -> Seq<bool>
    recommends
        padding_ok(msg.len()),
{
    msg + seq![true] + Seq::new((pad_p_of(msg.len()) - 1) as nat, |i: int| false)
        + length_bits_128(msg.len() as u128)
}

/// The length formula's guarantees, for every message bit length: the
/// padded length is a positive multiple of 1024 and splits as
/// `len + p + 128` with `p ≥ 1`; `p` stays above 1 — so construction
/// succeeds — exactly when `len % 1024 != 895`.
pub proof fn lemma_padded_length(len: nat)
    ensures
        pad_p_of(len) >= 1,
        padded_len_of(len) > 0,
        padded_len_of(len) % 1024 == 0,
        padded_len_of(len) == len + pad_p_of(len) + 128,
        padding_ok(len) <==> len % 1024 != 895,
{
    let x = len + 1152;
    let b = block_count_of(len) as int;
    lemma_fundamental_div_mod(x as int, 1024);
    let rem = x as int % 1024;
    assert(1024 * b == x - rem);
    lemma_mod_multiples_basic(b, 1024);
    let q = len as int / 1024;
    let r = len as int % 1024;
    lemma_fundamental_div_mod(len as int, 1024);
    if r < 896 {
        lemma_fundamental_div_mod_converse(x as int, 1024, q + 1, r + 128);
        assert(rem == r + 128);
    } else {
        lemma_fundamental_div_mod_converse(x as int, 1024, q + 2, r - 896);
        assert(rem == r - 896);
    }
}

/// Builds the padded-message bit layout for the message `msg`, following
/// the length formula `block_count = ceil((L + 129) / 1024)`. Fails with
/// `ConfigurationError` exactly when the formula leaves `p ≤ 1`; on
/// success the output is the message, a 1 bit, `p − 1` zero bits and the
/// 128-bit big-endian encoding of the message bit length.
pub fn pad_message(msg: &Vec<bool>) -> (r: Result<Vec<bool>, ConfigurationError>)
    ensures
        r is Ok <==> padding_ok(msg@.len()),
        r is Ok ==> r->Ok_0@ == padded_spec(msg@),
{
    let len128: u128 = msg.len() as u128;
    proof {
        lemma_padded_length(msg@.len());
        lemma_fundamental_div_mod(len128 + 1152, 1024);
    }
    let block_count: u128 = (len128 + 129 + 1023) / 1024;
    let padded_len: u128 = 1024 * block_count;
    let p: u128 = padded_len - 128 - len128;
    if p <= 1 {
        return Err(ConfigurationError);
    }
    let mut out: Vec<bool> = Vec::new();
    let msg_len = msg.len();
    for i in 0..msg_len
        invariant
            msg_len == msg@.len(),
            out@ == msg@.subrange(0, i as int),
    {
        out.push(msg[i]);
        proof {
            assert(msg@.subrange(0, i + 1) =~= msg@.subrange(0, i as int).push(msg@[i as int]));
        }
    }
    proof {
        assert(msg@.subrange(0, msg_len as int) =~= msg@);
    }
    out.push(true);
    let ghost head = msg@ + seq![true];
    let zero_run: u128 = p - 1;
    let mut zeros: u128 = 0;
    while zeros < zero_run
        invariant
            zeros <= zero_run,
            out@ == head + Seq::new(zeros as nat, |i: int| false),
        decreases zero_run - zeros,
    {
        out.push(false);
        zeros = zeros + 1;
        proof {
            assert(head + Seq::new(zeros as nat, |i: int| false) =~= (head + Seq::new(
                (zeros - 1) as nat,
                |i: int| false,
            )).push(false));
        }
    }
    let ghost body = head + Seq::new((p - 1) as nat, |i: int| false);
    for i in 0..128usize
        invariant
            out@ == body + length_bits_128(len128).subrange(0, i as int),
    {
        let sh: u128 = (127 - i) as u128;
        let bit = (len128 >> sh) & 1 == 1;
        out.push(bit);
        proof {
            assert(length_bits_128(len128).subrange(0, i + 1) =~= length_bits_128(
                len128,
            ).subrange(0, i as int).push(length_bits_128(len128)[i as int]));
        }
    }
    proof {
        assert(length_bits_128(len128).subrange(0, 128) =~= length_bits_128(len128));
        assert(out@ =~= padded_spec(msg@));
    }
    Ok(out)
}

/// The big-endian bit sequence of a byte string: for byte `i`, bit `j`
/// (0 is the most significant), position `8·i + j` holds
/// `(byte_i >> (7 − j)) & 1`.
pub open spec fn bytes_to_bits(s: Seq<u8>) -> Seq<bool> {
    Seq::new(s.len() * 8, |i: int| (s[i / 8] >> ((7 - (i % 8)) as u8)) & 1 == 1)
}

/// Spreads a byte string into message bits, most significant bit of each
/// byte first — the witness-binding order the circuit caller must use.
pub fn array_to_bits(bytes: &[u8]) -> (r: Vec<bool>)
    ensures
        r@ == bytes_to_bits(bytes@),
{
    let len = bytes.len();
    let mut ret: Vec<bool> = Vec::new();
    for i in 0..len
        invariant
            len == bytes@.len(),
            ret@.len() == 8 * i,
            forall|k: int| 0 <= k < 8 * i ==> ret@[k] == bytes_to_bits(bytes@)[k],
    {
        for j in 0..8usize
            invariant
                len == bytes@.len(),
                i < len,
                ret@.len() == 8 * i + j,
                forall|k: int| 0 <= k < 8 * i + j ==> ret@[k] == bytes_to_bits(bytes@)[k],
        {
            let b = (bytes[i] >> ((7 - j) as u8)) & 1;
            ret.push(b == 1);
            proof {
                let k = 8 * (i as int) + j;
                lemma_fundamental_div_mod_converse(k, 8, i as int, j as int);
                assert(bytes_to_bits(bytes@)[k] == ((bytes@[i as int] >> ((7 - (k % 8)) as u8)) & 1
                    == 1));
            }
        }
    }
    proof {
        assert(ret@ =~= bytes_to_bits(bytes@));
    }
    ret
}

} // verus!

//! The mathematical statement of SHA-256 (FIPS 180-4).
//!
//! Everything here is ghost: padding, the big-endian word view of the
//! padded message, the message schedule, the sixty-four round compression
//! function and the chaining of blocks. The executable circuit in the rest
//! of the crate is proved to compute these functions on the plaintexts of
//! its ciphertexts.

use vstd::prelude::*;
use crate::constants::spec_h;
use crate::constants::spec_k;
use crate::word::{add32, rotr32};

verus! {

/// `ROTR(x,7) xor ROTR(x,18) xor SHR(x,3)`.
pub open spec fn spec_sigma0(x: u32) -> u32 {
    rotr32(x, 7) ^ rotr32(x, 18) ^ (x >> 3u32)
}

/// `ROTR(x,17) xor ROTR(x,19) xor SHR(x,10)`.
pub open spec fn spec_sigma1(x: u32) -> u32 {
    rotr32(x, 17) ^ rotr32(x, 19) ^ (x >> 10u32)
}

/// `ROTR(x,2) xor ROTR(x,13) xor ROTR(x,22)`.
pub open spec fn spec_capsigma0(x: u32) -> u32 {
    rotr32(x, 2) ^ rotr32(x, 13) ^ rotr32(x, 22)
}

/// `ROTR(x,6) xor ROTR(x,11) xor ROTR(x,25)`.
pub open spec fn spec_capsigma1(x: u32) -> u32 {
    rotr32(x, 6) ^ rotr32(x, 11) ^ rotr32(x, 25)
}

/// The choice mixer: `(x and y) xor ((not x) and z)`.
pub open spec fn spec_ch(x: u32, y: u32, z: u32) -> u32 {
    (x & y) ^ (!x & z)
}

/// The majority mixer: `(x and y) xor (x and z) xor (y and z)`.
pub open spec fn spec_maj(x: u32, y: u32, z: u32) -> u32 {
    (x & y) ^ (x & z) ^ (y & z)
}

/// How many zero bytes padding inserts after the `0x80` marker so that the
/// padded length lands on a multiple of 64 bytes.
pub open spec fn pad_zero_count(len: nat) -> nat {
    let r = (len + 1) % 64;
    if r <= 56 {
        (56 - r) as nat
    } else {
        (120 - r) as nat
    }
}

/// The eight big-endian bytes of a 64-bit value.
pub open spec fn be64_bytes(n: u64) -> Seq<u8> {
    seq![
        (n >> 56u64) as u8,
        (n >> 48u64) as u8,
        (n >> 40u64) as u8,
        (n >> 32u64) as u8,
        (n >> 24u64) as u8,
        (n >> 16u64) as u8,
        (n >> 8u64) as u8,
        n as u8,
    ]
}

/// SHA-256 padding: `0x80`, zeros up to 56 bytes modulo 64, then the
/// message length in bits as a big-endian 64-bit value.
pub open spec fn spec_pad(m: Seq<u8>) -> Seq<u8> {
    m + seq![0x80u8] + Seq::new(pad_zero_count(m.len()), |i: int| 0u8) + be64_bytes(
        (m.len() * 8) as u64,
    )
}

/// The padded stream length is a positive multiple of 64 bytes.
pub proof fn lemma_spec_pad_len(m: Seq<u8>)
    ensures
        spec_pad(m).len() == m.len() + 1 + pad_zero_count(m.len()) + 8,
        spec_pad(m).len() % 64 == 0,
        spec_pad(m).len() >= 64,
{
    let l = m.len();
    let r = (l + 1) % 64;
    vstd::arithmetic::div_mod::lemma_fundamental_div_mod((l + 1) as int, 64);
}

/// One big-endian 32-bit word from four bytes.
pub open spec fn be_word(b0: u8, b1: u8, b2: u8, b3: u8) -> u32 {
    (b0 * 0x100_0000 + b1 * 0x1_0000 + b2 * 0x100 + b3) as u32
}

/// The big-endian 32-bit words of a byte stream, four bytes per word.
pub open spec fn words_of(p: Seq<u8>) -> Seq<u32> {
    Seq::new(
        p.len() / 4,
        |i: int| be_word(p[4 * i], p[4 * i + 1], p[4 * i + 2], p[4 * i + 3]),
    )
}

/// Word `i` of the message schedule of one 16-word block.
pub open spec fn spec_w(block: Seq<u32>, i: int) -> u32
    decreases i,
{
    if i < 16 {
        block[i]
    } else {
        add32(
            add32(add32(spec_w(block, i - 16), spec_sigma0(spec_w(block, i - 15))), spec_sigma1(spec_w(block, i - 2))),
            spec_w(block, i - 7),
        )
    }
}

/// One compression round. `st` is the working state `[a,b,c,d,e,f,g,h]`
/// and `kw` the prepared round key `K[i] + W[i]`; the result is the state
/// after the textbook assignment chain.
pub open spec fn spec_round(st: Seq<u32>, kw: u32) -> Seq<u32> {
    let t1 = add32(add32(add32(st[7], spec_capsigma1(st[4])), spec_ch(st[4], st[5], st[6])), kw);
    let t2 = add32(spec_capsigma0(st[0]), spec_maj(st[0], st[1], st[2]));
    seq![add32(t1, t2), st[0], st[1], st[2], add32(st[3], t1), st[4], st[5], st[6]]
}

/// The working state after the first `n` rounds on one block.
pub open spec fn spec_rounds(st: Seq<u32>, block: Seq<u32>, n: nat) -> Seq<u32>
    decreases n,
{
    if n == 0 {
        st
    } else {
        spec_round(
            spec_rounds(st, block, (n - 1) as nat),
            add32(spec_k()[n - 1], spec_w(block, n - 1)),
        )
    }
}

/// One whole block: sixty-four rounds, then the chaining add.
pub open spec fn spec_compress(s: Seq<u32>, block: Seq<u32>) -> Seq<u32> {
    let a = spec_rounds(s, block, 64);
    Seq::new(8, |i: int| add32(s[i], a[i]))
}

/// The chaining state after the first `b` blocks of a padded word stream.
pub open spec fn spec_chain(ws: Seq<u32>, b: nat) -> Seq<u32>
    decreases b,
{
    if b == 0 {
        spec_h()
    } else {
        spec_compress(spec_chain(ws, (b - 1) as nat), ws.subrange(16 * (b - 1), 16 * b as int))
    }
}

/// The eight digest words of a padded word stream.
pub open spec fn spec_digest_words(ws: Seq<u32>) -> Seq<u32> {
    spec_chain(ws, ws.len() / 16)
}

/// The four big-endian bytes of one word.
pub open spec fn word_be_bytes(x: u32) -> Seq<u8> {
    seq![(x >> 24u32) as u8, (x >> 16u32) as u8, (x >> 8u32) as u8, x as u8]
}

/// A word sequence serialized big-endian, four bytes per word.
pub open spec fn words_be_bytes(ws: Seq<u32>) -> Seq<u8> {
    Seq::new(ws.len() * 4, |i: int| word_be_bytes(ws[i / 4])[i % 4])
}

/// SHA-256 of a byte stream: pad, view as big-endian words, compress the
/// blocks in order, serialize the final chaining state.
pub open spec fn spec_sha256(m: Seq<u8>) -> Seq<u8> {
    words_be_bytes(spec_digest_words(words_of(spec_pad(m))))
}

} // verus!

//! The SHA-256 bit-mixing helpers over encrypted words, and the plaintext
//! padding routine.

use vstd::prelude::*;
use tfhe::boolean::server_key::ServerKey;
use crate::u32ct::U32Ct;
use crate::sha256_spec::be64_bytes;
use crate::sha256_spec::pad_zero_count;
use crate::sha256_spec::spec_capsigma0;
use crate::sha256_spec::spec_capsigma1;
use crate::sha256_spec::spec_ch;
use crate::sha256_spec::spec_maj;
use crate::sha256_spec::spec_pad;
use crate::sha256_spec::spec_sigma0;
use crate::sha256_spec::spec_sigma1;

verus! {

/// SHA-256 padding on the plaintext bytes: append `0x80`, zero bytes up
/// to 56 modulo 64, then the message length in bits as a big-endian
/// 64-bit value. The result's length is a positive multiple of 64.
pub fn pad_message(msg: Vec<u8>) -> (r: Vec<u8>)
    requires
        msg@.len() * 8 <= u64::MAX,
        msg@.len() + 72 <= usize::MAX,
    ensures
        r@ == spec_pad(msg@),
{
    let ghost m = msg@;
    let len: usize = msg.len();
    let bitlen: u64 = (len as u64) * 8;
    let mut r = msg;
    r.push(0x80);
    let rem: usize = (len + 1) % 64;
    let zeros: usize = if rem <= 56 {
        56 - rem
    } else {
        120 - rem
    };
    proof {
        assert(r@ =~= m + seq![0x80u8] + Seq::new(0, |j: int| 0u8));
        assert(zeros == pad_zero_count(m.len()));
    }
    for i in 0..zeros
        invariant
            zeros == pad_zero_count(m.len()),
            m.len() + 72 <= usize::MAX,
            r@ == m + seq![0x80u8] + Seq::new(i as nat, |j: int| 0u8),
    {
        r.push(0x00);
        proof {
            assert(r@ =~= m + seq![0x80u8] + Seq::new((i + 1) as nat, |j: int| 0u8));
        }
    }
    r.push((bitlen >> 56) as u8);
    r.push((bitlen >> 48) as u8);
    r.push((bitlen >> 40) as u8);
    r.push((bitlen >> 32) as u8);
    r.push((bitlen >> 24) as u8);
    r.push((bitlen >> 16) as u8);
    r.push((bitlen >> 8) as u8);
    r.push(bitlen as u8);
    proof {
        assert(bitlen == (m.len() * 8) as u64);
        assert(r@ =~= m + seq![0x80u8] + Seq::new(pad_zero_count(m.len()), |j: int| 0u8)
            + be64_bytes((m.len() * 8) as u64));
    }
    r
}

/// `ROTR(x,7) xor ROTR(x,18) xor SHR(x,3)` over an encrypted word.
pub fn sigma0(x: &U32Ct, server_key: &ServerKey) -> (r: U32Ct)
    requires
        x.wf(),
    ensures
        r.wf(),
        r.val() == spec_sigma0(x.val()),
{
    let rotate_7 = x.rotate_right(7);
    let rotate_18 = x.rotate_right(18);
    let shift_3 = x.shift_right(3, server_key);
    let xor_7_18 = rotate_7.bitxor(&rotate_18, server_key);
    xor_7_18.bitxor(&shift_3, server_key)
}

/// `ROTR(x,17) xor ROTR(x,19) xor SHR(x,10)` over an encrypted word.
pub fn sigma1(x: &U32Ct, server_key: &ServerKey) -> (r: U32Ct)
    requires
        x.wf(),
    ensures
        r.wf(),
        r.val() == spec_sigma1(x.val()),
{
    let rotate_17 = x.rotate_right(17);
    let rotate_19 = x.rotate_right(19);
    let shift_10 = x.shift_right(10, server_key);
    let xor_17_19 = rotate_17.bitxor(&rotate_19, server_key);
    xor_17_19.bitxor(&shift_10, server_key)
}

/// `ROTR(x,2) xor ROTR(x,13) xor ROTR(x,22)` over an encrypted word.
pub fn capsigma0(x: &U32Ct, server_key: &ServerKey) -> (r: U32Ct)
    requires
        x.wf(),
    ensures
        r.wf(),
        r.val() == spec_capsigma0(x.val()),
{
    let rotate_2 = x.rotate_right(2);
    let rotate_13 = x.rotate_right(13);
    let rotate_22 = x.rotate_right(22);
    let xor_2_13 = rotate_2.bitxor(&rotate_13, server_key);
    xor_2_13.bitxor(&rotate_22, server_key)
}

/// `ROTR(x,6) xor ROTR(x,11) xor ROTR(x,25)` over an encrypted word.
pub fn capsigma1(x: &U32Ct, server_key: &ServerKey) -> (r: U32Ct)
    requires
        x.wf(),
    ensures
        r.wf(),
        r.val() == spec_capsigma1(x.val()),
{
    let rotate_6 = x.rotate_right(6);
    let rotate_11 = x.rotate_right(11);
    let rotate_25 = x.rotate_right(25);
    let xor_6_11 = rotate_6.bitxor(&rotate_11, server_key);
    xor_6_11.bitxor(&rotate_25, server_key)
}

/// The choice mixer `CH(x,y,z)` over encrypted words.
pub fn ch(x: &U32Ct, y: &U32Ct, z: &U32Ct, server_key: &ServerKey) -> (r: U32Ct)
    requires
        x.wf(),
        y.wf(),
        z.wf(),
    ensures
        r.wf(),
        r.val() == spec_ch(x.val(), y.val(), z.val()),
{
    let left = x.bitand(y, server_key);
    let not_x = x.bitnot(server_key);
    let right = not_x.bitand(z, server_key);
    left.bitxor(&right, server_key)
}

/// The majority mixer `MAJ(x,y,z)` over encrypted words.
pub fn maj(x: &U32Ct, y: &U32Ct, z: &U32Ct, server_key: &ServerKey) -> (r: U32Ct)
    requires
        x.wf(),
        y.wf(),
        z.wf(),
    ensures
        r.wf(),
        r.val() == spec_maj(x.val(), y.val(), z.val()),
{
    let left = x.bitand(y, server_key);
    let middle = x.bitand(z, server_key);
    let right = y.bitand(z, server_key);
    let fold_l = left.bitxor(&middle, server_key);
    fold_l.bitxor(&right, server_key)
}

} // verus!

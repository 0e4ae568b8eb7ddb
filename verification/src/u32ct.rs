//! The encrypted 32-bit word and its arithmetic and logic circuits.
//!
//! A `U32Ct` is exactly 32 bit ciphertexts, least-significant first: slot
//! `i` carries integer bit `i`. Every operation is proved against the
//! plaintext it stands for: addition is modular addition, the bitwise
//! operations match the native `u32` operations, rotation and shift
//! permute the bits of the value.

use vstd::prelude::*;
use vstd::arithmetic::power2::pow2;
use vstd::arithmetic::power2::lemma_pow2_unfold;
use vstd::arithmetic::power2::lemma_pow2_strictly_increases;
use vstd::arithmetic::power2::lemma2_to64;
use vstd::arithmetic::div_mod::lemma_small_mod;
use vstd::arithmetic::div_mod::lemma_mod_add_multiples_vanish;
use tfhe::boolean::client_key::ClientKey;
use tfhe::boolean::server_key::ServerKey;
use crate::gates::BitCt;
use crate::gates::bit_and;
use crate::gates::bit_decrypt;
use crate::gates::bit_encrypt;
use crate::gates::bit_not;
use crate::gates::bit_or;
use crate::gates::bit_trivial_encrypt;
use crate::gates::bit_xor;
use crate::word::add32;
use crate::word::lemma_bit_and;
use crate::word::lemma_bit_not;
use crate::word::lemma_bit_or;
use crate::word::lemma_bit_rotr;
use crate::word::lemma_bit_shr;
use crate::word::lemma_bit_xor;
use crate::word::lemma_bits_from_val;
use crate::word::lemma_u32_bits_val;
use crate::word::lemma_val_from_bits;
use crate::word::lemma_word_val_bound;
use crate::word::lemma_word_val_push;
use crate::word::lemma_word_val_skip;
use crate::word::rotr32;
use crate::word::u32_bit;
use crate::word::u32_bits;
use crate::word::word_val;

verus! {

/// An encrypted 32-bit word: 32 bit ciphertexts, least-significant first.
pub struct U32Ct {
    bits: Vec<BitCt>,
}

impl View for U32Ct {
    type V = Seq<bool>;

    /// The plaintext bits this word stands for, least-significant first.
    closed spec fn view(&self) -> Seq<bool> {
        self.bits@.map_values(|b: BitCt| b@)
    }
}

impl U32Ct {
    /// Exactly 32 bit slots.
    pub open spec fn wf(&self) -> bool {
        self@.len() == 32
    }

    /// The plaintext integer this word stands for.
    pub open spec fn val(&self) -> u32 {
        word_val(self@) as u32
    }

    /// Whether this word holds exactly 32 bit slots.
    pub fn is_well_formed(&self) -> (b: bool)
        ensures
            b == self.wf(),
    {
        self.bits.len() == 32
    }

    /// Assemble a word from bit ciphertexts, least-significant first;
    /// refused unless exactly 32 are given.
    pub fn from_bit_cts(bits: Vec<BitCt>) -> (r: Option<U32Ct>)
        ensures
            r is Some <==> bits@.len() == 32,
            r is Some ==> r->0.wf() && r->0@ == bits@.map_values(|b: BitCt| b@),
    {
        if bits.len() == 32 {
            Some(U32Ct { bits })
        } else {
            None
        }
    }

    /// The bit ciphertexts of this word, least-significant first.
    pub fn into_bit_cts(self) -> (r: Vec<BitCt>)
        ensures
            r@.map_values(|b: BitCt| b@) == self@,
    {
        self.bits
    }

    /// Encrypt a word under the client key, one bit ciphertext per bit.
    pub fn encrypt(x: u32, client_key: &ClientKey) -> (r: Self)
        ensures
            r.wf(),
            r@ == u32_bits(x),
            r.val() == x,
    {
        let bs = bits(x);
        let mut v: Vec<BitCt> = Vec::new();
        for i in 0..32usize
            invariant
                bs@ == u32_bits(x),
                v@.len() == i,
                forall|j: int| 0 <= j < i ==> v@[j]@ == u32_bits(x)[j],
        {
            v.push(bit_encrypt(bs[i], client_key));
        }
        let r = U32Ct { bits: v };
        proof {
            assert(r@ =~= u32_bits(x));
            lemma_u32_bits_val(x);
        }
        r
    }

    /// Lift a publicly known word into the circuit via trivial encryption.
    pub fn trivial_encrypt(x: u32, server_key: &ServerKey) -> (r: Self)
        ensures
            r.wf(),
            r@ == u32_bits(x),
            r.val() == x,
    {
        let bs = bits(x);
        let mut v: Vec<BitCt> = Vec::new();
        for i in 0..32usize
            invariant
                bs@ == u32_bits(x),
                v@.len() == i,
                forall|j: int| 0 <= j < i ==> v@[j]@ == u32_bits(x)[j],
        {
            v.push(bit_trivial_encrypt(bs[i], server_key));
        }
        let r = U32Ct { bits: v };
        proof {
            assert(r@ =~= u32_bits(x));
            lemma_u32_bits_val(x);
        }
        r
    }

    /// Decrypt this word with the client key of the computation.
    pub fn decrypt(&self, client_key: &ClientKey) -> (r: u32)
        requires
            self.wf(),
        ensures
            r == self.val(),
    {
        let mut bs: Vec<bool> = Vec::new();
        for i in 0..32usize
            invariant
                self.wf(),
                self.bits@.len() == 32,
                bs@.len() == i,
                forall|j: int| 0 <= j < i ==> bs@[j] == self@[j],
        {
            bs.push(bit_decrypt(&self.bits[i], client_key));
        }
        proof {
            assert(bs@ =~= self@);
            lemma_word_val_bound(self@);
            lemma2_to64();
        }
        from_bits(bs)
    }

    /// Modular addition through a ripple-carry chain of full adders; the
    /// final carry is discarded, so the sum is taken modulo `2^32`.
    pub fn add(&self, other: &Self, server_key: &ServerKey) -> (r: Self)
        requires
            self.wf(),
            other.wf(),
        ensures
            r.wf(),
            r.val() == add32(self.val(), other.val()),
    {
        let mut carry = bit_trivial_encrypt(false, server_key);
        let mut v: Vec<BitCt> = Vec::new();
        proof {
            assert(v@.map_values(|b: BitCt| b@) =~= Seq::<bool>::empty());
            assert(self@.take(0) =~= Seq::<bool>::empty());
            assert(other@.take(0) =~= Seq::<bool>::empty());
            assert(word_val(Seq::<bool>::empty()) == 0);
            assert(pow2(0) * bit_weight(carry@) == 0) by (nonlinear_arith)
                requires
                    bit_weight(carry@) == 0,
            ;
        }
        for i in 0..32usize
            invariant
                self.wf(),
                other.wf(),
                self.bits@.len() == 32,
                other.bits@.len() == 32,
                v@.len() == i,
                word_val(v@.map_values(|b: BitCt| b@)) + pow2(i as nat) * bit_weight(carry@)
                    == word_val(self@.take(i as int)) + word_val(other@.take(i as int)),
        {
            let ghost m = v@.map_values(|b: BitCt| b@);
            let ghost c0 = carry@;
            let (s, c) = full_adder(&self.bits[i], &other.bits[i], &carry, server_key);
            carry = c;
            v.push(s);
            proof {
                assert(v@.map_values(|b: BitCt| b@) =~= m.push(s@));
                lemma_word_val_push(m, s@);
                assert(self@.take(i + 1) =~= self@.take(i as int).push(self@[i as int]));
                assert(other@.take(i + 1) =~= other@.take(i as int).push(other@[i as int]));
                lemma_word_val_push(self@.take(i as int), self@[i as int]);
                lemma_word_val_push(other@.take(i as int), other@[i as int]);
                lemma_pow2_unfold((i + 1) as nat);
                lemma_adder_step(
                    pow2(i as nat),
                    word_val(m),
                    bit_weight(c0),
                    bit_weight(self@[i as int]),
                    bit_weight(other@[i as int]),
                    bit_weight(s@),
                    bit_weight(carry@),
                    word_val(self@.take(i as int)),
                    word_val(other@.take(i as int)),
                );
            }
        }
        let r = U32Ct { bits: v };
        proof {
            assert(self@.take(32) =~= self@);
            assert(other@.take(32) =~= other@);
            assert(r@ =~= v@.map_values(|b: BitCt| b@));
            lemma_word_val_bound(r@);
            lemma_word_val_bound(self@);
            lemma_word_val_bound(other@);
            lemma2_to64();
            lemma_wrap_to_mod(
                word_val(r@),
                bit_weight(carry@),
                word_val(self@),
                word_val(other@),
            );
        }
        r
    }

    /// Bitwise exclusive or, one homomorphic gate per bit lane.
    pub fn bitxor(&self, other: &Self, server_key: &ServerKey) -> (r: Self)
        requires
            self.wf(),
            other.wf(),
        ensures
            r.wf(),
            r.val() == self.val() ^ other.val(),
    {
        let mut v: Vec<BitCt> = Vec::new();
        for i in 0..32usize
            invariant
                self.wf(),
                other.wf(),
                self.bits@.len() == 32,
                other.bits@.len() == 32,
                v@.len() == i,
                forall|j: int| 0 <= j < i ==> v@[j]@ == (self@[j] != other@[j]),
        {
            v.push(bit_xor(&self.bits[i], &other.bits[i], server_key));
        }
        let r = U32Ct { bits: v };
        proof {
            let x = self.val();
            let y = other.val();
            lemma_bits_from_val(self@);
            lemma_bits_from_val(other@);
            assert forall|i: u32| i < 32 implies r@[i as int] == u32_bit(x ^ y, i) by {
                lemma_bit_xor(x, y, i);
                assert(r@[i as int] == v@[i as int]@);
                assert(v@[i as int]@ == (self@[i as int] != other@[i as int]));
                assert(self@[i as int] == u32_bit(x, i));
                assert(other@[i as int] == u32_bit(y, i));
            }
            lemma_val_from_bits(r@, x ^ y);
        }
        r
    }

    /// Bitwise conjunction, one homomorphic gate per bit lane.
    pub fn bitand(&self, other: &Self, server_key: &ServerKey) -> (r: Self)
        requires
            self.wf(),
            other.wf(),
        ensures
            r.wf(),
            r.val() == self.val() & other.val(),
    {
        let mut v: Vec<BitCt> = Vec::new();
        for i in 0..32usize
            invariant
                self.wf(),
                other.wf(),
                self.bits@.len() == 32,
                other.bits@.len() == 32,
                v@.len() == i,
                forall|j: int| 0 <= j < i ==> v@[j]@ == (self@[j] && other@[j]),
        {
            v.push(bit_and(&self.bits[i], &other.bits[i], server_key));
        }
        let r = U32Ct { bits: v };
        proof {
            let x = self.val();
            let y = other.val();
            lemma_bits_from_val(self@);
            lemma_bits_from_val(other@);
            assert forall|i: u32| i < 32 implies r@[i as int] == u32_bit(x & y, i) by {
                lemma_bit_and(x, y, i);
                assert(r@[i as int] == v@[i as int]@);
                assert(v@[i as int]@ == (self@[i as int] && other@[i as int]));
                assert(self@[i as int] == u32_bit(x, i));
                assert(other@[i as int] == u32_bit(y, i));
            }
            lemma_val_from_bits(r@, x & y);
        }
        r
    }

    /// Bitwise disjunction, one homomorphic gate per bit lane.
    pub fn bitor(&self, other: &Self, server_key: &ServerKey) -> (r: Self)
        requires
            self.wf(),
            other.wf(),
        ensures
            r.wf(),
            r.val() == self.val() | other.val(),
    {
        let mut v: Vec<BitCt> = Vec::new();
        for i in 0..32usize
            invariant
                self.wf(),
                other.wf(),
                self.bits@.len() == 32,
                other.bits@.len() == 32,
                v@.len() == i,
                forall|j: int| 0 <= j < i ==> v@[j]@ == (self@[j] || other@[j]),
        {
            v.push(bit_or(&self.bits[i], &other.bits[i], server_key));
        }
        let r = U32Ct { bits: v };
        proof {
            let x = self.val();
            let y = other.val();
            lemma_bits_from_val(self@);
            lemma_bits_from_val(other@);
            assert forall|i: u32| i < 32 implies r@[i as int] == u32_bit(x | y, i) by {
                lemma_bit_or(x, y, i);
                assert(r@[i as int] == v@[i as int]@);
                assert(v@[i as int]@ == (self@[i as int] || other@[i as int]));
                assert(self@[i as int] == u32_bit(x, i));
                assert(other@[i as int] == u32_bit(y, i));
            }
            lemma_val_from_bits(r@, x | y);
        }
        r
    }

    /// Bitwise complement, one homomorphic gate per bit lane.
    pub fn bitnot(&self, server_key: &ServerKey) -> (r: Self)
        requires
            self.wf(),
        ensures
            r.wf(),
            r.val() == !self.val(),
    {
        let mut v: Vec<BitCt> = Vec::new();
        for i in 0..32usize
            invariant
                self.wf(),
                self.bits@.len() == 32,
                v@.len() == i,
                forall|j: int| 0 <= j < i ==> v@[j]@ == !self@[j],
        {
            v.push(bit_not(&self.bits[i], server_key));
        }
        let r = U32Ct { bits: v };
        proof {
            let x = self.val();
            lemma_bits_from_val(self@);
            assert forall|i: u32| i < 32 implies r@[i as int] == u32_bit(!x, i) by {
                lemma_bit_not(x, i);
                assert(r@[i as int] == v@[i as int]@);
                assert(v@[i as int]@ == !self@[i as int]);
                assert(self@[i as int] == u32_bit(x, i));
            }
            lemma_val_from_bits(r@, !x);
        }
        r
    }

    /// Rotate the integer right; the amount is taken modulo 32. Rotating
    /// the integer right moves the bit ciphertexts towards lower slots,
    /// a pure index permutation without gate evaluation.
    pub fn rotate_right(&self, shift: usize) -> (r: Self)
        requires
            self.wf(),
        ensures
            r.wf(),
            r.val() == rotr32(self.val(), (shift % 32) as u32),
    {
        let s: usize = shift % 32;
        let mut v: Vec<BitCt> = Vec::new();
        for i in 0..32usize
            invariant
                self.wf(),
                self.bits@.len() == 32,
                s == shift % 32,
                v@.len() == i,
                forall|j: int| 0 <= j < i ==> v@[j]@ == self@[(j + s) % 32],
        {
            let idx: usize = (i + s) % 32;
            v.push(self.bits[idx].clone());
        }
        let r = U32Ct { bits: v };
        proof {
            let x = self.val();
            let k: u32 = (shift % 32) as u32;
            lemma_bits_from_val(self@);
            assert forall|i: u32| i < 32 implies r@[i as int] == u32_bit(rotr32(x, k), i) by {
                lemma_bit_rotr(x, k, i);
                assert(r@[i as int] == self@[(i + k) as int % 32]);
            }
            lemma_val_from_bits(r@, rotr32(x, k));
        }
        r
    }

    /// Logical right shift of the integer by less than 32: the bit
    /// ciphertexts move towards lower slots and the freed top slots are
    /// filled with trivial encryptions of zero.
    pub fn shift_right(&self, shift: usize, server_key: &ServerKey) -> (r: Self)
        requires
            self.wf(),
            shift < 32,
        ensures
            r.wf(),
            r.val() == self.val() >> (shift as u32),
    {
        let mut v: Vec<BitCt> = Vec::new();
        for i in 0..32usize
            invariant
                self.wf(),
                self.bits@.len() == 32,
                shift < 32,
                v@.len() == i,
                forall|j: int|
                    0 <= j < i ==> v@[j]@ == (if j + shift < 32 {
                        self@[j + shift]
                    } else {
                        false
                    }),
        {
            if i + shift < 32 {
                let idx: usize = i + shift;
                v.push(self.bits[idx].clone());
            } else {
                v.push(bit_trivial_encrypt(false, server_key));
            }
        }
        let r = U32Ct { bits: v };
        proof {
            let x = self.val();
            let k: u32 = shift as u32;
            lemma_bits_from_val(self@);
            assert forall|i: u32| i < 32 implies r@[i as int] == u32_bit(x >> k, i) by {
                lemma_bit_shr(x, k, i);
            }
            lemma_val_from_bits(r@, x >> k);
        }
        r
    }
}

impl Clone for U32Ct {
    /// Clone every bit ciphertext; the plaintext word is unchanged.
    fn clone(&self) -> (r: Self)
        ensures
            r@ == self@,
    {
        let mut v: Vec<BitCt> = Vec::new();
        let n: usize = self.bits.len();
        for i in 0..n
            invariant
                n == self.bits@.len(),
                v@.len() == i,
                forall|j: int| 0 <= j < i ==> v@[j]@ == self@[j],
        {
            v.push(self.bits[i].clone());
        }
        let r = U32Ct { bits: v };
        proof {
            assert(r@ =~= self@);
        }
        r
    }
}

/// The plaintext integers a sequence of encrypted words stands for.
pub open spec fn word_vals(s: Seq<U32Ct>) -> Seq<u32> {
    s.map_values(|w: U32Ct| w.val())
}

/// The weight a bit contributes to a sum: one or zero.
pub open spec fn bit_weight(b: bool) -> nat {
    if b {
        1nat
    } else {
        0nat
    }
}

proof fn lemma_adder_step(
    p: nat,
    m: nat,
    c: nat,
    a: nat,
    b: nat,
    s: nat,
    c2: nat,
    ta: nat,
    tb: nat,
)
    by (nonlinear_arith)
    requires
        m + p * c == ta + tb,
        s + 2 * c2 == a + b + c,
    ensures
        (m + p * s) + (2 * p) * c2 == (ta + p * a) + (tb + p * b),
{
}

proof fn lemma_wrap_to_mod(m: nat, c: nat, x: nat, y: nat)
    requires
        m < 0x1_0000_0000,
        c <= 1,
        m + 0x1_0000_0000 * c == x + y,
        x < 0x1_0000_0000,
        y < 0x1_0000_0000,
    ensures
        m == (x + y) % 0x1_0000_0000,
{
    if c == 0 {
        lemma_small_mod((x + y) as nat, 0x1_0000_0000);
    } else {
        lemma_mod_add_multiples_vanish(m as int, 0x1_0000_0000);
        lemma_small_mod(m, 0x1_0000_0000);
    }
}

/// The one-bit full adder: sum and carry-out of two addend bits and a
/// carry-in (`sum = a xor b xor c`; `carry = ((a xor b) and c) or (a and b)`).
pub fn full_adder(a: &BitCt, b: &BitCt, c_in: &BitCt, server_key: &ServerKey) -> (r: (BitCt, BitCt))
    ensures
        r.0@ == ((a@ != b@) != c_in@),
        r.1@ == (((a@ != b@) && c_in@) || (a@ && b@)),
{
    let a_xor_b = bit_xor(a, b, server_key);
    let s = bit_xor(&a_xor_b, c_in, server_key);
    let axb_and_c_in = bit_and(&a_xor_b, c_in, server_key);
    let a_and_b = bit_and(a, b, server_key);
    let c_out = bit_or(&axb_and_c_in, &a_and_b, server_key);
    (s, c_out)
}

/// The 32 bits of a word, least-significant first.
pub fn bits(x: u32) -> (r: Vec<bool>)
    ensures
        r@ == u32_bits(x),
{
    let mut r: Vec<bool> = Vec::new();
    for i in 0..32u32
        invariant
            r@.len() == i,
            forall|j: int| 0 <= j < i ==> r@[j] == u32_bit(x, j as u32),
    {
        r.push((x >> i) & 1 == 1);
    }
    proof {
        assert(r@ =~= u32_bits(x));
    }
    r
}

/// Reassemble a word from its 32 bits, least-significant first.
pub fn from_bits(bits: Vec<bool>) -> (r: u32)
    requires
        bits@.len() == 32,
    ensures
        r == word_val(bits@),
{
    let mut acc: u32 = 0;
    proof {
        lemma2_to64();
        assert(bits@.skip(32) =~= Seq::<bool>::empty());
    }
    for i in 0..32usize
        invariant
            bits@.len() == 32,
            acc == word_val(bits@.skip(32 - i)),
            acc < pow2(i as nat),
    {
        let j: usize = 31 - i;
        let b = bits[j];
        proof {
            lemma_word_val_skip(bits@, j as int);
            lemma_pow2_unfold((i + 1) as nat);
            if i < 31 {
                lemma_pow2_strictly_increases(i as nat, 31);
            }
            lemma2_to64();
        }
        acc = acc * 2 + (if b {
            1
        } else {
            0
        });
    }
    proof {
        assert(bits@.skip(0) =~= bits@);
    }
    acc
}

} // verus!

//! The plaintext model of a 32-bit word held as a sequence of bits.
//!
//! An encrypted word stores its 32 bit ciphertexts least-significant first:
//! slot `i` carries integer bit `i`. `word_val` gives the integer a bit
//! sequence stands for, and `u32_bits` decomposes a `u32` into its bits.
//! The lemmas here connect the two directions and let the word operations
//! turn per-bit facts into facts about `u32` values.

use vstd::prelude::*;
use vstd::arithmetic::power2::*;
use vstd::arithmetic::div_mod::*;

verus! {

/// The integer a bit sequence stands for, least-significant bit first.
pub open spec fn word_val(s: Seq<bool>) -> nat
    decreases s.len(),
{
    if s.len() == 0 {
        0
    } else {
        ((if s[0] {
            1nat
        } else {
            0nat
        }) + 2 * word_val(s.skip(1))) as nat
    }
}

/// Integer bit `i` of `x`.
pub open spec fn u32_bit(x: u32, i: u32) -> bool {
    (x >> i) & 1 == 1
}

/// The 32 bits of `x`, least-significant first.
pub open spec fn u32_bits(x: u32) -> Seq<bool> {
    Seq::new(32, |i: int| u32_bit(x, i as u32))
}

/// A sequence of `n` bits stands for an integer below `pow2(n)`.
pub proof fn lemma_word_val_bound(s: Seq<bool>)
    ensures
        word_val(s) < pow2(s.len()),
    decreases s.len(),
{
    if s.len() == 0 {
        lemma2_to64();
    } else {
        lemma_word_val_bound(s.skip(1));
        lemma_pow2_unfold(s.len());
    }
}

proof fn lemma_bit_zero(x: u32)
    by (bit_vector)
    ensures
        (x >> 0u32) & 1 == x % 2,
{
}

proof fn lemma_bit_succ(x: u32, i: u32)
    by (bit_vector)
    requires
        i < 31,
    ensures
        (x >> ((i + 1) as u32)) & 1 == ((x / 2) >> i) & 1,
{
}

/// The bits of `x` taken back as an integer give `x`: the round trip of
/// decomposing a word into bits and reassembling it is the identity.
pub proof fn lemma_u32_bits_val(x: u32)
    ensures
        word_val(u32_bits(x)) == x,
{
    lemma_bits_prefix_val(x, 32);
    lemma2_to64();
    assert((x as int) % (pow2(32) as int) == x) by {
        lemma_small_mod(x as nat, pow2(32));
    }
}

spec fn bits_prefix(x: u32, n: nat) -> Seq<bool> {
    Seq::new(n, |i: int| u32_bit(x, i as u32))
}

proof fn lemma_bits_prefix_val(x: u32, n: nat)
    requires
        n <= 32,
    ensures
        word_val(bits_prefix(x, n)) == (x as int) % (pow2(n) as int),
    decreases n,
{
    lemma_pow2_pos(n);
    if n == 0 {
        lemma2_to64();
    } else {
        let s = bits_prefix(x, n);
        let x2: u32 = x / 2;
        assert(s.skip(1) =~= bits_prefix(x2, (n - 1) as nat)) by {
            assert forall|i: int| 0 <= i < n - 1 implies s.skip(1)[i] == bits_prefix(
                x2,
                (n - 1) as nat,
            )[i] by {
                lemma_bit_succ(x, i as u32);
            }
        }
        lemma_bits_prefix_val(x2, (n - 1) as nat);
        lemma_bit_zero(x);
        lemma_pow2_unfold(n);
        lemma_pow2_pos((n - 1) as nat);
        assert((x as int) % (pow2(n) as int) == 2 * (((x / 2) as int) % (pow2((n - 1) as nat) as int)) + (x as int)
            % 2) by {
            lemma_breakdown(x as int, 2, pow2((n - 1) as nat) as int);
        }
    }
}

/// Two bit sequences of one length standing for the same integer are equal.
pub proof fn lemma_word_val_injective(s: Seq<bool>, t: Seq<bool>)
    requires
        s.len() == t.len(),
        word_val(s) == word_val(t),
    ensures
        s =~= t,
    decreases s.len(),
{
    if s.len() > 0 {
        assert(s[0] == t[0]);
        lemma_word_val_injective(s.skip(1), t.skip(1));
        assert forall|i: int| 0 <= i < s.len() implies s[i] == t[i] by {
            if i > 0 {
                assert(s.skip(1)[i - 1] == t.skip(1)[i - 1]);
            }
        }
    }
}

/// A 32-bit sequence whose bits all agree with the bits of `z` stands for `z`.
pub proof fn lemma_val_from_bits(s: Seq<bool>, z: u32)
    requires
        s.len() == 32,
        forall|i: u32| i < 32 ==> s[i as int] == u32_bit(z, i),
    ensures
        word_val(s) == z,
{
    assert(s =~= u32_bits(z));
    lemma_u32_bits_val(z);
}

/// A 32-bit sequence stands for a `u32`, and each of its slots holds the
/// matching bit of that value.
pub proof fn lemma_bits_from_val(s: Seq<bool>)
    requires
        s.len() == 32,
    ensures
        word_val(s) < 0x1_0000_0000,
        forall|i: u32| i < 32 ==> s[i as int] == u32_bit((word_val(s) as u32), i),
{
    lemma_word_val_bound(s);
    lemma2_to64();
    let z: u32 = word_val(s) as u32;
    lemma_u32_bits_val(z);
    lemma_word_val_injective(s, u32_bits(z));
}

/// Reading one slot peels its bit off the value of the tail.
pub proof fn lemma_word_val_skip(s: Seq<bool>, j: int)
    requires
        0 <= j < s.len(),
    ensures
        word_val(s.skip(j)) == (if s[j] {
            1nat
        } else {
            0nat
        }) + 2 * word_val(s.skip(j + 1)),
{
    assert(s.skip(j).skip(1) =~= s.skip(j + 1));
    assert(s.skip(j)[0] == s[j]);
}

/// 32-bit modular addition.
pub open spec fn add32(x: u32, y: u32) -> u32 {
    ((x + y) % 0x1_0000_0000) as u32
}

/// Right rotation of a 32-bit word; the amount is taken modulo 32.
pub open spec fn rotr32(x: u32, k: u32) -> u32 {
    if k % 32 == 0 {
        x
    } else {
        (x >> (k % 32)) | (x << ((32 - k % 32) as u32))
    }
}

/// Bit `i` of an exclusive or is the exclusive or of the bits.
pub proof fn lemma_bit_xor(x: u32, y: u32, i: u32)
    by (bit_vector)
    requires
        i < 32,
    ensures
        u32_bit(x ^ y, i) == (u32_bit(x, i) != u32_bit(y, i)),
{
}

/// Bit `i` of a conjunction is the conjunction of the bits.
pub proof fn lemma_bit_and(x: u32, y: u32, i: u32)
    by (bit_vector)
    requires
        i < 32,
    ensures
        u32_bit(x & y, i) == (u32_bit(x, i) && u32_bit(y, i)),
{
}

/// Bit `i` of a disjunction is the disjunction of the bits.
pub proof fn lemma_bit_or(x: u32, y: u32, i: u32)
    by (bit_vector)
    requires
        i < 32,
    ensures
        u32_bit(x | y, i) == (u32_bit(x, i) || u32_bit(y, i)),
{
}

/// Bit `i` of a complement is the negated bit.
pub proof fn lemma_bit_not(x: u32, i: u32)
    by (bit_vector)
    requires
        i < 32,
    ensures
        u32_bit(!x, i) == !u32_bit(x, i),
{
}

/// Bit `i` of a right rotation by `k` is bit `(i + k) % 32` of the word.
pub proof fn lemma_bit_rotr(x: u32, k: u32, i: u32)
    by (bit_vector)
    requires
        k < 32,
        i < 32,
    ensures
        u32_bit(rotr32(x, k), i) == u32_bit(x, ((i + k) as u32) % 32),
{
}

/// Bit `i` of a logical right shift by `k` is bit `i + k` of the word, or
/// zero once the shift runs off the top.
pub proof fn lemma_bit_shr(x: u32, k: u32, i: u32)
    by (bit_vector)
    requires
        k < 32,
        i < 32,
    ensures
        u32_bit(x >> k, i) == if i + k < 32 {
            u32_bit(x, (i + k) as u32)
        } else {
            false
        },
{
}

/// Appending a bit adds its weighted value.
pub proof fn lemma_word_val_push(s: Seq<bool>, b: bool)
    ensures
        word_val(s.push(b)) == word_val(s) + pow2(s.len()) * (if b {
            1nat
        } else {
            0nat
        }),
    decreases s.len(),
{
    if s.len() == 0 {
        assert(s.push(b).skip(1) =~= Seq::<bool>::empty());
        lemma2_to64();
        assert(word_val(Seq::<bool>::empty()) == 0);
    } else {
        assert(s.push(b).skip(1) =~= s.skip(1).push(b));
        lemma_word_val_push(s.skip(1), b);
        lemma_pow2_unfold(s.len());
        let bv: nat = if b {
            1nat
        } else {
            0nat
        };
        let p: nat = pow2((s.len() - 1) as nat);
        assert(2 * (word_val(s.skip(1)) + p * bv) == 2 * word_val(s.skip(1)) + (2 * p)
            * bv) by (nonlinear_arith);
        assert(word_val(s.push(b)) == (if s[0] {
            1nat
        } else {
            0nat
        }) + 2 * word_val(s.skip(1).push(b)));
        assert(word_val(s.push(b)) == word_val(s) + pow2(s.len()) * bv);
    }
}

} // verus!

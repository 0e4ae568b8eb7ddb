//! Homomorphic evaluation of SHA-256 over a gate-level boolean FHE scheme.
//!
//! A client encrypts a byte stream bit by bit under its secret key; the
//! server, holding only the evaluation key, runs the SHA-256 circuit over
//! the encrypted bits and returns an encrypted digest; the client decrypts
//! exactly the digest that plain SHA-256 of the message would have produced.
//!
//! The circuit is verified: every word-level operation and the compression
//! function carry contracts that tie the plaintext of their output to the
//! mathematical SHA-256 of the plaintext of their input. Only the bit-level
//! gates of the underlying FHE library are trusted.

pub mod constants;
pub mod gates;
pub mod sha256_spec;
pub mod u32ct;
pub mod util;
pub mod word;

use vstd::prelude::*;
use vstd::arithmetic::div_mod::lemma_fundamental_div_mod;
use vstd::arithmetic::div_mod::lemma_fundamental_div_mod_converse;
use vstd::pervasive::VecAdditionalExecFns;
use tfhe::boolean::client_key::ClientKey;
use tfhe::boolean::server_key::ServerKey;
use crate::constants::h_table;
use crate::constants::k_table;
use crate::constants::spec_h;
use crate::constants::spec_k;
use crate::sha256_spec::be_word;
use crate::sha256_spec::spec_chain;
use crate::sha256_spec::spec_compress;
use crate::sha256_spec::spec_digest_words;
use crate::sha256_spec::spec_pad;
use crate::sha256_spec::spec_round;
use crate::sha256_spec::spec_sha256;
use crate::sha256_spec::spec_rounds;
use crate::sha256_spec::spec_w;
use crate::sha256_spec::lemma_spec_pad_len;
use crate::sha256_spec::word_be_bytes;
use crate::sha256_spec::words_be_bytes;
use crate::sha256_spec::words_of;
use crate::u32ct::U32Ct;
use crate::u32ct::word_vals;
use crate::util::capsigma0;
use crate::util::capsigma1;
use crate::util::ch;
use crate::util::maj;
use crate::util::pad_message;
use crate::util::sigma0;
use crate::util::sigma1;

verus! {

/// A padded input to the SHA-256 hash function as a ciphertext: a
/// sequence of encrypted big-endian 32-bit words whose length is a
/// positive multiple of 16. Its view is the sequence of plaintext words.
pub struct InputCiphertext {
    inner: Vec<U32Ct>,
}

impl View for InputCiphertext {
    type V = Seq<u32>;

    closed spec fn view(&self) -> Seq<u32> {
        word_vals(self.inner@)
    }
}

impl InputCiphertext {
    /// Every word holds 32 bit slots, and the word count is a positive
    /// multiple of 16: whole 512-bit blocks.
    pub closed spec fn wf(&self) -> bool {
        &&& forall|i: int| 0 <= i < self.inner@.len() ==> self.inner@[i].wf()
        &&& self.inner@.len() % 16 == 0
        &&& self.inner@.len() >= 16
    }

    /// The view mirrors the word count.
    pub proof fn lemma_wf_len(&self)
        requires
            self.wf(),
        ensures
            self@.len() % 16 == 0,
            self@.len() >= 16,
    {
    }

    /// Assemble an input from encrypted words, for values that arrive
    /// from outside the circuit; refused unless every word is well formed
    /// and the count is a positive multiple of 16.
    pub fn from_words(words: Vec<U32Ct>) -> (r: Option<InputCiphertext>)
        ensures
            r is Some <==> (words@.len() % 16 == 0 && words@.len() >= 16 && forall|i: int|
                0 <= i < words@.len() ==> (#[trigger] words@[i]).wf()),
            r is Some ==> r->0.wf() && r->0@ == word_vals(words@),
    {
        if words.len() % 16 != 0 || words.len() < 16 {
            return None;
        }
        let n: usize = words.len();
        for i in 0..n
            invariant
                n == words@.len(),
                forall|j: int| 0 <= j < i ==> (#[trigger] words@[j]).wf(),
        {
            if !words[i].is_well_formed() {
                return None;
            }
        }
        Some(InputCiphertext { inner: words })
    }

    /// The encrypted words of this input.
    pub fn into_words(self) -> (r: Vec<U32Ct>)
        ensures
            word_vals(r@) == self@,
    {
        self.inner
    }
}

impl Clone for InputCiphertext {
    /// Clone every encrypted word; the plaintext words are unchanged.
    fn clone(&self) -> (r: Self)
        ensures
            r@ == self@,
            self.wf() ==> r.wf(),
    {
        let inner = clone_words(&self.inner);
        let r = InputCiphertext { inner };
        proof {
            assert(r@ =~= self@);
            assert forall|i: int| 0 <= i < r.inner@.len() && self.wf() implies (
            #[trigger] r.inner@[i]).wf() by {
                assert(r.inner@[i]@ == self.inner@[i]@);
            }
        }
        r
    }
}

/// A SHA-256 digest as a ciphertext: eight encrypted words in big-endian
/// word order. Its view is the sequence of plaintext words.
pub struct DigestCiphertext {
    inner: Vec<U32Ct>,
}

impl View for DigestCiphertext {
    type V = Seq<u32>;

    closed spec fn view(&self) -> Seq<u32> {
        word_vals(self.inner@)
    }
}

impl DigestCiphertext {
    /// Exactly eight well-formed encrypted words.
    pub closed spec fn wf(&self) -> bool {
        &&& forall|i: int| 0 <= i < self.inner@.len() ==> self.inner@[i].wf()
        &&& self.inner@.len() == 8
    }

    /// The view mirrors the word count.
    pub proof fn lemma_wf_len(&self)
        requires
            self.wf(),
        ensures
            self@.len() == 8,
    {
    }

    /// Assemble a digest from encrypted words, for values that arrive
    /// from outside the circuit; refused unless exactly eight well-formed
    /// words are given.
    pub fn from_words(words: Vec<U32Ct>) -> (r: Option<DigestCiphertext>)
        ensures
            r is Some <==> (words@.len() == 8 && forall|i: int|
                0 <= i < words@.len() ==> (#[trigger] words@[i]).wf()),
            r is Some ==> r->0.wf() && r->0@ == word_vals(words@),
    {
        if words.len() != 8 {
            return None;
        }
        let n: usize = words.len();
        for i in 0..n
            invariant
                n == words@.len(),
                forall|j: int| 0 <= j < i ==> (#[trigger] words@[j]).wf(),
        {
            if !words[i].is_well_formed() {
                return None;
            }
        }
        Some(DigestCiphertext { inner: words })
    }

    /// The encrypted words of this digest.
    pub fn into_words(self) -> (r: Vec<U32Ct>)
        ensures
            word_vals(r@) == self@,
    {
        self.inner
    }
}

impl Clone for DigestCiphertext {
    /// Clone every encrypted word; the plaintext words are unchanged.
    fn clone(&self) -> (r: Self)
        ensures
            r@ == self@,
            self.wf() ==> r.wf(),
    {
        let inner = clone_words(&self.inner);
        let r = DigestCiphertext { inner };
        proof {
            assert(r@ =~= self@);
            assert forall|i: int| 0 <= i < r.inner@.len() && self.wf() implies (
            #[trigger] r.inner@[i]).wf() by {
                assert(r.inner@[i]@ == self.inner@[i]@);
            }
        }
        r
    }
}

/// The correctness law of the whole pipeline: padding a message, viewing
/// it as big-endian words, chaining the compression over its blocks and
/// serializing the digest words big-endian is exactly `spec_sha256`. With
/// the contracts of [`encrypt_input`], [`sha256_tfhe`] and
/// [`decrypt_hash`], decrypting the digest of an encrypted message gives
/// SHA-256 of the message; [`trivial_encrypt_input`] promises the same
/// plaintext words as [`encrypt_input`], so evaluation in the clear
/// satisfies the same law.
pub proof fn lemma_hash_pipeline(m: Seq<u8>)
    ensures
        words_be_bytes(spec_digest_words(words_of(spec_pad(m)))) == spec_sha256(m),
{
}

/// The big-endian 32-bit words of a padded byte stream.
fn padded_words(padded: &Vec<u8>) -> (r: Vec<u32>)
    requires
        padded@.len() % 4 == 0,
    ensures
        r@ == words_of(padded@),
{
    let total: usize = padded.len();
    let n: usize = total / 4;
    proof {
        lemma_fundamental_div_mod(padded@.len() as int, 4);
    }
    let mut r: Vec<u32> = Vec::new();
    for i in 0..n
        invariant
            padded@.len() % 4 == 0,
            total == padded@.len(),
            n == padded@.len() / 4,
            4 * n == padded@.len(),
            r@.len() == i,
            forall|j: int| 0 <= j < i ==> r@[j] == words_of(padded@)[j],
    {
        let b0 = padded[4 * i];
        let b1 = padded[4 * i + 1];
        let b2 = padded[4 * i + 2];
        let b3 = padded[4 * i + 3];
        let x: u32 = (b0 as u32) * 0x100_0000 + (b1 as u32) * 0x1_0000 + (b2 as u32) * 0x100 + (
        b3 as u32);
        r.push(x);
        proof {
            assert(r@[i as int] == be_word(
                padded@[4 * i],
                padded@[4 * i + 1],
                padded@[4 * i + 2],
                padded@[4 * i + 3],
            ));
        }
    }
    proof {
        assert(r@ =~= words_of(padded@));
    }
    r
}

/// The word count of a padded stream: a positive multiple of 16.
proof fn lemma_padded_word_count(n: nat)
    requires
        n % 64 == 0,
        n >= 64,
    ensures
        n % 4 == 0,
        (n / 4) % 16 == 0,
        n / 4 >= 16,
{
    let q = n / 64;
    lemma_fundamental_div_mod(n as int, 64);
    assert(n == 64 * q);
    lemma_fundamental_div_mod_converse(n as int, 4, 16 * (q as int), 0);
    assert(n / 4 == 16 * q);
    lemma_fundamental_div_mod_converse(16 * (q as int), 16, q as int, 0);
    assert((n / 4) % 16 == 0);
}

/// Pad and encrypt an input message to be hashed.
pub fn encrypt_input(message: Vec<u8>, client_key: &ClientKey) -> (r: InputCiphertext)
    requires
        message@.len() * 8 <= u64::MAX,
        message@.len() + 72 <= usize::MAX,
    ensures
        r.wf(),
        r@ == words_of(spec_pad(message@)),
{
    let ghost m = message@;
    let padded = pad_message(message);
    proof {
        lemma_spec_pad_len(m);
        lemma_padded_word_count(padded@.len());
    }
    let ws = padded_words(&padded);
    let mut inner: Vec<U32Ct> = Vec::new();
    let n: usize = ws.len();
    for i in 0..n
        invariant
            n == ws@.len(),
            inner@.len() == i,
            forall|j: int| 0 <= j < i ==> (#[trigger] inner@[j]).wf(),
            forall|j: int| 0 <= j < i ==> (#[trigger] inner@[j]).val() == ws@[j],
    {
        let wct = U32Ct::encrypt(ws[i], client_key);
        inner.push(wct);
        proof {
            assert(inner@[i as int].wf());
            assert(inner@[i as int].val() == ws@[i as int]);
        }
    }
    let r = InputCiphertext { inner };
    proof {
        assert(r@ =~= words_of(spec_pad(m)));
        lemma_padded_word_count(spec_pad(m).len());
    }
    r
}

/// Pad and trivially encrypt an input message to be hashed. This does not
/// obfuscate the input: passing the resulting [`InputCiphertext`] into
/// [`sha256_tfhe`] is simply SHA-256 evaluation in the clear, through the
/// same circuit.
pub fn trivial_encrypt_input(message: Vec<u8>, server_key: &ServerKey) -> (r: InputCiphertext)
    requires
        message@.len() * 8 <= u64::MAX,
        message@.len() + 72 <= usize::MAX,
    ensures
        r.wf(),
        r@ == words_of(spec_pad(message@)),
{
    let ghost m = message@;
    let padded = pad_message(message);
    proof {
        lemma_spec_pad_len(m);
        lemma_padded_word_count(padded@.len());
    }
    let ws = padded_words(&padded);
    let mut inner: Vec<U32Ct> = Vec::new();
    let n: usize = ws.len();
    for i in 0..n
        invariant
            n == ws@.len(),
            inner@.len() == i,
            forall|j: int| 0 <= j < i ==> (#[trigger] inner@[j]).wf(),
            forall|j: int| 0 <= j < i ==> (#[trigger] inner@[j]).val() == ws@[j],
    {
        let wct = U32Ct::trivial_encrypt(ws[i], server_key);
        inner.push(wct);
        proof {
            assert(inner@[i as int].wf());
            assert(inner@[i as int].val() == ws@[i as int]);
        }
    }
    let r = InputCiphertext { inner };
    proof {
        assert(r@ =~= words_of(spec_pad(m)));
        lemma_padded_word_count(spec_pad(m).len());
    }
    r
}

/// Clone a vector of encrypted words, slot by slot.
fn clone_words(v: &Vec<U32Ct>) -> (r: Vec<U32Ct>)
    ensures
        r@.len() == v@.len(),
        forall|i: int| 0 <= i < v@.len() ==> r@[i]@ == v@[i]@,
{
    let mut r: Vec<U32Ct> = Vec::new();
    let n: usize = v.len();
    for i in 0..n
        invariant
            n == v@.len(),
            r@.len() == i,
            forall|j: int| 0 <= j < i ==> r@[j]@ == v@[j]@,
    {
        r.push(v[i].clone());
    }
    r
}

/// The index of the schedule word that window slot `j` holds at the
/// start of expansion round `i`: the slots are written round-robin, so
/// slot `j` holds the newest schedule word whose index is congruent to
/// `j` modulo 16, which lies in `i - 16 .. i`.
spec fn w_slot(i: int, j: int) -> int {
    if j < i % 16 {
        i + j - i % 16
    } else {
        i - 16 + j - i % 16
    }
}

/// Where one expansion round finds its schedule words in the window, and
/// how the window's contents read after it stores its result.
proof fn lemma_window_slots(i: int)
    requires
        16 <= i < 64,
    ensures
        0 <= i % 16 < 16,
        w_slot(i, (i + 1) % 16) == i - 15,
        w_slot(i, (i + 14) % 16) == i - 2,
        w_slot(i, (i + 9) % 16) == i - 7,
        w_slot(i, i % 16) == i - 16,
        w_slot(i + 1, i % 16) == i,
        forall|j: int| 0 <= j < 16 && j != i % 16 ==> w_slot(i + 1, j) == w_slot(i, j),
{
    let q = i / 16;
    let r = i % 16;
    lemma_fundamental_div_mod(i, 16);
    if r == 15 {
        lemma_fundamental_div_mod_converse(i + 1, 16, q + 1, 0);
    } else {
        lemma_fundamental_div_mod_converse(i + 1, 16, q, r + 1);
    }
    if r < 2 {
        lemma_fundamental_div_mod_converse(i + 14, 16, q, r + 14);
    } else {
        lemma_fundamental_div_mod_converse(i + 14, 16, q + 1, r - 2);
    }
    if r < 7 {
        lemma_fundamental_div_mod_converse(i + 9, 16, q, r + 9);
    } else {
        lemma_fundamental_div_mod_converse(i + 9, 16, q + 1, r - 7);
    }
}

/// One compression round, rotation included: from the working state
/// `[a,b,c,d,e,f,g,h]` and the prepared round key, produce
/// `[t1+t2, a, b, c, d+t1, e, f, g]`.
fn round(alphabet: &Vec<U32Ct>, k_arg: &U32Ct, server_key: &ServerKey) -> (r: Vec<U32Ct>)
    requires
        alphabet@.len() == 8,
        forall|i: int| 0 <= i < 8 ==> alphabet@[i].wf(),
        k_arg.wf(),
    ensures
        r@.len() == 8,
        forall|i: int| 0 <= i < 8 ==> r@[i].wf(),
        word_vals(r@) == spec_round(word_vals(alphabet@), k_arg.val()),
{
    let a = &alphabet[0];
    let b = &alphabet[1];
    let c = &alphabet[2];
    let d = &alphabet[3];
    let e = &alphabet[4];
    let f = &alphabet[5];
    let g = &alphabet[6];
    let h = &alphabet[7];
    let t1 = h.add(&capsigma1(e, server_key), server_key).add(
        &ch(e, f, g, server_key),
        server_key,
    ).add(k_arg, server_key);
    let t2 = capsigma0(a, server_key).add(&maj(a, b, c, server_key), server_key);
    let d2 = d.add(&t1, server_key);
    let h2 = t1.add(&t2, server_key);
    let r: Vec<U32Ct> = vec![h2, a.clone(), b.clone(), c.clone(), d2, e.clone(), f.clone(),
        g.clone()];
    proof {
        assert(word_vals(r@) =~= spec_round(word_vals(alphabet@), k_arg.val()));
    }
    r
}

/// Perform SHA-256 of an [`InputCiphertext`] fully homomorphically: the
/// plaintext of the digest is the SHA-256 chaining computation applied to
/// the plaintext words of the input.
#[verifier::rlimit(60)]
pub fn sha256_tfhe(input_ct: &InputCiphertext, server_key: &ServerKey) -> (r: DigestCiphertext)
    requires
        input_ct.wf(),
    ensures
        r.wf(),
        r@ == spec_digest_words(input_ct@),
{
    let n: usize = input_ct.inner.len();
    let blocks: usize = n / 16;
    proof {
        lemma_fundamental_div_mod(n as int, 16);
    }
    let hs = h_table();
    let mut s: Vec<U32Ct> = Vec::new();
    for i in 0..8usize
        invariant
            hs@ == spec_h(),
            s@.len() == i,
            forall|j: int| 0 <= j < i ==> (#[trigger] s@[j]).wf(),
            forall|j: int| 0 <= j < i ==> (#[trigger] s@[j]).val() == spec_h()[j],
    {
        s.push(U32Ct::trivial_encrypt(hs[i], server_key));
    }
    let ks = k_table();
    let mut k: Vec<U32Ct> = Vec::new();
    for i in 0..64usize
        invariant
            ks@ == spec_k(),
            k@.len() == i,
            forall|j: int| 0 <= j < i ==> (#[trigger] k@[j]).wf(),
            forall|j: int| 0 <= j < i ==> (#[trigger] k@[j]).val() == spec_k()[j],
    {
        k.push(U32Ct::trivial_encrypt(ks[i], server_key));
    }
    proof {
        assert(word_vals(s@) =~= spec_chain(input_ct@, 0));
    }
    for b in 0..blocks
        invariant
            input_ct.wf(),
            n == input_ct.inner@.len(),
            blocks == n / 16,
            16 * blocks == n,
            k@.len() == 64,
            forall|j: int| 0 <= j < 64 ==> (#[trigger] k@[j]).wf(),
            forall|j: int| 0 <= j < 64 ==> (#[trigger] k@[j]).val() == spec_k()[j],
            s@.len() == 8,
            forall|j: int| 0 <= j < 8 ==> (#[trigger] s@[j]).wf(),
            word_vals(s@) == spec_chain(input_ct@, b as nat),
    {
        let ghost block = input_ct@.subrange(16 * b as int, 16 * (b + 1) as int);
        let mut alphabet = clone_words(&s);
        proof {
            assert(word_vals(alphabet@) =~= word_vals(s@));
            assert(word_vals(alphabet@) == spec_rounds(spec_chain(input_ct@, b as nat), block, 0));
        }
        let mut w: Vec<U32Ct> = Vec::new();
        for i in 0..16usize
            invariant
                input_ct.wf(),
                n == input_ct.inner@.len(),
                16 * blocks == n,
                b < blocks,
                block == input_ct@.subrange(16 * b as int, 16 * (b + 1) as int),
                k@.len() == 64,
                forall|j: int| 0 <= j < 64 ==> (#[trigger] k@[j]).wf(),
                forall|j: int| 0 <= j < 64 ==> (#[trigger] k@[j]).val() == spec_k()[j],
                w@.len() == i,
                forall|j: int| 0 <= j < i ==> (#[trigger] w@[j]).wf(),
                forall|j: int| 0 <= j < i ==> (#[trigger] w@[j]).val() == spec_w(block, j),
                alphabet@.len() == 8,
                forall|j: int| 0 <= j < 8 ==> (#[trigger] alphabet@[j]).wf(),
                word_vals(alphabet@) == spec_rounds(
                    spec_chain(input_ct@, b as nat),
                    block,
                    i as nat,
                ),
        {
            let idx: usize = 16 * b + i;
            let wi = input_ct.inner[idx].clone();
            proof {
                assert(input_ct@[idx as int] == input_ct.inner@[idx as int].val());
                assert(block[i as int] == input_ct@[16 * b + i]);
                assert(spec_w(block, i as int) == block[i as int]);
                assert(wi.val() == input_ct.inner@[idx as int].val());
            }
            let k_w = k[i].add(&wi, server_key);
            alphabet = round(&alphabet, &k_w, server_key);
            w.push(wi);
            proof {
                assert(spec_rounds(spec_chain(input_ct@, b as nat), block, (i + 1) as nat)
                    == spec_round(
                    spec_rounds(spec_chain(input_ct@, b as nat), block, i as nat),
                    crate::word::add32(spec_k()[i as int], spec_w(block, i as int)),
                ));
            }
        }
        proof {
            assert forall|j: int| 0 <= j < 16 implies w_slot(16, j) == j by {
                lemma_fundamental_div_mod_converse(16, 16, 1, 0);
            }
        }
        for i in 16..64usize
            invariant
                k@.len() == 64,
                forall|j: int| 0 <= j < 64 ==> (#[trigger] k@[j]).wf(),
                forall|j: int| 0 <= j < 64 ==> (#[trigger] k@[j]).val() == spec_k()[j],
                w@.len() == 16,
                forall|j: int| 0 <= j < 16 ==> (#[trigger] w@[j]).wf(),
                forall|j: int| 0 <= j < 16 ==> (#[trigger] w@[j]).val() == spec_w(
                    block,
                    w_slot(i as int, j),
                ),
                alphabet@.len() == 8,
                forall|j: int| 0 <= j < 8 ==> (#[trigger] alphabet@[j]).wf(),
                word_vals(alphabet@) == spec_rounds(
                    spec_chain(input_ct@, b as nat),
                    block,
                    i as nat,
                ),
        {
            let j: usize = i % 16;
            let i1: usize = (i + 1) % 16;
            let i14: usize = (i + 14) % 16;
            let i9: usize = (i + 9) % 16;
            proof {
                lemma_window_slots(i as int);
            }
            let s0 = sigma0(&w[i1], server_key);
            let s1 = sigma1(&w[i14], server_key);
            let t = w[j].add(&s0, server_key).add(&s1, server_key).add(&w[i9], server_key);
            let k_w = t.add(&k[i], server_key);
            w.set(j, t);
            alphabet = round(&alphabet, &k_w, server_key);
            proof {
                assert(spec_w(block, i as int) == crate::word::add32(
                    crate::word::add32(
                        crate::word::add32(
                            spec_w(block, i - 16),
                            crate::sha256_spec::spec_sigma0(spec_w(block, i - 15)),
                        ),
                        crate::sha256_spec::spec_sigma1(spec_w(block, i - 2)),
                    ),
                    spec_w(block, i - 7),
                ));
                assert(k_w.val() == crate::word::add32(spec_k()[i as int], spec_w(block, i as int)));
                assert(spec_rounds(spec_chain(input_ct@, b as nat), block, (i + 1) as nat)
                    == spec_round(
                    spec_rounds(spec_chain(input_ct@, b as nat), block, i as nat),
                    crate::word::add32(spec_k()[i as int], spec_w(block, i as int)),
                ));
                assert forall|jj: int| 0 <= jj < 16 implies (#[trigger] w@[jj]).val() == spec_w(
                    block,
                    w_slot(i + 1, jj),
                ) by {
                    if jj == i as int % 16 {
                        assert(w@[jj].val() == spec_w(block, i as int));
                    } else {
                        assert(w_slot(i + 1, jj) == w_slot(i as int, jj));
                    }
                }
            }
        }
        let mut s2: Vec<U32Ct> = Vec::new();
        for i in 0..8usize
            invariant
                s@.len() == 8,
                forall|j: int| 0 <= j < 8 ==> (#[trigger] s@[j]).wf(),
                alphabet@.len() == 8,
                forall|j: int| 0 <= j < 8 ==> (#[trigger] alphabet@[j]).wf(),
                s2@.len() == i,
                forall|j: int| 0 <= j < i ==> (#[trigger] s2@[j]).wf(),
                forall|j: int|
                    0 <= j < i ==> (#[trigger] s2@[j]).val() == crate::word::add32(
                        word_vals(s@)[j],
                        word_vals(alphabet@)[j],
                    ),
        {
            s2.push(s[i].add(&alphabet[i], server_key));
            proof {
                assert(word_vals(s@)[i as int] == s@[i as int].val());
                assert(word_vals(alphabet@)[i as int] == alphabet@[i as int].val());
            }
        }
        proof {
            assert(word_vals(s2@) =~= spec_compress(spec_chain(input_ct@, b as nat), block));
            assert(spec_chain(input_ct@, (b + 1) as nat) == spec_compress(
                spec_chain(input_ct@, b as nat),
                input_ct@.subrange(16 * b as int, 16 * (b + 1) as int),
            ));
        }
        s = s2;
    }
    let r = DigestCiphertext { inner: s };
    proof {
        assert(input_ct@.len() == n);
        assert(r@ == spec_chain(input_ct@, input_ct@.len() / 16));
    }
    r
}

/// Decrypt a [`DigestCiphertext`] with the same client key that encrypted
/// its [`InputCiphertext`]: each of the eight words is decrypted and
/// serialized big-endian, most-significant byte first.
pub fn decrypt_hash(digest_ct: &DigestCiphertext, client_key: &ClientKey) -> (r: Vec<u8>)
    requires
        digest_ct.wf(),
    ensures
        r@.len() == 32,
        r@ == words_be_bytes(digest_ct@),
{
    let mut r: Vec<u8> = Vec::new();
    for i in 0..8usize
        invariant
            digest_ct.wf(),
            r@.len() == 4 * i,
            forall|j: int| 0 <= j < 4 * i ==> r@[j] == words_be_bytes(digest_ct@)[j],
    {
        let x = digest_ct.inner[i].decrypt(client_key);
        r.push((x >> 24u32) as u8);
        r.push((x >> 16u32) as u8);
        r.push((x >> 8u32) as u8);
        r.push(x as u8);
        proof {
            assert(x == digest_ct@[i as int]);
            assert forall|j: int| 4 * i <= j < 4 * (i + 1) implies r@[j] == words_be_bytes(
                digest_ct@,
            )[j] by {
                lemma_fundamental_div_mod_converse(j, 4, i as int, j - 4 * i);
                assert(words_be_bytes(digest_ct@)[j] == word_be_bytes(digest_ct@[i as int])[j - 4
                    * i]);
            }
        }
    }
    proof {
        assert(r@ =~= words_be_bytes(digest_ct@));
    }
    r
}

} // verus!

//! The trusted boundary to the FHE gate layer.
//!
//! A `BitCt` pairs one bit ciphertext of the underlying boolean FHE scheme
//! with the ghost plaintext bit it stands for; the view of a `BitCt` is
//! that ghost bit. Both fields are private to this module. Every function
//! that returns a `BitCt` is a trusted wrapper around one call of the
//! gate layer, and its contract states the plaintext of the returned
//! ciphertext. The rest of the crate reasons about plaintexts while
//! never seeing one.
//!
//! These contracts take the scheme's homomorphisms on trust. They hold
//! when all ciphertexts of one hashing run belong to one key pair, as
//! the key types' documentation requires of callers.

use vstd::prelude::*;
use tfhe::boolean::ciphertext::Ciphertext;
use tfhe::boolean::client_key::ClientKey;
use tfhe::boolean::server_key::BinaryBooleanGates;
use tfhe::boolean::server_key::ServerKey;

verus! {

#[verifier::external_type_specification]
#[verifier::external_body]
pub struct ExCiphertext(Ciphertext);

#[verifier::external_type_specification]
#[verifier::external_body]
pub struct ExClientKey(ClientKey);

#[verifier::external_type_specification]
#[verifier::external_body]
pub struct ExServerKey(ServerKey);

/// One encrypted bit and, as a ghost value, the plaintext bit it carries.
pub struct BitCt {
    ct: Ciphertext,
    plain: Ghost<bool>,
}

impl View for BitCt {
    type V = bool;

    closed spec fn view(&self) -> bool {
        self.plain@
    }
}

// A ghost slot about which nothing is recorded; the trusted wrappers
// below fill their contracts' view through it.
fn unknown_bit() -> Ghost<bool> {
    Ghost(vstd::pervasive::arbitrary())
}

/// Relies on tfhe's `ClientKey::encrypt`: the returned ciphertext carries
/// the given bit under this client key.
#[verifier::external_body]
pub(crate) fn bit_encrypt(b: bool, client_key: &ClientKey) -> (r: BitCt)
    ensures
        r@ == b,
{
    BitCt { ct: client_key.encrypt(b), plain: unknown_bit() }
}

/// Relies on tfhe's `ServerKey::trivial_encrypt`: the returned ciphertext
/// carries the given bit in the clear, compatible with every key.
#[verifier::external_body]
pub(crate) fn bit_trivial_encrypt(b: bool, server_key: &ServerKey) -> (r: BitCt)
    ensures
        r@ == b,
{
    BitCt { ct: server_key.trivial_encrypt(b), plain: unknown_bit() }
}

/// Relies on tfhe's `ClientKey::decrypt`: decryption under the key of the
/// computation returns the carried bit.
#[verifier::external_body]
pub(crate) fn bit_decrypt(c: &BitCt, client_key: &ClientKey) -> (r: bool)
    ensures
        r == c@,
{
    client_key.decrypt(&c.ct)
}

/// Relies on tfhe's homomorphic `ServerKey::xor` gate.
#[verifier::external_body]
pub(crate) fn bit_xor(a: &BitCt, b: &BitCt, server_key: &ServerKey) -> (r: BitCt)
    ensures
        r@ == (a@ != b@),
{
    BitCt { ct: server_key.xor(&a.ct, &b.ct), plain: unknown_bit() }
}

/// Relies on tfhe's homomorphic `ServerKey::and` gate.
#[verifier::external_body]
pub(crate) fn bit_and(a: &BitCt, b: &BitCt, server_key: &ServerKey) -> (r: BitCt)
    ensures
        r@ == (a@ && b@),
{
    BitCt { ct: server_key.and(&a.ct, &b.ct), plain: unknown_bit() }
}

/// Relies on tfhe's homomorphic `ServerKey::or` gate.
#[verifier::external_body]
pub(crate) fn bit_or(a: &BitCt, b: &BitCt, server_key: &ServerKey) -> (r: BitCt)
    ensures
        r@ == (a@ || b@),
{
    BitCt { ct: server_key.or(&a.ct, &b.ct), plain: unknown_bit() }
}

/// Relies on tfhe's homomorphic `ServerKey::not` gate.
#[verifier::external_body]
pub(crate) fn bit_not(a: &BitCt, server_key: &ServerKey) -> (r: BitCt)
    ensures
        r@ == !a@,
{
    BitCt { ct: server_key.not(&a.ct), plain: unknown_bit() }
}

impl Clone for BitCt {
    /// Relies on tfhe's `Ciphertext::clone`: an independent ciphertext of
    /// the same bit.
    #[verifier::external_body]
    fn clone(&self) -> (r: Self)
        ensures
            r@ == self@,
    {
        BitCt { ct: self.ct.clone(), plain: unknown_bit() }
    }
}

impl BitCt {
    /// Encrypt one bit under the client key.
    pub fn encrypt(b: bool, client_key: &ClientKey) -> (r: Self)
        ensures
            r@ == b,
    {
        bit_encrypt(b, client_key)
    }

    /// Lift one publicly known bit into the circuit.
    pub fn trivial_encrypt(b: bool, server_key: &ServerKey) -> (r: Self)
        ensures
            r@ == b,
    {
        bit_trivial_encrypt(b, server_key)
    }

    /// Decrypt this bit with the client key of the computation.
    pub fn decrypt(&self, client_key: &ClientKey) -> (r: bool)
        ensures
            r == self@,
    {
        bit_decrypt(self, client_key)
    }

    /// Wrap a raw ciphertext that arrives from outside the circuit, for
    /// instance after deserialization; nothing is known of its plaintext.
    pub fn from_ciphertext(ct: Ciphertext) -> Self {
        BitCt { ct, plain: unknown_bit() }
    }

    /// The raw ciphertext, for serialization.
    pub fn into_ciphertext(self) -> Ciphertext {
        self.ct
    }
}

} // verus!

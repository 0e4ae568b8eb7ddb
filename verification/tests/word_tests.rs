use fhe_sha256::gates::BitCt;
use fhe_sha256::u32ct::bits;
use fhe_sha256::u32ct::from_bits;
use fhe_sha256::u32ct::full_adder;
use fhe_sha256::u32ct::U32Ct;

use tfhe::boolean::client_key::ClientKey;
use tfhe::boolean::parameters::BooleanParameters;
use tfhe::boolean::parameters::DecompositionBaseLog;
use tfhe::boolean::parameters::DecompositionLevelCount;
use tfhe::boolean::parameters::DynamicDistribution;
use tfhe::boolean::parameters::EncryptionKeyChoice;
use tfhe::boolean::parameters::GlweDimension;
use tfhe::boolean::parameters::LweDimension;
use tfhe::boolean::parameters::PolynomialSize;
use tfhe::boolean::parameters::StandardDev;
use tfhe::boolean::server_key::ServerKey;

/// Small, noiseless parameters: gate evaluation stays exact while key
/// generation and bootstrapping run fast enough for unit tests. These
/// parameters carry no security whatsoever.
fn test_parameters() -> BooleanParameters {
    BooleanParameters::new(
        LweDimension(16),
        GlweDimension(1),
        PolynomialSize(512),
        DynamicDistribution::new_gaussian_from_std_dev(StandardDev(0.0)),
        DynamicDistribution::new_gaussian_from_std_dev(StandardDev(0.0)),
        DecompositionBaseLog(15),
        DecompositionLevelCount(2),
        DecompositionBaseLog(4),
        DecompositionLevelCount(5),
        EncryptionKeyChoice::Small,
    )
}

fn keys() -> (ClientKey, ServerKey) {
    let client_key = ClientKey::new(&test_parameters());
    let server_key = ServerKey::new(&client_key);
    (client_key, server_key)
}

#[test]
fn test_bits() {
    let bits = bits(0x234928fc);
    let n = from_bits(bits);
    assert_eq!(n, 0x234928fc);
}

#[test]
fn u32ct_test_encrypt_decrypt() {
    let (key, _) = keys();
    let ct = U32Ct::encrypt(0, &key);
    let pt = ct.decrypt(&key);
    assert_eq!(pt, 0);
    let ct = U32Ct::encrypt(234353, &key);
    let pt = ct.decrypt(&key);
    assert_eq!(pt, 234353);
}

#[test]
fn test_trivial_encrypt_decrypt() {
    let (client_key, server_key) = keys();
    let ct = U32Ct::trivial_encrypt(0x89abcdef, &server_key);
    let pt = ct.decrypt(&client_key);
    assert_eq!(pt, 0x89abcdef);
}

#[test]
fn test_bitxor() {
    let (client_key, server_key) = keys();
    let ct1 = U32Ct::encrypt(3472387250, &client_key);
    let ct2 = U32Ct::encrypt(964349245, &client_key);
    let r = ct1.bitxor(&ct2, &server_key);
    let pt = r.decrypt(&client_key);
    assert_eq!(pt, 3472387250 ^ 964349245);
}

#[test]
fn test_bitand() {
    let (client_key, server_key) = keys();
    let ct1 = U32Ct::encrypt(3472387250, &client_key);
    let ct2 = U32Ct::encrypt(964349245, &client_key);
    let r = ct1.bitand(&ct2, &server_key);
    let pt = r.decrypt(&client_key);
    assert_eq!(pt, 3472387250 & 964349245);
}

#[test]
fn test_bitor() {
    let (client_key, server_key) = keys();
    let ct1 = U32Ct::encrypt(3472387250, &client_key);
    let ct2 = U32Ct::encrypt(964349245, &client_key);
    let r = ct1.bitor(&ct2, &server_key);
    let pt = r.decrypt(&client_key);
    assert_eq!(pt, 3472387250 | 964349245);
}

#[test]
fn test_bitnot() {
    let (client_key, server_key) = keys();
    let ct = U32Ct::encrypt(3472387250, &client_key);
    let r = ct.bitnot(&server_key);
    let pt = r.decrypt(&client_key);
    assert_eq!(pt, !3472387250u32);
}

#[test]
fn test_rotate_right() {
    let (key, _) = keys();
    let ct = U32Ct::encrypt(3472387250, &key);
    let r = ct.rotate_right(12);
    let pt = r.decrypt(&key);
    assert_eq!(pt, 3472387250u32.rotate_right(12));
}

#[test]
fn test_rotate_right_wraps_past_32() {
    let (key, _) = keys();
    let ct = U32Ct::encrypt(0x12345678, &key);
    let r = ct.rotate_right(40);
    let pt = r.decrypt(&key);
    assert_eq!(pt, 0x12345678u32.rotate_right(40));
}

#[test]
fn test_shift_right() {
    let (client_key, server_key) = keys();
    let ct = U32Ct::encrypt(3472387250, &client_key);
    let r = ct.shift_right(12, &server_key);
    let pt = r.decrypt(&client_key);
    assert_eq!(pt, 3472387250u32 >> 12);
}

#[test]
fn test_full_adder() {
    let (client_key, server_key) = keys();
    let assert_instance = |a, b, c_in, s_expected, c_out_expected| {
        let a = BitCt::encrypt(a, &client_key);
        let b = BitCt::encrypt(b, &client_key);
        let c_in = BitCt::encrypt(c_in, &client_key);
        let (s, c_out) = full_adder(&a, &b, &c_in, &server_key);
        let s = s.decrypt(&client_key);
        let c_out = c_out.decrypt(&client_key);
        assert_eq!(s_expected, s);
        assert_eq!(c_out_expected, c_out);
    };
    assert_instance(false, false, false, false, false);
    assert_instance(false, false, true, true, false);
    assert_instance(false, true, false, true, false);
    assert_instance(false, true, true, false, true);
    assert_instance(true, false, false, true, false);
    assert_instance(true, false, true, false, true);
    assert_instance(true, true, false, false, true);
    assert_instance(true, true, true, true, true);
}

#[test]
fn test_add() {
    let (client_key, server_key) = keys();
    let ct1 = U32Ct::encrypt(33, &client_key);
    let ct2 = U32Ct::encrypt(36, &client_key);
    let r = ct1.add(&ct2, &server_key);
    let pt = r.decrypt(&client_key);
    assert_eq!(pt, 33u32.wrapping_add(36));
    let ct1 = U32Ct::encrypt(4294967295, &client_key);
    let ct2 = U32Ct::encrypt(2, &client_key);
    let r = ct1.add(&ct2, &server_key);
    let pt = r.decrypt(&client_key);
    assert_eq!(pt, 1);
}

#[test]
fn test_bit_cts_round_trip() {
    let (client_key, _) = keys();
    let ct = U32Ct::encrypt(77, &client_key);
    let bit_cts = ct.into_bit_cts();
    assert_eq!(bit_cts.len(), 32);
    let rebuilt = U32Ct::from_bit_cts(bit_cts).unwrap();
    assert_eq!(rebuilt.decrypt(&client_key), 77);
}

#[test]
fn test_from_bit_cts_wrong_length() {
    let (client_key, _) = keys();
    let mut bit_cts = U32Ct::encrypt(5, &client_key).into_bit_cts();
    bit_cts.pop();
    assert!(U32Ct::from_bit_cts(bit_cts).is_none());
}

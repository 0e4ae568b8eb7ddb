use fhe_sha256::decrypt_hash;
use fhe_sha256::DigestCiphertext;
use fhe_sha256::InputCiphertext;
use fhe_sha256::sha256_tfhe;
use fhe_sha256::trivial_encrypt_input;
use fhe_sha256::u32ct::U32Ct;
use fhe_sha256::util::capsigma0;
use fhe_sha256::util::capsigma1;
use fhe_sha256::util::ch;
use fhe_sha256::util::maj;
use fhe_sha256::util::pad_message;
use fhe_sha256::util::sigma0;
use fhe_sha256::util::sigma1;

use tfhe::boolean::client_key::ClientKey;
use tfhe::boolean::parameters::BooleanParameters;
use tfhe::boolean::parameters::DecompositionBaseLog;
use tfhe::boolean::parameters::DecompositionLevelCount;
use tfhe::boolean::parameters::DynamicDistribution;
use tfhe::boolean::parameters::EncryptionKeyChoice;
use tfhe::boolean::parameters::GlweDimension;
use tfhe::boolean::parameters::LweDimension;
use tfhe::boolean::parameters::PolynomialSize;
use tfhe::boolean::parameters::StandardDev;
use tfhe::boolean::server_key::ServerKey;

/// Small, noiseless parameters: gate evaluation stays exact while key
/// generation and bootstrapping run fast enough for unit tests. These
/// parameters carry no security whatsoever.
fn test_parameters() -> BooleanParameters {
    BooleanParameters::new(
        LweDimension(16),
        GlweDimension(1),
        PolynomialSize(512),
        DynamicDistribution::new_gaussian_from_std_dev(StandardDev(0.0)),
        DynamicDistribution::new_gaussian_from_std_dev(StandardDev(0.0)),
        DecompositionBaseLog(15),
        DecompositionLevelCount(2),
        DecompositionBaseLog(4),
        DecompositionLevelCount(5),
        EncryptionKeyChoice::Small,
    )
}

fn keys() -> (ClientKey, ServerKey) {
    let client_key = ClientKey::new(&test_parameters());
    let server_key = ServerKey::new(&client_key);
    (client_key, server_key)
}

fn hex_digest(s: &str) -> Vec<u8> {
    let chars: Vec<u32> = s.chars().map(|c| c.to_digit(16).unwrap()).collect();
    chars.chunks(2).map(|p| (p[0] * 16 + p[1]) as u8).collect()
}

#[test]
fn test_empty_input_trivial() {
    let (client_key, server_key) = keys();
    let input = b"".to_vec();
    let input_ct = trivial_encrypt_input(input, &server_key);
    let hash_ct = sha256_tfhe(&input_ct, &server_key);
    let hash = decrypt_hash(&hash_ct, &client_key);
    let expected_hash =
        hex_digest("e3b0c44298fc1c149afbf4c8996fb92427ae41e4649b934ca495991b7852b855");
    assert_eq!(hash, expected_hash);
}

#[test]
fn test_small_input_trivial() {
    let (client_key, server_key) = keys();
    let input = b"hello world".to_vec();
    let input_ct = trivial_encrypt_input(input, &server_key);
    let hash_ct = sha256_tfhe(&input_ct, &server_key);
    let hash = decrypt_hash(&hash_ct, &client_key);
    let expected_hash =
        hex_digest("b94d27b9934d3e08a52e52d7da7dabfac484efe37a5380ee9088f7ace2efcde9");
    assert_eq!(hash, expected_hash);
}

#[test]
fn test_larger_input_trivial() {
    let (client_key, server_key) = keys();
    let input = b"abcdefghbcdefghicdefghijdefghijkefghijklfghijklmghijklmnhijklmnoijklmnopjklmnopqklmnopqrlmnopqrsmnopqrstnopqrstu".to_vec();
    let input_ct = trivial_encrypt_input(input, &server_key);
    let hash_ct = sha256_tfhe(&input_ct, &server_key);
    let hash = decrypt_hash(&hash_ct, &client_key);
    let expected_hash =
        hex_digest("cf5b16a778af8380036ce59e7b0492370b249b11e8f07a51afac45037afee9d1");
    assert_eq!(hash, expected_hash);
}

#[test]
fn test_pad_message() {
    let msg = b"".to_vec();
    let padded = pad_message(msg);
    let mut expected = [0; 64];
    expected[0] = 0x80;
    assert_eq!(expected.to_vec(), padded);

    let msg = b"hello world".to_vec();
    let padded = pad_message(msg);
    let expected = [
        0x68, 0x65, 0x6c, 0x6c, 0x6f, 0x20, 0x77, 0x6f, 0x72, 0x6c, 0x64, 0x80, 0, 0, 0, 0, 0, 0,
        0, 0, 0, 0, 0, 0, 0, 0, 0, 0, 0, 0, 0, 0, 0, 0, 0, 0, 0, 0, 0, 0, 0, 0, 0, 0, 0, 0, 0, 0,
        0, 0, 0, 0, 0, 0, 0, 0, 0, 0, 0, 0, 0, 0, 0, 0x58,
    ];
    assert_eq!(padded, expected);

    let msg = b"abcdefghbcdefghicdefghijdefghijkefghijklfghijklmghijklmnhijklmnoijklmnopjklmnopqklmnopqrlmnopqrsmnopqrstnopqrstu".to_vec();
    let padded = pad_message(msg);
    let expected = [
        97, 98, 99, 100, 101, 102, 103, 104, 98, 99, 100, 101, 102, 103, 104, 105, 99, 100, 101,
        102, 103, 104, 105, 106, 100, 101, 102, 103, 104, 105, 106, 107, 101, 102, 103, 104, 105,
        106, 107, 108, 102, 103, 104, 105, 106, 107, 108, 109, 103, 104, 105, 106, 107, 108, 109,
        110, 104, 105, 106, 107, 108, 109, 110, 111, 105, 106, 107, 108, 109, 110, 111, 112, 106,
        107, 108, 109, 110, 111, 112, 113, 107, 108, 109, 110, 111, 112, 113, 114, 108, 109, 110,
        111, 112, 113, 114, 115, 109, 110, 111, 112, 113, 114, 115, 116, 110, 111, 112, 113, 114,
        115, 116, 117, 128, 0, 0, 0, 0, 0, 0, 0, 0, 0, 0, 0, 0, 0, 3, 128,
    ];
    assert_eq!(padded, expected);
}

type Scramble1 = fn(&U32Ct, &ServerKey) -> U32Ct;
type Scramble3 = fn(&U32Ct, &U32Ct, &U32Ct, &ServerKey) -> U32Ct;

fn test_scamble1(scramble: Scramble1, x: u32, y_expected: u32) {
    let (client_key, server_key) = keys();
    let x = U32Ct::encrypt(x, &client_key);
    let y_ct = scramble(&x, &server_key);
    let y = y_ct.decrypt(&client_key);
    assert_eq!(y, y_expected);
}

fn test_scramble3(scramble: Scramble3, a: u32, b: u32, c: u32, y_expected: u32) {
    let (client_key, server_key) = keys();
    let a = U32Ct::encrypt(a, &client_key);
    let b = U32Ct::encrypt(b, &client_key);
    let c = U32Ct::encrypt(c, &client_key);
    let y_ct = scramble(&a, &b, &c, &server_key);
    let y = y_ct.decrypt(&client_key);
    assert_eq!(y, y_expected);
}

#[test]
fn test_sigma0() {
    test_scamble1(sigma0, 0b1111111111111111, 0b11000001111111111101111000000000);
}

#[test]
fn test_sigma1() {
    test_scamble1(sigma1, 0b1111111111111111, 0b01100000000000000110000000111111);
}

#[test]
fn test_capsigma0() {
    test_scamble1(capsigma0, 0b1111111111111111, 0b00111100000001111100001111111000);
}

#[test]
fn test_capsigma1() {
    test_scamble1(capsigma1, 0b1111111111111111, 0b00000011100111111111110001100000);
}

#[test]
fn test_ch() {
    test_scramble3(ch, 0xaaaa, 0xbbbb, 0xcccc, 61166);
}

#[test]
fn test_maj() {
    test_scramble3(maj, 0xaaaa, 0xbbbb, 0xcccc, 43690);
}

#[test]
fn test_input_from_words_rejects_partial_block() {
    let (client_key, _) = keys();
    let words: Vec<U32Ct> = (0..8).map(|i| U32Ct::encrypt(i, &client_key)).collect();
    assert!(InputCiphertext::from_words(words).is_none());
}

#[test]
fn test_digest_words_round_trip() {
    let (client_key, server_key) = keys();
    let input_ct = trivial_encrypt_input(b"hello world".to_vec(), &server_key);
    let hash_ct = sha256_tfhe(&input_ct, &server_key);
    let words = hash_ct.into_words();
    assert_eq!(words.len(), 8);
    let rebuilt = DigestCiphertext::from_words(words).unwrap();
    let hash = decrypt_hash(&rebuilt, &client_key);
    let expected_hash =
        hex_digest("b94d27b9934d3e08a52e52d7da7dabfac484efe37a5380ee9088f7ace2efcde9");
    assert_eq!(hash, expected_hash);
}

use mimir_signer::hexs::{decode_hex, encode_hex};
use mimir_signer::keystore::{
    decode_record, decode_wallet, decrypt_wallet, recover_key, DecodeError, DecryptError,
    KeyfileError, RawWalletRecord,
};

fn h(s: &str) -> Vec<u8> {
    decode_hex(s.as_bytes()).unwrap()
}

fn hexstr(b: &[u8]) -> String {
    String::from_utf8(encode_hex(b)).unwrap()
}

/// Derive, encrypt and authenticate with the outside crates directly, so
/// the library's decryption is held against independently produced records.
fn make_cipher_and_mac(
    password: &[u8],
    salt: &[u8],
    iv: &[u8],
    secret: &[u8],
    iterations: u32,
) -> (Vec<u8>, Vec<u8>) {
    let mut dk = [0u8; 32];
    ring::pbkdf2::derive(
        ring::pbkdf2::PBKDF2_HMAC_SHA256,
        core::num::NonZeroU32::new(iterations).unwrap(),
        salt,
        password,
        &mut dk,
    );
    let mut ct = vec![0u8; secret.len()];
    let mut cipher = crypto::aes::ctr(crypto::aes::KeySize::KeySize128, &dk[0..16], iv);
    cipher.process(secret, &mut ct);
    let mut mac_input = dk[16..32].to_vec();
    mac_input.extend_from_slice(&ct);
    let mut k = tiny_keccak::Keccak::v256();
    tiny_keccak::Hasher::update(&mut k, &mac_input);
    let mut mac = [0u8; 32];
    tiny_keccak::Hasher::finalize(k, &mut mac);
    (ct, mac.to_vec())
}

fn record_from_hex(
    iv_hex: &str,
    ct_hex: &str,
    iterations: u64,
    salt_hex: &str,
    mac_hex: &str,
) -> RawWalletRecord {
    RawWalletRecord {
        cipher: Some(b"aes-128-ctr".to_vec()),
        iv_hex: Some(iv_hex.as_bytes().to_vec()),
        cipher_text_hex: Some(ct_hex.as_bytes().to_vec()),
        kdf: Some(b"pbkdf2".to_vec()),
        iterations: Some(iterations),
        dklen: Some(32),
        prf: Some(b"hmac-sha256".to_vec()),
        salt_hex: Some(salt_hex.as_bytes().to_vec()),
        mac_hex: Some(mac_hex.as_bytes().to_vec()),
    }
}

const VECTOR_IV: &str = "6087dab2f9fdbbfaddc31a909735c1e6";
const VECTOR_CT: &str = "5318b4d5bcd28de64ee5559e671353e16f075ecae9f99c7a79a38af5f869aa46";
const VECTOR_SALT: &str = "ae3cd4e7013836a3df6bd7241b12db061dbe2c6785853cce422d148a624ce0bd";
const VECTOR_MAC: &str = "517ead924a9d0dc3124507e3393d175ce3ff7c1e96529c6c555ce9e51205e9b2";
const VECTOR_KEY: &str = "7a28b5ba57c53603b0b07b56bba752f7784bf506fa95edc395f5cf6c7514fe9d";

#[test]
fn published_vector_decrypts_to_documented_key() {
    let record = record_from_hex(VECTOR_IV, VECTOR_CT, 262144, VECTOR_SALT, VECTOR_MAC);
    let wallet = decode_record(&record).unwrap();
    let key = decrypt_wallet(&wallet, b"testpassword").unwrap();
    assert_eq!(hexstr(&key.bytes), VECTOR_KEY);
}

#[test]
fn published_vector_wrong_password_fails_authentication() {
    let record = record_from_hex(VECTOR_IV, VECTOR_CT, 262144, VECTOR_SALT, VECTOR_MAC);
    let wallet = decode_record(&record).unwrap();
    match decrypt_wallet(&wallet, b"testpassword1") {
        Err(e) => assert_eq!(e, DecryptError::AuthenticationFailed),
        Ok(_) => panic!("authentication unexpectedly passed"),
    }
}

const FIXTURE_PASSWORD: &[u8] = b"open sesame";
const FIXTURE_SALT: &str = "a1b2c3d4e5f60718293a4b5c6d7e8f90a1b2c3d4e5f60718293a4b5c6d7e8f90";
const FIXTURE_IV: &str = "102030405060708090a0b0c0d0e0f001";
const FIXTURE_KEY: &str = "404142434445464748494a4b4c4d4e4f505152535455565758595a5b5c5d5e5f";
const FIXTURE_CT: &str = "c481efed43cc8cefcc020a7a60b13e2bcd50765a3c8a2a60a6e65a75feb5068d";
const FIXTURE_MAC: &str = "388a48d880bf9f84c82deadfc1ef0f6ce71454156ede276a3c4f8f03dbf429b1";

#[test]
fn hundred_thousand_round_record_decrypts_to_documented_key() {
    let (ct, mac) = make_cipher_and_mac(
        FIXTURE_PASSWORD,
        &h(FIXTURE_SALT),
        &h(FIXTURE_IV),
        &h(FIXTURE_KEY),
        100000,
    );
    let record = record_from_hex(FIXTURE_IV, &hexstr(&ct), 100000, FIXTURE_SALT, &hexstr(&mac));
    let wallet = decode_record(&record).unwrap();
    let key = decrypt_wallet(&wallet, FIXTURE_PASSWORD).unwrap();
    assert_eq!(hexstr(&key.bytes), FIXTURE_KEY);
}

#[test]
fn hundred_thousand_round_record_fixture_is_stable() {
    let (ct, mac) = make_cipher_and_mac(
        FIXTURE_PASSWORD,
        &h(FIXTURE_SALT),
        &h(FIXTURE_IV),
        &h(FIXTURE_KEY),
        100000,
    );
    assert_eq!(format!("{} {}", hexstr(&ct), hexstr(&mac)), format!("{} {}", FIXTURE_CT, FIXTURE_MAC));
}

#[test]
fn hundred_thousand_round_record_wrong_password_fails() {
    let (ct, mac) = make_cipher_and_mac(
        FIXTURE_PASSWORD,
        &h(FIXTURE_SALT),
        &h(FIXTURE_IV),
        &h(FIXTURE_KEY),
        100000,
    );
    let record = record_from_hex(FIXTURE_IV, &hexstr(&ct), 100000, FIXTURE_SALT, &hexstr(&mac));
    let wallet = decode_record(&record).unwrap();
    match decrypt_wallet(&wallet, b"open sesame!") {
        Err(e) => assert_eq!(e, DecryptError::AuthenticationFailed),
        Ok(_) => panic!("authentication unexpectedly passed"),
    }
}

#[test]
fn altered_ciphertext_byte_fails_authentication() {
    let (mut ct, mac) = make_cipher_and_mac(
        FIXTURE_PASSWORD,
        &h(FIXTURE_SALT),
        &h(FIXTURE_IV),
        &h(FIXTURE_KEY),
        2048,
    );
    ct[7] ^= 0x01;
    let record = record_from_hex(FIXTURE_IV, &hexstr(&ct), 2048, FIXTURE_SALT, &hexstr(&mac));
    let wallet = decode_record(&record).unwrap();
    match decrypt_wallet(&wallet, FIXTURE_PASSWORD) {
        Err(e) => assert_eq!(e, DecryptError::AuthenticationFailed),
        Ok(_) => panic!("authentication unexpectedly passed"),
    }
}

#[test]
fn altered_mac_byte_fails_authentication() {
    let (ct, mut mac) = make_cipher_and_mac(
        FIXTURE_PASSWORD,
        &h(FIXTURE_SALT),
        &h(FIXTURE_IV),
        &h(FIXTURE_KEY),
        2048,
    );
    mac[31] ^= 0x80;
    let record = record_from_hex(FIXTURE_IV, &hexstr(&ct), 2048, FIXTURE_SALT, &hexstr(&mac));
    let wallet = decode_record(&record).unwrap();
    match decrypt_wallet(&wallet, FIXTURE_PASSWORD) {
        Err(e) => assert_eq!(e, DecryptError::AuthenticationFailed),
        Ok(_) => panic!("authentication unexpectedly passed"),
    }
}

#[test]
fn zero_plaintext_key_is_rejected_as_invalid() {
    let zero = [0u8; 32];
    let (ct, mac) = make_cipher_and_mac(
        FIXTURE_PASSWORD,
        &h(FIXTURE_SALT),
        &h(FIXTURE_IV),
        &zero,
        2048,
    );
    let record = record_from_hex(FIXTURE_IV, &hexstr(&ct), 2048, FIXTURE_SALT, &hexstr(&mac));
    let wallet = decode_record(&record).unwrap();
    match decrypt_wallet(&wallet, FIXTURE_PASSWORD) {
        Err(e) => assert_eq!(e, DecryptError::InvalidKey),
        Ok(_) => panic!("invalid key unexpectedly accepted"),
    }
}

#[test]
fn unsupported_algorithms_are_rejected() {
    let mut record = record_from_hex(VECTOR_IV, VECTOR_CT, 262144, VECTOR_SALT, VECTOR_MAC);
    record.kdf = Some(b"scrypt".to_vec());
    assert_eq!(decode_record(&record).unwrap_err(), DecodeError::UnsupportedAlgorithm);

    let mut record = record_from_hex(VECTOR_IV, VECTOR_CT, 262144, VECTOR_SALT, VECTOR_MAC);
    record.cipher = Some(b"aes-256-cbc".to_vec());
    assert_eq!(decode_record(&record).unwrap_err(), DecodeError::UnsupportedAlgorithm);

    let mut record = record_from_hex(VECTOR_IV, VECTOR_CT, 262144, VECTOR_SALT, VECTOR_MAC);
    record.dklen = Some(64);
    assert_eq!(decode_record(&record).unwrap_err(), DecodeError::UnsupportedAlgorithm);
}

#[test]
fn malformed_records_are_rejected() {
    let mut record = record_from_hex(VECTOR_IV, VECTOR_CT, 262144, VECTOR_SALT, VECTOR_MAC);
    record.mac_hex = None;
    assert_eq!(decode_record(&record).unwrap_err(), DecodeError::Malformed);

    let mut record = record_from_hex(VECTOR_IV, VECTOR_CT, 262144, VECTOR_SALT, VECTOR_MAC);
    record.iterations = Some(0);
    assert_eq!(decode_record(&record).unwrap_err(), DecodeError::Malformed);

    let mut record = record_from_hex(VECTOR_IV, VECTOR_CT, 262144, VECTOR_SALT, VECTOR_MAC);
    record.salt_hex = Some(b"abc".to_vec());
    assert_eq!(decode_record(&record).unwrap_err(), DecodeError::Malformed);

    let record = record_from_hex(
        "6087dab2f9fdbbfaddc31a909735c1",
        VECTOR_CT,
        262144,
        VECTOR_SALT,
        VECTOR_MAC,
    );
    assert_eq!(decode_record(&record).unwrap_err(), DecodeError::Malformed);
}

fn vector_document() -> String {
    format!(
        "{{\"crypto\":{{\"cipher\":\"aes-128-ctr\",\"cipherparams\":{{\"iv\":\"{}\"}},\
         \"ciphertext\":\"{}\",\"kdf\":\"pbkdf2\",\"kdfparams\":{{\"c\":262144,\"dklen\":32,\
         \"prf\":\"hmac-sha256\",\"salt\":\"{}\"}},\"mac\":\"{}\"}},\"version\":3}}",
        VECTOR_IV, VECTOR_CT, VECTOR_SALT, VECTOR_MAC
    )
}

#[test]
fn wallet_document_decodes_and_decrypts() {
    let doc = vector_document();
    let wallet = decode_wallet(&doc).unwrap();
    assert_eq!(wallet.iterations, 262144);
    assert_eq!(hexstr(&wallet.cipher_iv), VECTOR_IV);
    assert_eq!(hexstr(&wallet.cipher_text), VECTOR_CT);
    assert_eq!(hexstr(&wallet.salt), VECTOR_SALT);
    assert_eq!(hexstr(&wallet.mac), VECTOR_MAC);
    let key = recover_key(&doc, b"testpassword").unwrap();
    assert_eq!(hexstr(&key.bytes), VECTOR_KEY);
}

#[test]
fn wallet_document_errors_carry_their_stage() {
    assert_eq!(decode_wallet("not json").unwrap_err(), DecodeError::Malformed);
    assert_eq!(decode_wallet("{\"version\":3}").unwrap_err(), DecodeError::Malformed);
    match recover_key(&vector_document(), b"nope") {
        Err(e) => assert_eq!(e, KeyfileError::Decrypt(DecryptError::AuthenticationFailed)),
        Ok(_) => panic!("recovery unexpectedly passed"),
    }
    match recover_key("{}", b"testpassword") {
        Err(e) => assert_eq!(e, KeyfileError::Decode(DecodeError::Malformed)),
        Ok(_) => panic!("decode unexpectedly passed"),
    }
}

use mimir_signer::hexs::{decode_hex, encode_hex};
use mimir_signer::keys::{build_transaction, key_address, sign_transaction, BuildError, SecretKey};
use mimir_signer::tx::{
    decode_signed, encode_signed, encode_unsigned, Address, AssemblyError, ChainDefaults,
    PartialFields, Quantity, TxField, TxFields,
};

fn h(s: &str) -> Vec<u8> {
    decode_hex(s.as_bytes()).unwrap()
}

fn hexstr(b: &[u8]) -> String {
    String::from_utf8(encode_hex(b)).unwrap()
}

fn q(s: &str) -> Quantity {
    Quantity { bytes: h(s) }
}

const TEST_KEY: &str = "4c0883a69102937d6231471b5dbb6204fe5129617082792ae468d01a3f362318";

fn test_key() -> SecretKey {
    SecretKey::from_bytes(&h(TEST_KEY)).unwrap()
}

/// The scenario fields: nonce 1, gas price 1, gas limit 0x5555, a fixed
/// recipient, value 0xdeadbeef, no data.
fn scenario_tx() -> TxFields {
    TxFields {
        nonce: q("01"),
        gas_price: q("01"),
        gas_limit: q("5555"),
        to: Some(Address { bytes: h("deadbeefdeadbeefdeadbeefdeadbeefdeadbeef") }),
        value: q("deadbeef"),
        data: Vec::new(),
    }
}

fn keccak(data: &[u8]) -> [u8; 32] {
    let mut k = tiny_keccak::Keccak::v256();
    tiny_keccak::Hasher::update(&mut k, data);
    let mut out = [0u8; 32];
    tiny_keccak::Hasher::finalize(k, &mut out);
    out
}

fn strip(b: &[u8]) -> Vec<u8> {
    let mut i = 0;
    while i < b.len() && b[i] == 0 {
        i += 1;
    }
    b[i..].to_vec()
}

#[test]
fn signing_twice_yields_identical_bytes() {
    let key = test_key();
    let st1 = sign_transaction(scenario_tx(), &key).unwrap();
    let st2 = sign_transaction(scenario_tx(), &key).unwrap();
    assert_eq!(encode_signed(&st1), encode_signed(&st2));
}

const GOLDEN_UNSIGNED: &str =
    "e0010182555594deadbeefdeadbeefdeadbeefdeadbeefdeadbeef84deadbeef80";

#[test]
fn scenario_unsigned_encoding_matches_golden_bytes() {
    assert_eq!(hexstr(&encode_unsigned(&scenario_tx())), GOLDEN_UNSIGNED);
}

const GOLDEN_SIGNED: &str = "f863010182555594deadbeefdeadbeefdeadbeefdeadbeefdeadbeef84deadbeef801ca06ebe08808a8daa231d3cf5a747172ec234fbfd620bc9a18aef6e7ee4d59ad629a03054af1786e3a1d5b9a68729fcdce3008424007244073d7f62bd30c2ff0bfc87";

#[test]
fn scenario_signing_matches_golden_bytes() {
    let key = test_key();
    let st = sign_transaction(scenario_tx(), &key).unwrap();
    assert_eq!(hexstr(&encode_signed(&st)), GOLDEN_SIGNED);
}

#[test]
fn signing_matches_reference_pipeline() {
    let key = test_key();
    let ours = encode_signed(&sign_transaction(scenario_tx(), &key).unwrap());

    let tx = scenario_tx();
    let digest = keccak(&encode_unsigned(&tx));
    let sk =
        secp256k1::SecretKey::from_secret_bytes(<[u8; 32]>::try_from(h(TEST_KEY)).unwrap())
            .unwrap();
    let msg = secp256k1::Message::from_digest(digest);
    let sig = secp256k1::ecdsa::RecoverableSignature::sign_ecdsa_recoverable(msg, &sk);
    let (recid, rs) = sig.serialize_compact();
    let mut stream = rlp::RlpStream::new_list(9);
    stream.append(&tx.nonce.bytes);
    stream.append(&tx.gas_price.bytes);
    stream.append(&tx.gas_limit.bytes);
    stream.append(&tx.to.as_ref().unwrap().bytes);
    stream.append(&tx.value.bytes);
    stream.append(&tx.data);
    stream.append(&vec![27 + recid.to_u8()]);
    stream.append(&strip(&rs[0..32]));
    stream.append(&strip(&rs[32..64]));
    assert_eq!(ours, stream.out().to_vec());
}

#[test]
fn recovered_public_key_matches_signer() {
    let key = test_key();
    let signed = encode_signed(&sign_transaction(scenario_tx(), &key).unwrap());
    let st = decode_signed(&signed).unwrap();

    let digest = keccak(&encode_unsigned(&st.fields));
    let v = st.v.bytes[0];
    let mut rs = [0u8; 64];
    rs[32 - st.r.bytes.len()..32].copy_from_slice(&st.r.bytes);
    rs[64 - st.s.bytes.len()..64].copy_from_slice(&st.s.bytes);
    let rid = secp256k1::ecdsa::RecoveryId::try_from((v - 27) as i32).unwrap();
    let sig = secp256k1::ecdsa::RecoverableSignature::from_compact(&rs, rid).unwrap();
    let recovered = sig.recover_ecdsa(secp256k1::Message::from_digest(digest)).unwrap();

    let sk =
        secp256k1::SecretKey::from_secret_bytes(<[u8; 32]>::try_from(h(TEST_KEY)).unwrap())
            .unwrap();
    let expected = secp256k1::PublicKey::from_secret_key(&sk);
    assert_eq!(recovered, expected);
}

#[test]
fn recovery_check_passes_for_many_keys_and_messages() {
    for i in 1u8..=8 {
        let key_bytes = keccak(&[i]);
        let key = match SecretKey::from_bytes(&key_bytes) {
            Some(k) => k,
            None => continue,
        };
        let mut tx = scenario_tx();
        tx.nonce = Quantity { bytes: vec![i] };
        tx.data = keccak(&[i, i]).to_vec();
        assert!(sign_transaction(tx, &key).is_ok());
    }
}

#[test]
fn secret_key_scalar_range_is_enforced() {
    assert!(SecretKey::from_bytes(&[0u8; 32]).is_none());
    assert!(SecretKey::from_bytes(&[1u8]).is_none());
    let order = h("fffffffffffffffffffffffffffffffebaaedce6af48a03bbfd25e8cd0364141");
    assert!(SecretKey::from_bytes(&order).is_none());
    let order_minus_one = h("fffffffffffffffffffffffffffffffebaaedce6af48a03bbfd25e8cd0364140");
    assert!(SecretKey::from_bytes(&order_minus_one).is_some());
    let mut one = [0u8; 32];
    one[31] = 1;
    assert!(SecretKey::from_bytes(&one).is_some());
    let all_ff = [0xffu8; 32];
    assert!(SecretKey::from_bytes(&all_ff).is_none());
}

#[test]
fn address_of_unit_key_is_the_known_one() {
    let mut one = [0u8; 32];
    one[31] = 1;
    let key = SecretKey::from_bytes(&one).unwrap();
    let addr = key_address(&key);
    assert_eq!(hexstr(&addr.bytes), "7e5f4552091a69125d5dfcb7b8c2659029395bdf");
}

#[test]
fn build_transaction_resolves_and_signs() {
    let key = test_key();
    let fields = PartialFields {
        nonce: Some(q("01")),
        gas_price: None,
        gas_limit: Some(q("5555")),
        to: Some(Address { bytes: h("deadbeefdeadbeefdeadbeefdeadbeefdeadbeef") }),
        value: Some(q("deadbeef")),
        data: None,
    };
    let defaults = ChainDefaults { nonce: None, gas_price: Some(q("01")), gas_limit: None };
    let built = build_transaction(&key, fields, defaults).unwrap();
    let direct = encode_signed(&sign_transaction(scenario_tx(), &key).unwrap());
    assert_eq!(built, direct);
}

#[test]
fn build_transaction_reports_unresolved_fields() {
    let key = test_key();
    let fields = PartialFields {
        nonce: None,
        gas_price: None,
        gas_limit: None,
        to: None,
        value: None,
        data: None,
    };
    let defaults = ChainDefaults { nonce: None, gas_price: None, gas_limit: None };
    let r = build_transaction(&key, fields, defaults);
    assert_eq!(
        r.unwrap_err(),
        BuildError::Assembly(AssemblyError::ResolutionFailed(TxField::Nonce))
    );

    let with_nonce = PartialFields {
        nonce: Some(q("01")),
        gas_price: None,
        gas_limit: None,
        to: None,
        value: None,
        data: None,
    };
    let defaults = ChainDefaults { nonce: None, gas_price: None, gas_limit: None };
    let r = build_transaction(&key, with_nonce, defaults);
    assert_eq!(
        r.unwrap_err(),
        BuildError::Assembly(AssemblyError::ResolutionFailed(TxField::GasPrice))
    );

    let with_price = PartialFields {
        nonce: Some(q("01")),
        gas_price: Some(q("01")),
        gas_limit: None,
        to: None,
        value: None,
        data: None,
    };
    let defaults = ChainDefaults { nonce: None, gas_price: None, gas_limit: None };
    let r = build_transaction(&key, with_price, defaults);
    assert_eq!(
        r.unwrap_err(),
        BuildError::Assembly(AssemblyError::ResolutionFailed(TxField::GasLimit))
    );
}

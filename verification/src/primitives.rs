//! Trusted wrappers around the outside cryptographic primitives: key
//! derivation, hashing, stream decryption and elliptic-curve signing are
//! consumed from their crates, never reimplemented. Each result that is a
//! pure function of its arguments is given an uninterpreted name, and the
//! verified code reasons over those names.

use vstd::prelude::*;
use crate::keys::valid_scalar;

verus! {

/// The Keccak-256 digest of a byte string.
pub uninterp spec fn keccak256_of(data: Seq<u8>) -> Seq<u8>;

/// Relies on `tiny_keccak::Keccak::v256`: a 32-byte digest that depends on
/// the input bytes alone.
#[verifier::external_body]
pub(crate) fn keccak256(data: &[u8]) -> (r: Vec<u8>)
    ensures
        r@ == keccak256_of(data@),
        r@.len() == 32,
{
    let mut k = tiny_keccak::Keccak::v256();
    tiny_keccak::Hasher::update(&mut k, data);
    let mut out = [0u8; 32];
    tiny_keccak::Hasher::finalize(k, &mut out);
    out.to_vec()
}

/// The PBKDF2-HMAC-SHA256 key material for a password, salt, iteration
/// count and output length.
pub uninterp spec fn pbkdf2_sha256_of(
    password: Seq<u8>,
    salt: Seq<u8>,
    iterations: u32,
    dklen: nat,
) -> Seq<u8>;

/// Relies on `ring::pbkdf2::derive` with `PBKDF2_HMAC_SHA256`: fills the
/// output with material that depends on password, salt and iteration count
/// alone. `ring` refuses an iteration count of zero.
#[verifier::external_body]
pub(crate) fn pbkdf2_sha256(password: &[u8], salt: &[u8], iterations: u32, dklen: usize) -> (r: Vec<u8>)
    requires
        iterations >= 1,
    ensures
        r@ == pbkdf2_sha256_of(password@, salt@, iterations, dklen as nat),
        r@.len() == dklen,
{
    let mut out = vec![0u8; dklen];
    ring::pbkdf2::derive(
        ring::pbkdf2::PBKDF2_HMAC_SHA256,
        core::num::NonZeroU32::new(iterations).unwrap(),
        salt,
        password,
        &mut out,
    );
    out
}

/// The AES-128-CTR keystream applied to `data` under `key` and `iv`.
pub uninterp spec fn aes128_ctr_of(key: Seq<u8>, iv: Seq<u8>, data: Seq<u8>) -> Seq<u8>;

/// Relies on `crypto::aes::ctr` (AES-128 in counter mode): a synchronous
/// stream cipher whose output depends on key, iv and input alone and keeps
/// the input length.
#[verifier::external_body]
pub(crate) fn aes128_ctr(key: &[u8], iv: &[u8], data: &[u8]) -> (r: Vec<u8>)
    requires
        key@.len() == 16,
        iv@.len() == 16,
    ensures
        r@ == aes128_ctr_of(key@, iv@, data@),
        r@.len() == data@.len(),
{
    let mut cipher = crypto::aes::ctr(crypto::aes::KeySize::KeySize128, key, iv);
    let mut out = vec![0u8; data.len()];
    cipher.process(data, &mut out);
    out
}

/// The recoverable ECDSA signature over secp256k1 for a key and a 32-byte
/// digest: the 32 bytes of `r`, the 32 bytes of `s`, then the recovery
/// identifier.
pub uninterp spec fn ecdsa_sig_of(key: Seq<u8>, digest: Seq<u8>) -> Seq<u8>;

/// Relies on `secp256k1::ecdsa::RecoverableSignature::sign_ecdsa_recoverable`,
/// which uses the RFC6979 deterministic nonce: the signature depends on the
/// key and digest alone. A key in the valid scalar range never fails to
/// parse or sign; the signature scalars libsecp256k1 produces are non-zero
/// and below the group order, and the recovery identifier is below four.
#[verifier::external_body]
pub(crate) fn ecdsa_sign_recoverable(key: &[u8], digest: &[u8]) -> (r: Vec<u8>)
    requires
        valid_scalar(key@),
        digest@.len() == 32,
    ensures
        r@ == ecdsa_sig_of(key@, digest@),
        r@.len() == 65,
        r@[64] < 4,
        valid_scalar(r@.subrange(0, 32)),
        valid_scalar(r@.subrange(32, 64)),
{
    let sk = secp256k1::SecretKey::from_secret_bytes(<[u8; 32]>::try_from(key).unwrap()).unwrap();
    let msg = secp256k1::Message::from_digest(<[u8; 32]>::try_from(digest).unwrap());
    let sig = secp256k1::ecdsa::RecoverableSignature::sign_ecdsa_recoverable(msg, &sk);
    let (recid, rs) = sig.serialize_compact();
    let mut out = rs.to_vec();
    out.push(recid.to_u8());
    out
}

/// The public key (65 uncompressed bytes) recovered from a compact
/// signature, a recovery identifier and a digest; `None` when the signature
/// does not determine a key.
pub uninterp spec fn ecdsa_recover_of(rs: Seq<u8>, recid: u8, digest: Seq<u8>) -> Option<Seq<u8>>;

/// Relies on `secp256k1::ecdsa::RecoverableSignature::recover_ecdsa` (with
/// `from_compact` to parse): recovery depends on signature, recovery
/// identifier and digest alone.
#[verifier::external_body]
pub(crate) fn ecdsa_recover(rs: &[u8], recid: u8, digest: &[u8]) -> (r: Option<Vec<u8>>)
    requires
        rs@.len() == 64,
        recid < 4,
        digest@.len() == 32,
    ensures
        r is Some <==> ecdsa_recover_of(rs@, recid, digest@) is Some,
        r is Some ==> r->0@ == ecdsa_recover_of(rs@, recid, digest@)->0 && r->0@.len() == 65,
{
    let rid = secp256k1::ecdsa::RecoveryId::from_u8_masked(recid);
    let sig = match secp256k1::ecdsa::RecoverableSignature::from_compact(rs, rid) {
        Ok(s) => s,
        Err(_) => {
            return None;
        },
    };
    let msg = secp256k1::Message::from_digest(<[u8; 32]>::try_from(digest).unwrap());
    match sig.recover_ecdsa(msg) {
        Ok(pk) => Some(pk.serialize_uncompressed().to_vec()),
        Err(_) => None,
    }
}

/// The uncompressed public key (65 bytes) of a secret key.
pub uninterp spec fn public_key_of(key: Seq<u8>) -> Seq<u8>;

/// Relies on `secp256k1::PublicKey::from_secret_key` and
/// `serialize_uncompressed`: the public key is determined by the secret key
/// alone.
#[verifier::external_body]
pub(crate) fn derive_public_key(key: &[u8]) -> (r: Vec<u8>)
    requires
        valid_scalar(key@),
    ensures
        r@ == public_key_of(key@),
        r@.len() == 65,
{
    let sk = secp256k1::SecretKey::from_secret_bytes(<[u8; 32]>::try_from(key).unwrap()).unwrap();
    let pk = secp256k1::PublicKey::from_secret_key(&sk);
    pk.serialize_uncompressed().to_vec()
}

} // verus!

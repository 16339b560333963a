//! The password-protected wallet record: structural decoding and validation,
//! then authenticated decryption into the raw secret key. The MAC over the
//! derived key material and the ciphertext is checked, in constant time,
//! before any decryption output is trusted.

use vstd::prelude::*;
use vstd::slice::{slice_subrange, slice_to_vec};
use crate::beint::ct_bytes_eq;
use crate::hexs::{decode_hex, hex_decoded, is_hex_seq};
use crate::keys::{valid_scalar, wipe_bytes, SecretKey};
use crate::primitives::{aes128_ctr, aes128_ctr_of, keccak256, keccak256_of, pbkdf2_sha256, pbkdf2_sha256_of};
use crate::jsonio::{json_member_bytes, json_member_bytes_of, json_member_u64, json_member_u64_of};

verus! {

/// The password-based key derivation schemes the record may declare.
#[derive(Debug, PartialEq, Eq, Structural, Clone, Copy)]
pub enum KdfAlgorithm {
    Pbkdf2,
}

/// A decoded, validated wallet record. Never mutated after decoding.
#[derive(Debug)]
pub struct EncryptedWallet {
    pub cipher_text: Vec<u8>,
    pub cipher_iv: Vec<u8>,
    pub kdf: KdfAlgorithm,
    pub iterations: u32,
    pub dklen: u32,
    pub salt: Vec<u8>,
    pub mac: Vec<u8>,
}

impl EncryptedWallet {
    /// The sizes the supported scheme fixes: a 32-byte key ciphertext, a
    /// 16-byte counter block, a 32-byte digest, 32 bytes of derived
    /// material, and at least one derivation round.
    pub open spec fn wf(&self) -> bool {
        &&& self.cipher_text@.len() == 32
        &&& self.cipher_iv@.len() == 16
        &&& self.mac@.len() == 32
        &&& self.dklen == 32
        &&& self.iterations >= 1
    }
}

#[derive(Debug, PartialEq, Eq, Structural, Clone, Copy)]
pub enum DecodeError {
    Malformed,
    UnsupportedAlgorithm,
}

#[derive(Debug, PartialEq, Eq, Structural, Clone, Copy)]
pub enum DecryptError {
    AuthenticationFailed,
    InvalidKey,
}

#[derive(Debug, PartialEq, Eq, Structural, Clone, Copy)]
pub enum KeyfileError {
    Decode(DecodeError),
    Decrypt(DecryptError),
}

/// The plain fields read out of a wallet record before validation; a
/// missing or mistyped field is `None`. Identifier and hexadecimal fields
/// are ASCII bytes.
#[derive(Debug)]
pub struct RawWalletRecord {
    pub cipher: Option<Vec<u8>>,
    pub iv_hex: Option<Vec<u8>>,
    pub cipher_text_hex: Option<Vec<u8>>,
    pub kdf: Option<Vec<u8>>,
    pub iterations: Option<u64>,
    pub dklen: Option<u64>,
    pub prf: Option<Vec<u8>>,
    pub salt_hex: Option<Vec<u8>>,
    pub mac_hex: Option<Vec<u8>>,
}

/// The same plain fields at the specification level.
pub struct RawRecordView {
    pub cipher: Option<Seq<u8>>,
    pub iv_hex: Option<Seq<u8>>,
    pub cipher_text_hex: Option<Seq<u8>>,
    pub kdf: Option<Seq<u8>>,
    pub iterations: Option<u64>,
    pub dklen: Option<u64>,
    pub prf: Option<Seq<u8>>,
    pub salt_hex: Option<Seq<u8>>,
    pub mac_hex: Option<Seq<u8>>,
}

pub open spec fn view_opt_bytes(o: Option<Vec<u8>>) -> Option<Seq<u8>> {
    match o {
        Option::Some(v) => Option::Some(v@),
        Option::None => Option::None,
    }
}

impl RawWalletRecord {
    pub open spec fn as_view(&self) -> RawRecordView {
        RawRecordView {
            cipher: view_opt_bytes(self.cipher),
            iv_hex: view_opt_bytes(self.iv_hex),
            cipher_text_hex: view_opt_bytes(self.cipher_text_hex),
            kdf: view_opt_bytes(self.kdf),
            iterations: self.iterations,
            dklen: self.dklen,
            prf: view_opt_bytes(self.prf),
            salt_hex: view_opt_bytes(self.salt_hex),
            mac_hex: view_opt_bytes(self.mac_hex),
        }
    }
}

/// The plain fields a wallet document yields: each one the named result of
/// the trusted JSON read at its place in the record.
pub open spec fn wallet_record_view(doc: Seq<char>) -> RawRecordView {
    RawRecordView {
        cipher: json_member_bytes_of(doc, "/crypto/cipher"@),
        iv_hex: json_member_bytes_of(doc, "/crypto/cipherparams/iv"@),
        cipher_text_hex: json_member_bytes_of(doc, "/crypto/ciphertext"@),
        kdf: json_member_bytes_of(doc, "/crypto/kdf"@),
        iterations: json_member_u64_of(doc, "/crypto/kdfparams/c"@),
        dklen: json_member_u64_of(doc, "/crypto/kdfparams/dklen"@),
        prf: json_member_bytes_of(doc, "/crypto/kdfparams/prf"@),
        salt_hex: json_member_bytes_of(doc, "/crypto/kdfparams/salt"@),
        mac_hex: json_member_bytes_of(doc, "/crypto/mac"@),
    }
}

/// The ASCII identifier of the supported cipher, `aes-128-ctr`.
pub open spec fn cipher_id() -> Seq<u8> {
    seq![97u8, 101u8, 115u8, 45u8, 49u8, 50u8, 56u8, 45u8, 99u8, 116u8, 114u8]
}

/// The ASCII identifier of the supported derivation scheme, `pbkdf2`.
pub open spec fn kdf_id() -> Seq<u8> {
    seq![112u8, 98u8, 107u8, 100u8, 102u8, 50u8]
}

/// The ASCII identifier of the supported pseudo-random function,
/// `hmac-sha256`.
pub open spec fn prf_id() -> Seq<u8> {
    seq![104u8, 109u8, 97u8, 99u8, 45u8, 115u8, 104u8, 97u8, 50u8, 53u8, 54u8]
}

pub open spec fn fields_present(r: RawRecordView) -> bool {
    &&& r.cipher is Some
    &&& r.iv_hex is Some
    &&& r.cipher_text_hex is Some
    &&& r.kdf is Some
    &&& r.iterations is Some
    &&& r.dklen is Some
    &&& r.prf is Some
    &&& r.salt_hex is Some
    &&& r.mac_hex is Some
}

pub open spec fn algorithm_supported(r: RawRecordView) -> bool {
    &&& r.cipher->0 == cipher_id()
    &&& r.kdf->0 == kdf_id()
    &&& r.prf->0 == prf_id()
    &&& r.dklen->0 == 32
}

pub open spec fn hex_field_ok(s: Seq<u8>) -> bool {
    s.len() % 2 == 0 && is_hex_seq(s)
}

/// The validation outcome of a raw record: the error it is rejected with,
/// or `None` where it decodes.
pub open spec fn decode_outcome(r: RawRecordView) -> Option<DecodeError> {
    if !fields_present(r) {
        Option::Some(DecodeError::Malformed)
    } else if !algorithm_supported(r) {
        Option::Some(DecodeError::UnsupportedAlgorithm)
    } else if !(1 <= r.iterations->0 <= u32::MAX as u64) {
        Option::Some(DecodeError::Malformed)
    } else if !hex_field_ok(r.iv_hex->0) || !hex_field_ok(r.cipher_text_hex->0) || !hex_field_ok(
        r.salt_hex->0,
    ) || !hex_field_ok(r.mac_hex->0) {
        Option::Some(DecodeError::Malformed)
    } else if hex_decoded(r.iv_hex->0).len() != 16 || hex_decoded(r.cipher_text_hex->0).len() != 32
        || hex_decoded(r.mac_hex->0).len() != 32 {
        Option::Some(DecodeError::Malformed)
    } else {
        Option::None
    }
}

fn cipher_id_bytes() -> (r: Vec<u8>)
    ensures
        r@ == cipher_id(),
{
    let v: Vec<u8> = vec![97, 101, 115, 45, 49, 50, 56, 45, 99, 116, 114];
    proof {
        assert(v@ =~= cipher_id());
    }
    v
}

fn kdf_id_bytes() -> (r: Vec<u8>)
    ensures
        r@ == kdf_id(),
{
    let v: Vec<u8> = vec![112, 98, 107, 100, 102, 50];
    proof {
        assert(v@ =~= kdf_id());
    }
    v
}

fn prf_id_bytes() -> (r: Vec<u8>)
    ensures
        r@ == prf_id(),
{
    let v: Vec<u8> = vec![104, 109, 97, 99, 45, 115, 104, 97, 50, 53, 54];
    proof {
        assert(v@ =~= prf_id());
    }
    v
}

/// Validate a raw record and build the wallet: every field present, only
/// the supported cipher/KDF/PRF identifiers and a 32-byte derived-key
/// length accepted, hexadecimal fields well-formed, and the ciphertext, IV
/// and MAC of the sizes the scheme fixes. No cryptographic work happens
/// here.
pub fn decode_record(raw: &RawWalletRecord) -> (r: Result<EncryptedWallet, DecodeError>)
    ensures
        r is Err <==> decode_outcome(raw.as_view()) is Some,
        r is Err ==> r->Err_0 == decode_outcome(raw.as_view())->0,
        r is Ok ==> ({
            let v = raw.as_view();
            let w = r->Ok_0;
            &&& w.wf()
            &&& w.cipher_text@ == hex_decoded(v.cipher_text_hex->0)
            &&& w.cipher_iv@ == hex_decoded(v.iv_hex->0)
            &&& w.salt@ == hex_decoded(v.salt_hex->0)
            &&& w.mac@ == hex_decoded(v.mac_hex->0)
            &&& w.iterations == v.iterations->0
            &&& w.kdf == KdfAlgorithm::Pbkdf2
            &&& w.dklen == 32
        }),
{
    let (cipher, iv_hex, ct_hex, kdf, iterations, dklen, prf, salt_hex, mac_hex) = match (
        &raw.cipher,
        &raw.iv_hex,
        &raw.cipher_text_hex,
        &raw.kdf,
        &raw.iterations,
        &raw.dklen,
        &raw.prf,
        &raw.salt_hex,
        &raw.mac_hex,
    ) {
        (
            Some(a),
            Some(b),
            Some(c),
            Some(d),
            Some(e),
            Some(f),
            Some(g),
            Some(h),
            Some(i),
        ) => (a, b, c, d, *e, *f, g, h, i),
        _ => {
            return Err(DecodeError::Malformed);
        },
    };
    let cid = cipher_id_bytes();
    let kid = kdf_id_bytes();
    let pid = prf_id_bytes();
    if !crate::keys::bytes_equal(cipher.as_slice(), cid.as_slice()) || !crate::keys::bytes_equal(
        kdf.as_slice(),
        kid.as_slice(),
    ) || !crate::keys::bytes_equal(prf.as_slice(), pid.as_slice()) || dklen != 32 {
        return Err(DecodeError::UnsupportedAlgorithm);
    }
    if iterations < 1 || iterations > u32::MAX as u64 {
        return Err(DecodeError::Malformed);
    }
    let iv = match decode_hex(iv_hex.as_slice()) {
        Some(v) => v,
        None => {
            return Err(DecodeError::Malformed);
        },
    };
    let ct = match decode_hex(ct_hex.as_slice()) {
        Some(v) => v,
        None => {
            return Err(DecodeError::Malformed);
        },
    };
    let salt = match decode_hex(salt_hex.as_slice()) {
        Some(v) => v,
        None => {
            return Err(DecodeError::Malformed);
        },
    };
    let mac = match decode_hex(mac_hex.as_slice()) {
        Some(v) => v,
        None => {
            return Err(DecodeError::Malformed);
        },
    };
    if iv.len() != 16 || ct.len() != 32 || mac.len() != 32 {
        return Err(DecodeError::Malformed);
    }
    Ok(EncryptedWallet {
        cipher_text: ct,
        cipher_iv: iv,
        kdf: KdfAlgorithm::Pbkdf2,
        iterations: iterations as u32,
        dklen: 32,
        salt,
        mac,
    })
}

/// The key material derived from a password and the record's parameters.
pub open spec fn derived_key_of(password: Seq<u8>, salt: Seq<u8>, iterations: u32) -> Seq<u8> {
    pbkdf2_sha256_of(password, salt, iterations, 32)
}

/// The MAC the record must carry for this password: the digest of the high
/// half of the derived key followed by the ciphertext.
pub open spec fn mac_candidate_of(
    password: Seq<u8>,
    salt: Seq<u8>,
    iterations: u32,
    cipher_text: Seq<u8>,
) -> Seq<u8> {
    keccak256_of(derived_key_of(password, salt, iterations).subrange(16, 32) + cipher_text)
}

/// The bytes decryption yields: the ciphertext under the low half of the
/// derived key and the record's counter block.
pub open spec fn decrypted_key_of(
    password: Seq<u8>,
    salt: Seq<u8>,
    iterations: u32,
    iv: Seq<u8>,
    cipher_text: Seq<u8>,
) -> Seq<u8> {
    aes128_ctr_of(derived_key_of(password, salt, iterations).subrange(0, 16), iv, cipher_text)
}

pub open spec fn derived_key(w: EncryptedWallet, password: Seq<u8>) -> Seq<u8> {
    derived_key_of(password, w.salt@, w.iterations)
}

pub open spec fn mac_candidate(w: EncryptedWallet, password: Seq<u8>) -> Seq<u8> {
    mac_candidate_of(password, w.salt@, w.iterations, w.cipher_text@)
}

pub open spec fn decrypted_key(w: EncryptedWallet, password: Seq<u8>) -> Seq<u8> {
    decrypted_key_of(password, w.salt@, w.iterations, w.cipher_iv@, w.cipher_text@)
}

/// Derive the key material, authenticate the ciphertext before trusting
/// any decryption, then decrypt and validate the recovered scalar. A MAC
/// mismatch reports only `AuthenticationFailed`: a wrong password and a
/// tampered record are indistinguishable by design.
pub fn decrypt_wallet(wallet: &EncryptedWallet, password: &[u8]) -> (r: Result<
    SecretKey,
    DecryptError,
>)
    requires
        wallet.wf(),
    ensures
        r == Result::<SecretKey, DecryptError>::Err(DecryptError::AuthenticationFailed) <==> mac_candidate(
            *wallet,
            password@,
        ) != wallet.mac@,
        mac_candidate(*wallet, password@) == wallet.mac@ ==> {
            &&& (r is Ok <==> valid_scalar(decrypted_key(*wallet, password@)))
            &&& (r is Ok ==> r->Ok_0.bytes@ == decrypted_key(*wallet, password@))
            &&& (r is Err ==> r->Err_0 == DecryptError::InvalidKey)
        },
{
    let mut dk = pbkdf2_sha256(password, wallet.salt.as_slice(), wallet.iterations, 32);
    let dec_half = slice_subrange(dk.as_slice(), 0, 16);
    let mac_half = slice_subrange(dk.as_slice(), 16, 32);
    let mut mac_input = slice_to_vec(mac_half);
    mac_input.extend_from_slice(wallet.cipher_text.as_slice());
    proof {
        assert(mac_input@ =~= derived_key(*wallet, password@).subrange(16, 32)
            + wallet.cipher_text@);
    }
    let candidate = keccak256(mac_input.as_slice());
    wipe_bytes(&mut mac_input);
    if !ct_bytes_eq(candidate.as_slice(), wallet.mac.as_slice()) {
        wipe_bytes(&mut dk);
        return Err(DecryptError::AuthenticationFailed);
    }
    let mut plain = aes128_ctr(dec_half, wallet.cipher_iv.as_slice(), wallet.cipher_text.as_slice());
    let recovered = SecretKey::from_bytes(plain.as_slice());
    wipe_bytes(&mut plain);
    wipe_bytes(&mut dk);
    match recovered {
        Some(k) => Ok(k),
        None => Err(DecryptError::InvalidKey),
    }
}

/// Read the plain fields out of a wallet document; a field that is missing
/// or not of the expected shape is left `None` for `decode_record` to
/// reject.
fn read_wallet_record(raw: &str) -> (rec: RawWalletRecord)
    ensures
        rec.as_view() == wallet_record_view(raw@),
{
    let rec = RawWalletRecord {
        cipher: json_member_bytes(raw, "/crypto/cipher"),
        iv_hex: json_member_bytes(raw, "/crypto/cipherparams/iv"),
        cipher_text_hex: json_member_bytes(raw, "/crypto/ciphertext"),
        kdf: json_member_bytes(raw, "/crypto/kdf"),
        iterations: json_member_u64(raw, "/crypto/kdfparams/c"),
        dklen: json_member_u64(raw, "/crypto/kdfparams/dklen"),
        prf: json_member_bytes(raw, "/crypto/kdfparams/prf"),
        salt_hex: json_member_bytes(raw, "/crypto/kdfparams/salt"),
        mac_hex: json_member_bytes(raw, "/crypto/mac"),
    };
    proof {
        assert(rec.as_view().cipher == wallet_record_view(raw@).cipher);
        assert(rec.as_view().iv_hex == wallet_record_view(raw@).iv_hex);
        assert(rec.as_view().cipher_text_hex == wallet_record_view(raw@).cipher_text_hex);
        assert(rec.as_view().kdf == wallet_record_view(raw@).kdf);
        assert(rec.as_view().prf == wallet_record_view(raw@).prf);
        assert(rec.as_view().salt_hex == wallet_record_view(raw@).salt_hex);
        assert(rec.as_view().mac_hex == wallet_record_view(raw@).mac_hex);
    }
    rec
}

/// Decode a wallet document: read the record's plain fields at their
/// places and validate them. The result is exactly `decode_record`'s
/// outcome on the fields the document holds: a document that does not
/// parse or misses a field is malformed, an unsupported scheme is
/// rejected as such, and on success the wallet carries the hex-decoded
/// fields.
pub fn decode_wallet(raw: &str) -> (r: Result<EncryptedWallet, DecodeError>)
    ensures
        ({
            let rec = wallet_record_view(raw@);
            &&& (r is Err <==> decode_outcome(rec) is Some)
            &&& (r is Err ==> r->Err_0 == decode_outcome(rec)->0)
            &&& (r is Ok ==> {
                let w = r->Ok_0;
                &&& w.wf()
                &&& w.cipher_text@ == hex_decoded(rec.cipher_text_hex->0)
                &&& w.cipher_iv@ == hex_decoded(rec.iv_hex->0)
                &&& w.salt@ == hex_decoded(rec.salt_hex->0)
                &&& w.mac@ == hex_decoded(rec.mac_hex->0)
                &&& w.iterations == rec.iterations->0
                &&& w.kdf == KdfAlgorithm::Pbkdf2
                &&& w.dklen == 32
            })
        }),
{
    let record = read_wallet_record(raw);
    decode_record(&record)
}

/// Recover the secret key from a wallet document and a password: decode,
/// authenticate, decrypt and validate, each stage's error carried through.
pub fn recover_key(raw: &str, password: &[u8]) -> (r: Result<SecretKey, KeyfileError>)
    ensures
        ({
            let rec = wallet_record_view(raw@);
            let outcome = decode_outcome(rec);
            &&& (outcome is Some ==> r == Result::<SecretKey, KeyfileError>::Err(
                KeyfileError::Decode(outcome->0),
            ))
            &&& (outcome is None ==> ({
                let salt = hex_decoded(rec.salt_hex->0);
                let iv = hex_decoded(rec.iv_hex->0);
                let ct = hex_decoded(rec.cipher_text_hex->0);
                let iters = rec.iterations->0 as u32;
                let cand = mac_candidate_of(password@, salt, iters, ct);
                let stored_mac = hex_decoded(rec.mac_hex->0);
                &&& (r == Result::<SecretKey, KeyfileError>::Err(KeyfileError::Decrypt(
                    DecryptError::AuthenticationFailed,
                )) <==> cand != stored_mac)
                &&& (cand == stored_mac ==> {
                    let plain = decrypted_key_of(password@, salt, iters, iv, ct);
                    &&& (r is Ok <==> valid_scalar(plain))
                    &&& (r is Ok ==> r->Ok_0.bytes@ == plain)
                    &&& (!valid_scalar(plain) ==> r == Result::<SecretKey, KeyfileError>::Err(
                        KeyfileError::Decrypt(DecryptError::InvalidKey),
                    ))
                })
            }))
            &&& (r is Ok ==> r->Ok_0.wf())
        }),
{
    let wallet = match decode_wallet(raw) {
        Ok(w) => w,
        Err(e) => {
            return Err(KeyfileError::Decode(e));
        },
    };
    proof {
        let rec = wallet_record_view(raw@);
        assert(wallet.iterations == rec.iterations->0 as u32);
        assert(mac_candidate(wallet, password@) == mac_candidate_of(
            password@,
            hex_decoded(rec.salt_hex->0),
            rec.iterations->0 as u32,
            hex_decoded(rec.cipher_text_hex->0),
        ));
        assert(decrypted_key(wallet, password@) == decrypted_key_of(
            password@,
            hex_decoded(rec.salt_hex->0),
            rec.iterations->0 as u32,
            hex_decoded(rec.iv_hex->0),
            hex_decoded(rec.cipher_text_hex->0),
        ));
    }
    match decrypt_wallet(&wallet, password) {
        Ok(k) => Ok(k),
        Err(e) => Err(KeyfileError::Decrypt(e)),
    }
}

/// Tampering with the ciphertext of a record that authenticates under some
/// password can survive authentication only by colliding Keccak-256: the
/// altered record's MAC input differs from the original's, yet both would
/// have to digest to the stored MAC.
pub proof fn lemma_altered_ciphertext_authenticates_only_on_collision(
    w1: EncryptedWallet,
    w2: EncryptedWallet,
    password: Seq<u8>,
)
    requires
        mac_candidate(w1, password) == w1.mac@,
        w2.cipher_text@ != w1.cipher_text@,
        w2.salt@ == w1.salt@,
        w2.iterations == w1.iterations,
        w2.mac@ == w1.mac@,
        mac_candidate(w2, password) == w2.mac@,
    ensures
        ({
            let half = derived_key(w1, password).subrange(16, 32);
            &&& keccak256_of(half + w2.cipher_text@) == keccak256_of(half + w1.cipher_text@)
            &&& half + w2.cipher_text@ != half + w1.cipher_text@
        }),
{
    let half = derived_key(w1, password).subrange(16, 32);
    assert(derived_key(w2, password) == derived_key(w1, password));
    if half + w2.cipher_text@ == half + w1.cipher_text@ {
        assert(w2.cipher_text@ =~= w1.cipher_text@) by {
            let a = half + w2.cipher_text@;
            let b = half + w1.cipher_text@;
            assert(a.len() == b.len());
            assert(forall|i: int| 0 <= i < w2.cipher_text@.len() ==> #[trigger] w2.cipher_text@[i]
                == a[half.len() + i] && w1.cipher_text@[i] == b[half.len() + i]);
        }
    }
}

/// Tampering with the stored MAC of a record that authenticates under some
/// password leaves a record that fails authentication under that password:
/// the candidate MAC depends only on the untouched fields, so it still
/// equals the original MAC and no longer matches the altered one.
pub proof fn lemma_altered_mac_rejected(
    w1: EncryptedWallet,
    w2: EncryptedWallet,
    password: Seq<u8>,
)
    requires
        mac_candidate(w1, password) == w1.mac@,
        w2.cipher_text@ == w1.cipher_text@,
        w2.salt@ == w1.salt@,
        w2.iterations == w1.iterations,
        w2.mac@ != w1.mac@,
    ensures
        mac_candidate(w2, password) != w2.mac@,
{
    assert(derived_key(w2, password) == derived_key(w1, password));
}

} // verus!

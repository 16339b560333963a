//! The secret signing key, its derived public key and address, and
//! deterministic recoverable signing of transactions.

use vstd::prelude::*;
use vstd::slice::{slice_subrange, slice_to_vec};
use crate::beint::{
    be_bytes, be_nat, is_all_zero, be_bytes_lt, lemma_be_nat_of_be_bytes,
    lemma_strip_leading_zeros, strip_leading_zeros,
};
use crate::primitives::{
    derive_public_key, ecdsa_recover, ecdsa_recover_of, ecdsa_sig_of, ecdsa_sign_recoverable,
    keccak256, keccak256_of, public_key_of,
};
use crate::tx::{
    encode_signed, encode_unsigned, to_item, unsigned_payload, unsigned_tx_enc, ChainDefaults,
    PartialFields, Quantity, SignedTx, TxFields, assemble, AssemblyError, TxField, signed_tx_enc,
    signed_payload, Address,
};
use crate::rlp::{rlp_list_enc, rlp_str_enc};

verus! {

/// The order of the secp256k1 group, big-endian.
pub open spec fn curve_order() -> Seq<u8> {
    seq![
        0xffu8, 0xffu8, 0xffu8, 0xffu8, 0xffu8, 0xffu8, 0xffu8, 0xffu8,
        0xffu8, 0xffu8, 0xffu8, 0xffu8, 0xffu8, 0xffu8, 0xffu8, 0xfeu8,
        0xbau8, 0xaeu8, 0xdcu8, 0xe6u8, 0xafu8, 0x48u8, 0xa0u8, 0x3bu8,
        0xbfu8, 0xd2u8, 0x5eu8, 0x8cu8, 0xd0u8, 0x36u8, 0x41u8, 0x41u8,
    ]
}

pub fn curve_order_bytes() -> (r: Vec<u8>)
    ensures
        r@ == curve_order(),
        r@.len() == 32,
{
    let out: Vec<u8> = vec![
        0xff, 0xff, 0xff, 0xff, 0xff, 0xff, 0xff, 0xff,
        0xff, 0xff, 0xff, 0xff, 0xff, 0xff, 0xff, 0xfe,
        0xba, 0xae, 0xdc, 0xe6, 0xaf, 0x48, 0xa0, 0x3b,
        0xbf, 0xd2, 0x5e, 0x8c, 0xd0, 0x36, 0x41, 0x41,
    ];
    proof {
        assert(out@ =~= curve_order());
    }
    out
}

/// A valid secret scalar: 32 bytes, non-zero, and below the group order.
pub open spec fn valid_scalar(s: Seq<u8>) -> bool {
    &&& s.len() == 32
    &&& be_nat(s) > 0
    &&& be_nat(s) < be_nat(curve_order())
}

/// A 32-byte secret signing key in the valid scalar range. It lives only
/// for the span of one signing flow and is never encoded into an error.
pub struct SecretKey {
    pub bytes: Vec<u8>,
}

impl SecretKey {
    pub open spec fn wf(&self) -> bool {
        valid_scalar(self.bytes@)
    }

    /// Erase the key material in place once the signing flow is done.
    pub fn wipe(&mut self)
        ensures
            forall|i: int| 0 <= i < final(self).bytes@.len() ==> final(self).bytes@[i] == 0,
    {
        wipe_bytes(&mut self.bytes);
    }

    /// Accept exactly the byte strings in the valid scalar range.
    pub fn from_bytes(b: &[u8]) -> (r: Option<SecretKey>)
        ensures
            r is Some <==> valid_scalar(b@),
            r is Some ==> r->0.bytes@ == b@ && r->0.wf(),
    {
        if b.len() != 32 {
            return None;
        }
        if is_all_zero(b) {
            return None;
        }
        let order = curve_order_bytes();
        if !be_bytes_lt(b, order.as_slice()) {
            return None;
        }
        Some(SecretKey { bytes: slice_to_vec(b) })
    }
}

/// The account address of a key: the low 20 bytes of the Keccak-256 digest
/// of the uncompressed public key body.
pub open spec fn address_of(key: Seq<u8>) -> Seq<u8> {
    keccak256_of(public_key_of(key).subrange(1, 65)).subrange(12, 32)
}

/// Derive the address that belongs to a secret key.
pub fn key_address(key: &SecretKey) -> (r: Address)
    requires
        key.wf(),
    ensures
        r.bytes@ == address_of(key.bytes@),
        r.wf(),
{
    let pk = derive_public_key(key.bytes.as_slice());
    let body = slice_subrange(pk.as_slice(), 1, 65);
    let digest = keccak256(body);
    let addr = slice_to_vec(slice_subrange(digest.as_slice(), 12, 32));
    Address { bytes: addr }
}

#[derive(Debug, PartialEq, Eq, Structural, Clone, Copy)]
pub enum SignError {
    RecoveryFailed,
}

/// Overwrite a byte buffer with zeros, so derived key material does not
/// outlive its use.
pub fn wipe_bytes(v: &mut Vec<u8>)
    ensures
        final(v)@.len() == old(v)@.len(),
        forall|i: int| 0 <= i < final(v)@.len() ==> final(v)@[i] == 0,
{
    let mut i: usize = 0;
    while i < v.len()
        invariant
            i <= v@.len(),
            v@.len() == old(v)@.len(),
            forall|j: int| 0 <= j < i ==> v@[j] == 0,
        decreases v@.len() - i,
    {
        v[i] = 0;
        i = i + 1;
    }
}

/// Whether two byte strings hold the same bytes.
pub fn bytes_equal(a: &[u8], b: &[u8]) -> (r: bool)
    ensures
        r == (a@ =~= b@),
{
    if a.len() != b.len() {
        return false;
    }
    let mut i: usize = 0;
    while i < a.len()
        invariant
            a@.len() == b@.len(),
            i <= a@.len(),
            forall|j: int| 0 <= j < i ==> a@[j] == b@[j],
        decreases a@.len() - i,
    {
        if a[i] != b[i] {
            return false;
        }
        i = i + 1;
    }
    true
}

/// The signed encoding determined by an unsigned payload and a key: the
/// deterministic signature over the payload's list-encoding digest, with
/// the recovery identifier carried as `27 + id`.
pub open spec fn signed_enc_of_payload(payload: Seq<u8>, key: Seq<u8>) -> Seq<u8> {
    let digest = keccak256_of(rlp_list_enc(payload));
    let sig = ecdsa_sig_of(key, digest);
    rlp_list_enc(
        payload + rlp_str_enc(be_bytes((27 + sig[64]) as nat)) + rlp_str_enc(
            strip_leading_zeros(sig.subrange(0, 32)),
        ) + rlp_str_enc(strip_leading_zeros(sig.subrange(32, 64))),
    )
}

/// The signed encoding determined by a transaction and a key.
pub open spec fn signed_enc_of(t: TxFields, key: Seq<u8>) -> Seq<u8> {
    signed_enc_of_payload(unsigned_payload(t), key)
}

/// Signing is deterministic: one transaction and one key determine one
/// signed encoding, so signing the same input twice yields identical bytes.
pub proof fn lemma_signing_deterministic(t1: TxFields, t2: TxFields, k1: Seq<u8>, k2: Seq<u8>)
    requires
        t1 == t2,
        k1 == k2,
    ensures
        signed_enc_of(t1, k1) == signed_enc_of(t2, k2),
{
}

/// Hash the canonical unsigned encoding, sign it deterministically, and
/// append the recovery identifier and the signature scalars as canonical
/// quantities. The recovery identifier is checked: the key recovered from
/// (r, s, id, digest) must be the signing key's public key, and signing
/// fails with `RecoveryFailed` otherwise. The signature scalars are
/// non-zero and below the group order, and the identifier below four.
#[verifier::rlimit(60)]
pub fn sign_transaction(t: TxFields, key: &SecretKey) -> (r: Result<SignedTx, SignError>)
    requires
        t.wf(),
        key.wf(),
    ensures
        ({
            let digest = keccak256_of(unsigned_tx_enc(t));
            let sig = ecdsa_sig_of(key.bytes@, digest);
            &&& valid_scalar(sig.subrange(0, 32))
            &&& valid_scalar(sig.subrange(32, 64))
            &&& sig[64] < 4
            &&& (r is Ok <==> ecdsa_recover_of(sig.subrange(0, 64), sig[64], digest)
                == Option::Some(public_key_of(key.bytes@)))
            &&& (r is Err ==> r->Err_0 == SignError::RecoveryFailed)
            &&& (r is Ok ==> {
                let st = r->Ok_0;
                &&& st.fields == t
                &&& st.v.bytes@ == be_bytes((27 + sig[64]) as nat)
                &&& st.r.bytes@ == strip_leading_zeros(sig.subrange(0, 32))
                &&& st.s.bytes@ == strip_leading_zeros(sig.subrange(32, 64))
                &&& 0 < st.r.value() < be_nat(curve_order())
                &&& 0 < st.s.value() < be_nat(curve_order())
                &&& 27 <= st.v.value() <= 30
                &&& st.wf()
                &&& signed_tx_enc(st) == signed_enc_of(t, key.bytes@)
            })
        }),
{
    let unsigned = encode_unsigned(&t);
    let digest = keccak256(unsigned.as_slice());
    let sig = ecdsa_sign_recoverable(key.bytes.as_slice(), digest.as_slice());
    let rs = slice_subrange(sig.as_slice(), 0, 64);
    let recid = sig[64];
    let pubkey = derive_public_key(key.bytes.as_slice());
    let recovered = ecdsa_recover(rs, recid, digest.as_slice());
    let matches_key = match &recovered {
        Some(pk) => bytes_equal(pk.as_slice(), pubkey.as_slice()),
        None => false,
    };
    if !matches_key {
        return Err(SignError::RecoveryFailed);
    }
    let v = Quantity::from_u64(27 + recid as u64);
    let rq = match Quantity::from_be_bytes(slice_subrange(sig.as_slice(), 0, 32)) {
        Some(q) => q,
        None => {
            proof {
                lemma_strip_leading_zeros(sig@.subrange(0, 32));
            }
            return Err(SignError::RecoveryFailed);
        },
    };
    let sq = match Quantity::from_be_bytes(slice_subrange(sig.as_slice(), 32, 64)) {
        Some(q) => q,
        None => {
            proof {
                lemma_strip_leading_zeros(sig@.subrange(32, 64));
            }
            return Err(SignError::RecoveryFailed);
        },
    };
    let st = SignedTx { fields: t, v, r: rq, s: sq };
    proof {
        lemma_strip_leading_zeros(sig@.subrange(0, 32));
        lemma_strip_leading_zeros(sig@.subrange(32, 64));
        lemma_be_nat_of_be_bytes((27 + recid) as nat);
        let spec_digest = keccak256_of(unsigned_tx_enc(st.fields));
        let spec_sig = ecdsa_sig_of(key.bytes@, spec_digest);
        assert(signed_payload(st) =~= unsigned_payload(st.fields) + rlp_str_enc(
            be_bytes((27 + spec_sig[64]) as nat),
        ) + rlp_str_enc(strip_leading_zeros(spec_sig.subrange(0, 32))) + rlp_str_enc(
            strip_leading_zeros(spec_sig.subrange(32, 64)),
        ));
    }
    Ok(st)
}

#[derive(Debug, PartialEq, Eq, Structural, Clone, Copy)]
pub enum BuildError {
    Assembly(AssemblyError),
    Sign(SignError),
}

/// The resolved bytes of a quantity field: the caller's value if given,
/// else the chain default.
pub open spec fn resolved_qty(field: Option<Quantity>, dflt: Option<Quantity>) -> Seq<u8> {
    if field is Some {
        field->0.bytes@
    } else {
        dflt->0.bytes@
    }
}

pub open spec fn opt_qty_bytes(field: Option<Quantity>) -> Seq<u8> {
    if field is Some {
        field->0.bytes@
    } else {
        Seq::empty()
    }
}

pub open spec fn opt_data_bytes(d: Option<Vec<u8>>) -> Seq<u8> {
    if d is Some {
        d->0@
    } else {
        Seq::empty()
    }
}

/// The unsigned payload that assembly produces from caller fields and
/// chain defaults.
pub open spec fn assembled_payload(f: PartialFields, d: ChainDefaults) -> Seq<u8> {
    rlp_str_enc(resolved_qty(f.nonce, d.nonce)) + rlp_str_enc(resolved_qty(f.gas_price, d.gas_price))
        + rlp_str_enc(resolved_qty(f.gas_limit, d.gas_limit)) + rlp_str_enc(to_item(f.to))
        + rlp_str_enc(opt_qty_bytes(f.value)) + rlp_str_enc(opt_data_bytes(f.data))
}

/// Whether every queried field has either a caller value or a default.
pub open spec fn resolvable(f: PartialFields, d: ChainDefaults) -> bool {
    &&& (f.nonce is Some || d.nonce is Some)
    &&& (f.gas_price is Some || d.gas_price is Some)
    &&& (f.gas_limit is Some || d.gas_limit is Some)
}

/// Assemble the transaction from caller fields and chain defaults, sign it
/// with the key, and return the wire-ready signed encoding. No partial
/// result: the first unresolvable field or a failed recovery check is an
/// error that names its stage.
#[verifier::rlimit(60)]
pub fn build_transaction(key: &SecretKey, fields: PartialFields, defaults: ChainDefaults) -> (r:
    Result<Vec<u8>, BuildError>)
    requires
        key.wf(),
        fields.wf(),
        defaults.wf(),
    ensures
        ({
            let payload = assembled_payload(fields, defaults);
            let digest = keccak256_of(rlp_list_enc(payload));
            let sig = ecdsa_sig_of(key.bytes@, digest);
            &&& (r is Ok <==> resolvable(fields, defaults) && ecdsa_recover_of(
                sig.subrange(0, 64),
                sig[64],
                digest,
            ) == Option::Some(public_key_of(key.bytes@)))
            &&& (r is Ok ==> r->Ok_0@ == signed_enc_of_payload(payload, key.bytes@))
            &&& (r is Ok ==> valid_scalar(sig.subrange(0, 32)) && valid_scalar(
                sig.subrange(32, 64),
            ) && sig[64] < 4)
            &&& (fields.nonce is None && defaults.nonce is None ==> r == Result::<
                Vec<u8>,
                BuildError,
            >::Err(BuildError::Assembly(AssemblyError::ResolutionFailed(TxField::Nonce))))
            &&& ((fields.nonce is Some || defaults.nonce is Some) && fields.gas_price is None
                && defaults.gas_price is None ==> r == Result::<Vec<u8>, BuildError>::Err(
                BuildError::Assembly(AssemblyError::ResolutionFailed(TxField::GasPrice)),
            ))
            &&& ((fields.nonce is Some || defaults.nonce is Some) && (fields.gas_price is Some
                || defaults.gas_price is Some) && fields.gas_limit is None
                && defaults.gas_limit is None ==> r == Result::<Vec<u8>, BuildError>::Err(
                BuildError::Assembly(AssemblyError::ResolutionFailed(TxField::GasLimit)),
            ))
            &&& (resolvable(fields, defaults) && r is Err ==> r == Result::<
                Vec<u8>,
                BuildError,
            >::Err(BuildError::Sign(SignError::RecoveryFailed)))
        }),
{
    let t = match assemble(fields, defaults) {
        Ok(t) => t,
        Err(e) => {
            return Err(BuildError::Assembly(e));
        },
    };
    proof {
        assert(unsigned_payload(t) =~= assembled_payload(fields, defaults));
    }
    let st = match sign_transaction(t, key) {
        Ok(st) => st,
        Err(e) => {
            return Err(BuildError::Sign(e));
        },
    };
    let out = encode_signed(&st);
    Ok(out)
}

} // verus!

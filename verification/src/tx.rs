//! Transaction fields, field resolution, and the canonical unsigned and
//! signed encodings with their round-trip decoder.

use vstd::prelude::*;
use crate::beint::{
    be_bytes, be_nat, is_minimal_be, lemma_be_bytes_len_mono, lemma_be_bytes_minimal,
    lemma_be_nat_of_be_bytes, lemma_strip_leading_zeros, strip_leading_zeros,
};
use crate::rlp::{
    append_rlp_str, be_bytes_of_u64, read_list_frame, read_str_item, rlp_list_enc, rlp_list_hdr,
    rlp_list_header, rlp_str_enc,
};

verus! {

/// An unsigned chain quantity in minimal big-endian form: at most 32 bytes,
/// no leading zero byte, empty for zero.
#[derive(Debug)]
pub struct Quantity {
    pub bytes: Vec<u8>,
}

impl Quantity {
    pub open spec fn wf(&self) -> bool {
        &&& self.bytes@.len() <= 32
        &&& is_minimal_be(self.bytes@)
    }

    /// The number this quantity denotes.
    pub open spec fn value(&self) -> nat {
        be_nat(self.bytes@)
    }

    /// The zero quantity, encoded as the empty byte string.
    pub fn zero() -> (r: Quantity)
        ensures
            r.wf(),
            r.bytes@ == Seq::<u8>::empty(),
            r.value() == 0,
    {
        Quantity { bytes: Vec::new() }
    }

    pub fn from_u64(n: u64) -> (r: Quantity)
        ensures
            r.wf(),
            r.bytes@ == be_bytes(n as nat),
            r.value() == n,
    {
        proof {
            lemma_be_bytes_minimal(n as nat);
            lemma_be_nat_of_be_bytes(n as nat);
        }
        Quantity { bytes: be_bytes_of_u64(n) }
    }

    /// The quantity denoted by a big-endian byte string of at most 32
    /// significant bytes; leading zero bytes are stripped.
    pub fn from_be_bytes(b: &[u8]) -> (r: Option<Quantity>)
        ensures
            r is Some <==> strip_leading_zeros(b@).len() <= 32,
            r is Some ==> r->0.bytes@ == strip_leading_zeros(b@) && r->0.wf(),
            r is Some ==> r->0.value() == be_nat(b@),
    {
        proof {
            lemma_strip_leading_zeros(b@);
        }
        let mut j: usize = 0;
        proof {
            assert(b@.subrange(0, b@.len() as int) =~= b@);
        }
        while j < b.len() && b[j] == 0
            invariant
                j <= b@.len(),
                forall|i: int| 0 <= i < j ==> b@[i] == 0,
                strip_leading_zeros(b@) =~= strip_leading_zeros(b@.subrange(j as int, b@.len() as int)),
            decreases b@.len() - j,
        {
            j = j + 1;
            proof {
                let t = b@.subrange(j - 1, b@.len() as int);
                assert(t[0] == 0);
                assert(strip_leading_zeros(t) == strip_leading_zeros(t.subrange(1, t.len() as int)));
                assert(t.subrange(1, t.len() as int) =~= b@.subrange(j as int, b@.len() as int));
            }
        }
        let rest = b.len() - j;
        proof {
            let t = b@.subrange(j as int, b@.len() as int);
            assert(strip_leading_zeros(t) =~= t);
        }
        if rest > 32 {
            return None;
        }
        let mut out: Vec<u8> = Vec::new();
        let mut i: usize = j;
        while i < b.len()
            invariant
                j <= i <= b@.len(),
                out@ =~= b@.subrange(j as int, i as int),
            decreases b@.len() - i,
        {
            out.push(b[i]);
            i = i + 1;
        }
        proof {
            assert(out@ =~= b@.subrange(j as int, b@.len() as int));
        }
        Some(Quantity { bytes: out })
    }
}

/// A 20-byte account address.
#[derive(Debug)]
pub struct Address {
    pub bytes: Vec<u8>,
}

impl Address {
    pub open spec fn wf(&self) -> bool {
        self.bytes@.len() == 20
    }

    pub fn from_bytes(b: &[u8]) -> (r: Option<Address>)
        ensures
            r is Some <==> b@.len() == 20,
            r is Some ==> r->0.bytes@ == b@ && r->0.wf(),
    {
        if b.len() != 20 {
            return None;
        }
        let mut out: Vec<u8> = Vec::new();
        let mut i: usize = 0;
        while i < b.len()
            invariant
                i <= b@.len(),
                out@ =~= b@.subrange(0, i as int),
            decreases b@.len() - i,
        {
            out.push(b[i]);
            i = i + 1;
        }
        proof {
            assert(out@ =~= b@);
        }
        Some(Address { bytes: out })
    }
}

/// The recipient as it appears in the encoding: the empty byte string for
/// contract creation, the 20 address bytes otherwise.
pub open spec fn to_item(to: Option<Address>) -> Seq<u8> {
    match to {
        Option::None => Seq::empty(),
        Option::Some(a) => a.bytes@,
    }
}

/// The recipient bytes, for stating that a recipient came through unchanged.
pub open spec fn addr_view(to: Option<Address>) -> Option<Seq<u8>> {
    match to {
        Option::None => Option::None,
        Option::Some(a) => Option::Some(a.bytes@),
    }
}

/// Fully resolved transaction fields, ready for encoding.
#[derive(Debug)]
pub struct TxFields {
    pub nonce: Quantity,
    pub gas_price: Quantity,
    pub gas_limit: Quantity,
    pub to: Option<Address>,
    pub value: Quantity,
    pub data: Vec<u8>,
}

impl TxFields {
    pub open spec fn wf(&self) -> bool {
        &&& self.nonce.wf()
        &&& self.gas_price.wf()
        &&& self.gas_limit.wf()
        &&& (self.to is Some ==> self.to->0.wf())
        &&& self.value.wf()
    }
}

/// Caller-supplied transaction fields; the missing ones are resolved from
/// chain-queried defaults.
#[derive(Debug)]
pub struct PartialFields {
    pub nonce: Option<Quantity>,
    pub gas_price: Option<Quantity>,
    pub gas_limit: Option<Quantity>,
    pub to: Option<Address>,
    pub value: Option<Quantity>,
    pub data: Option<Vec<u8>>,
}

impl PartialFields {
    pub open spec fn wf(&self) -> bool {
        &&& (self.nonce is Some ==> self.nonce->0.wf())
        &&& (self.gas_price is Some ==> self.gas_price->0.wf())
        &&& (self.gas_limit is Some ==> self.gas_limit->0.wf())
        &&& (self.to is Some ==> self.to->0.wf())
        &&& (self.value is Some ==> self.value->0.wf())
    }
}

/// Values queried from the chain for the fields the caller left out; `None`
/// records that the query failed or was never made.
#[derive(Debug)]
pub struct ChainDefaults {
    pub nonce: Option<Quantity>,
    pub gas_price: Option<Quantity>,
    pub gas_limit: Option<Quantity>,
}

impl ChainDefaults {
    pub open spec fn wf(&self) -> bool {
        &&& (self.nonce is Some ==> self.nonce->0.wf())
        &&& (self.gas_price is Some ==> self.gas_price->0.wf())
        &&& (self.gas_limit is Some ==> self.gas_limit->0.wf())
    }
}

/// A field the assembler could not resolve.
#[derive(Debug, PartialEq, Eq, Structural, Clone, Copy)]
pub enum TxField {
    Nonce,
    GasPrice,
    GasLimit,
}

#[derive(Debug, PartialEq, Eq, Structural, Clone, Copy)]
pub enum AssemblyError {
    ResolutionFailed(TxField),
}

/// Resolve each of nonce, gas price and gas limit from the caller's value
/// or, failing that, from the chain-queried default; keep the recipient
/// exactly as given (absence means contract creation), and let a missing
/// value or data payload stand for zero and empty. No partial result is
/// produced: the first unresolvable field is reported.
pub fn assemble(fields: PartialFields, defaults: ChainDefaults) -> (r: Result<
    TxFields,
    AssemblyError,
>)
    requires
        fields.wf(),
        defaults.wf(),
    ensures
        r is Ok <==> {
            &&& (fields.nonce is Some || defaults.nonce is Some)
            &&& (fields.gas_price is Some || defaults.gas_price is Some)
            &&& (fields.gas_limit is Some || defaults.gas_limit is Some)
        },
        fields.nonce is None && defaults.nonce is None ==> r == Result::<
            TxFields,
            AssemblyError,
        >::Err(AssemblyError::ResolutionFailed(TxField::Nonce)),
        r is Err && (fields.nonce is Some || defaults.nonce is Some) && (fields.gas_price is None
            && defaults.gas_price is None) ==> r == Result::<TxFields, AssemblyError>::Err(
            AssemblyError::ResolutionFailed(TxField::GasPrice),
        ),
        r is Err && (fields.nonce is Some || defaults.nonce is Some) && (fields.gas_price is Some
            || defaults.gas_price is Some) ==> r == Result::<TxFields, AssemblyError>::Err(
            AssemblyError::ResolutionFailed(TxField::GasLimit),
        ),
        r is Ok ==> {
            let t = r->Ok_0;
            &&& t.wf()
            &&& t.nonce.bytes@ == if fields.nonce is Some {
                fields.nonce->0.bytes@
            } else {
                defaults.nonce->0.bytes@
            }
            &&& t.gas_price.bytes@ == if fields.gas_price is Some {
                fields.gas_price->0.bytes@
            } else {
                defaults.gas_price->0.bytes@
            }
            &&& t.gas_limit.bytes@ == if fields.gas_limit is Some {
                fields.gas_limit->0.bytes@
            } else {
                defaults.gas_limit->0.bytes@
            }
            &&& addr_view(t.to) == addr_view(fields.to)
            &&& t.value.bytes@ == if fields.value is Some {
                fields.value->0.bytes@
            } else {
                Seq::<u8>::empty()
            }
            &&& t.data@ == if fields.data is Some {
                fields.data->0@
            } else {
                Seq::<u8>::empty()
            }
        },
{
    let nonce = match (fields.nonce, defaults.nonce) {
        (Some(q), _) => q,
        (None, Some(q)) => q,
        (None, None) => {
            return Err(AssemblyError::ResolutionFailed(TxField::Nonce));
        },
    };
    let gas_price = match (fields.gas_price, defaults.gas_price) {
        (Some(q), _) => q,
        (None, Some(q)) => q,
        (None, None) => {
            return Err(AssemblyError::ResolutionFailed(TxField::GasPrice));
        },
    };
    let gas_limit = match (fields.gas_limit, defaults.gas_limit) {
        (Some(q), _) => q,
        (None, Some(q)) => q,
        (None, None) => {
            return Err(AssemblyError::ResolutionFailed(TxField::GasLimit));
        },
    };
    let value = match fields.value {
        Some(q) => q,
        None => Quantity::zero(),
    };
    let data = match fields.data {
        Some(d) => d,
        None => Vec::new(),
    };
    Ok(TxFields { nonce, gas_price, gas_limit, to: fields.to, value, data })
}

/// The concatenated item encodings of the six unsigned fields, in canonical
/// order.
pub open spec fn unsigned_payload(t: TxFields) -> Seq<u8> {
    rlp_str_enc(t.nonce.bytes@) + rlp_str_enc(t.gas_price.bytes@) + rlp_str_enc(t.gas_limit.bytes@)
        + rlp_str_enc(to_item(t.to)) + rlp_str_enc(t.value.bytes@) + rlp_str_enc(t.data@)
}

/// The canonical unsigned transaction encoding.
pub open spec fn unsigned_tx_enc(t: TxFields) -> Seq<u8> {
    rlp_list_enc(unsigned_payload(t))
}

/// A signed transaction: the fields plus the recovery identifier and the
/// two signature scalars, all as canonical quantities.
#[derive(Debug)]
pub struct SignedTx {
    pub fields: TxFields,
    pub v: Quantity,
    pub r: Quantity,
    pub s: Quantity,
}

impl SignedTx {
    pub open spec fn wf(&self) -> bool {
        &&& self.fields.wf()
        &&& self.v.wf()
        &&& self.r.wf()
        &&& self.s.wf()
    }
}

pub open spec fn signed_payload(st: SignedTx) -> Seq<u8> {
    unsigned_payload(st.fields) + rlp_str_enc(st.v.bytes@) + rlp_str_enc(st.r.bytes@) + rlp_str_enc(
        st.s.bytes@,
    )
}

/// The canonical signed transaction encoding.
pub open spec fn signed_tx_enc(st: SignedTx) -> Seq<u8> {
    rlp_list_enc(signed_payload(st))
}

#[verifier::rlimit(60)]
fn append_unsigned_payload(out: &mut Vec<u8>, t: &TxFields)
    ensures
        final(out)@ == old(out)@ + unsigned_payload(*t),
{
    append_rlp_str(out, t.nonce.bytes.as_slice());
    append_rlp_str(out, t.gas_price.bytes.as_slice());
    append_rlp_str(out, t.gas_limit.bytes.as_slice());
    match &t.to {
        Some(a) => append_rlp_str(out, a.bytes.as_slice()),
        None => {
            let e: Vec<u8> = Vec::new();
            append_rlp_str(out, e.as_slice());
            proof {
                assert(e@ =~= to_item(t.to));
            }
        },
    }
    append_rlp_str(out, t.value.bytes.as_slice());
    append_rlp_str(out, t.data.as_slice());
    proof {
        assert(out@ =~= old(out)@ + unsigned_payload(*t));
    }
}

/// Encode the unsigned transaction canonically.
pub fn encode_unsigned(t: &TxFields) -> (r: Vec<u8>)
    ensures
        r@ == unsigned_tx_enc(*t),
{
    let mut payload: Vec<u8> = Vec::new();
    append_unsigned_payload(&mut payload, t);
    let mut out = rlp_list_header(payload.len());
    out.append(&mut payload);
    proof {
        assert(out@ =~= unsigned_tx_enc(*t));
    }
    out
}

/// Encode the signed transaction canonically.
pub fn encode_signed(st: &SignedTx) -> (r: Vec<u8>)
    ensures
        r@ == signed_tx_enc(*st),
{
    let mut payload: Vec<u8> = Vec::new();
    append_unsigned_payload(&mut payload, &st.fields);
    append_rlp_str(&mut payload, st.v.bytes.as_slice());
    append_rlp_str(&mut payload, st.r.bytes.as_slice());
    append_rlp_str(&mut payload, st.s.bytes.as_slice());
    proof {
        assert(payload@ =~= signed_payload(*st));
    }
    let mut out = rlp_list_header(payload.len());
    out.append(&mut payload);
    proof {
        assert(out@ =~= signed_tx_enc(*st));
    }
    out
}

/// Where each of the nine item encodings of a signed transaction sits
/// inside its complete encoding, once the payload's place is known.
#[verifier::rlimit(100)]
pub proof fn lemma_signed_items_at(buf: Seq<u8>, st: SignedTx, ps: int)
    requires
        signed_payload(st) == buf.subrange(ps, buf.len() as int),
        0 <= ps <= buf.len(),
    ensures
        ({
            let o0 = ps;
            let o1 = o0 + rlp_str_enc(st.fields.nonce.bytes@).len();
            let o2 = o1 + rlp_str_enc(st.fields.gas_price.bytes@).len();
            let o3 = o2 + rlp_str_enc(st.fields.gas_limit.bytes@).len();
            let o4 = o3 + rlp_str_enc(to_item(st.fields.to)).len();
            let o5 = o4 + rlp_str_enc(st.fields.value.bytes@).len();
            let o6 = o5 + rlp_str_enc(st.fields.data@).len();
            let o7 = o6 + rlp_str_enc(st.v.bytes@).len();
            let o8 = o7 + rlp_str_enc(st.r.bytes@).len();
            let o9 = o8 + rlp_str_enc(st.s.bytes@).len();
            &&& rlp_str_enc(st.fields.nonce.bytes@) == buf.subrange(o0, o1)
            &&& rlp_str_enc(st.fields.gas_price.bytes@) == buf.subrange(o1, o2)
            &&& rlp_str_enc(st.fields.gas_limit.bytes@) == buf.subrange(o2, o3)
            &&& rlp_str_enc(to_item(st.fields.to)) == buf.subrange(o3, o4)
            &&& rlp_str_enc(st.fields.value.bytes@) == buf.subrange(o4, o5)
            &&& rlp_str_enc(st.fields.data@) == buf.subrange(o5, o6)
            &&& rlp_str_enc(st.v.bytes@) == buf.subrange(o6, o7)
            &&& rlp_str_enc(st.r.bytes@) == buf.subrange(o7, o8)
            &&& rlp_str_enc(st.s.bytes@) == buf.subrange(o8, o9)
            &&& o9 == buf.len()
        }),
{
    let p = signed_payload(st);
    let e0 = rlp_str_enc(st.fields.nonce.bytes@);
    let e1 = rlp_str_enc(st.fields.gas_price.bytes@);
    let e2 = rlp_str_enc(st.fields.gas_limit.bytes@);
    let e3 = rlp_str_enc(to_item(st.fields.to));
    let e4 = rlp_str_enc(st.fields.value.bytes@);
    let e5 = rlp_str_enc(st.fields.data@);
    let e6 = rlp_str_enc(st.v.bytes@);
    let e7 = rlp_str_enc(st.r.bytes@);
    let e8 = rlp_str_enc(st.s.bytes@);
    let o0 = ps;
    let o1 = o0 + e0.len();
    let o2 = o1 + e1.len();
    let o3 = o2 + e2.len();
    let o4 = o3 + e3.len();
    let o5 = o4 + e4.len();
    let o6 = o5 + e5.len();
    let o7 = o6 + e6.len();
    let o8 = o7 + e7.len();
    let o9 = o8 + e8.len();
    assert(p == ((((((((e0 + e1) + e2) + e3) + e4) + e5) + e6) + e7) + e8));
    assert(p.subrange(o0 - ps, o1 - ps) =~= e0);
    assert(p.subrange(o1 - ps, o2 - ps) =~= e1);
    assert(p.subrange(o2 - ps, o3 - ps) =~= e2);
    assert(p.subrange(o3 - ps, o4 - ps) =~= e3);
    assert(p.subrange(o4 - ps, o5 - ps) =~= e4);
    assert(p.subrange(o5 - ps, o6 - ps) =~= e5);
    assert(p.subrange(o6 - ps, o7 - ps) =~= e6);
    assert(p.subrange(o7 - ps, o8 - ps) =~= e7);
    assert(p.subrange(o8 - ps, o9 - ps) =~= e8);
    assert(buf.subrange(o0, o1) =~= p.subrange(o0 - ps, o1 - ps));
    assert(buf.subrange(o1, o2) =~= p.subrange(o1 - ps, o2 - ps));
    assert(buf.subrange(o2, o3) =~= p.subrange(o2 - ps, o3 - ps));
    assert(buf.subrange(o3, o4) =~= p.subrange(o3 - ps, o4 - ps));
    assert(buf.subrange(o4, o5) =~= p.subrange(o4 - ps, o5 - ps));
    assert(buf.subrange(o5, o6) =~= p.subrange(o5 - ps, o6 - ps));
    assert(buf.subrange(o6, o7) =~= p.subrange(o6 - ps, o7 - ps));
    assert(buf.subrange(o7, o8) =~= p.subrange(o7 - ps, o8 - ps));
    assert(buf.subrange(o8, o9) =~= p.subrange(o8 - ps, o9 - ps));
    assert(ps + p.len() == buf.len());
}

/// Accept a decoded item as a canonical quantity.
fn quantity_item(c: Vec<u8>) -> (r: Option<Quantity>)
    ensures
        r is Some <==> c@.len() <= 32 && is_minimal_be(c@),
        r is Some ==> r->0.bytes@ == c@ && r->0.wf(),
{
    if c.len() > 32 {
        return None;
    }
    if c.len() > 0 && c[0] == 0 {
        return None;
    }
    Some(Quantity { bytes: c })
}

/// Decode a canonical signed transaction encoding: the accepted inputs are
/// exactly the encodings of well-formed signed transactions. On success,
/// re-encoding the result reproduces the input bytes exactly (the
/// round-trip law); any non-canonical or malformed input is rejected, and
/// the encoding of every well-formed signed transaction is accepted.
#[verifier::rlimit(100)]
pub fn decode_signed(buf: &[u8]) -> (r: Option<SignedTx>)
    ensures
        r is Some ==> r->0.wf() && signed_tx_enc(r->0) =~= buf@,
        forall|st: SignedTx| st.wf() && signed_tx_enc(st) == buf@ ==> r is Some,
{
    let ps = match read_list_frame(buf) {
        Some(ps) => ps,
        None => {
            proof {
                assert forall|st: SignedTx| st.wf() && signed_tx_enc(st) == buf@ implies false by {
                    let p = signed_payload(st);
                    assert(rlp_list_enc(p) == buf@);
                }
            }
            return None;
        },
    };
    let end = buf.len();
    let (c0, i1) = match read_str_item(buf, ps) {
        Some(cj) => cj,
        None => {
            proof {
                assert forall|st: SignedTx| st.wf() && signed_tx_enc(st) == buf@ implies false by {
                    let p = signed_payload(st);
                    assert(rlp_list_enc(p) == buf@);
                    assert(p == buf@.subrange(ps as int, buf@.len() as int));
                    lemma_signed_items_at(buf@, st, ps as int);
                    let o0 = ps as int;
                    let o1 = o0 + rlp_str_enc(st.fields.nonce.bytes@).len();
                    assert(rlp_str_enc(st.fields.nonce.bytes@) == buf@.subrange(ps as int, o1));
                    assert(false);
                }
            }
            return None;
        },
    };
    let (c1, i2) = match read_str_item(buf, i1) {
        Some(cj) => cj,
        None => {
            proof {
                assert forall|st: SignedTx| st.wf() && signed_tx_enc(st) == buf@ implies false by {
                    let p = signed_payload(st);
                    assert(rlp_list_enc(p) == buf@);
                    assert(p == buf@.subrange(ps as int, buf@.len() as int));
                    lemma_signed_items_at(buf@, st, ps as int);
                    let o0 = ps as int;
                    let o1 = o0 + rlp_str_enc(st.fields.nonce.bytes@).len();
                    let o2 = o1 + rlp_str_enc(st.fields.gas_price.bytes@).len();
                    assert(rlp_str_enc(st.fields.nonce.bytes@) == buf@.subrange(ps as int, o1));
                    assert(c0@ == st.fields.nonce.bytes@ && i1 == o1);
                    assert(rlp_str_enc(st.fields.gas_price.bytes@) == buf@.subrange(i1 as int, o2));
                    assert(false);
                }
            }
            return None;
        },
    };
    let (c2, i3) = match read_str_item(buf, i2) {
        Some(cj) => cj,
        None => {
            proof {
                assert forall|st: SignedTx| st.wf() && signed_tx_enc(st) == buf@ implies false by {
                    let p = signed_payload(st);
                    assert(rlp_list_enc(p) == buf@);
                    assert(p == buf@.subrange(ps as int, buf@.len() as int));
                    lemma_signed_items_at(buf@, st, ps as int);
                    let o0 = ps as int;
                    let o1 = o0 + rlp_str_enc(st.fields.nonce.bytes@).len();
                    let o2 = o1 + rlp_str_enc(st.fields.gas_price.bytes@).len();
                    let o3 = o2 + rlp_str_enc(st.fields.gas_limit.bytes@).len();
                    assert(rlp_str_enc(st.fields.nonce.bytes@) == buf@.subrange(ps as int, o1));
                    assert(c0@ == st.fields.nonce.bytes@ && i1 == o1);
                    assert(rlp_str_enc(st.fields.gas_price.bytes@) == buf@.subrange(i1 as int, o2));
                    assert(c1@ == st.fields.gas_price.bytes@ && i2 == o2);
                    assert(rlp_str_enc(st.fields.gas_limit.bytes@) == buf@.subrange(i2 as int, o3));
                    assert(false);
                }
            }
            return None;
        },
    };
    let (c3, i4) = match read_str_item(buf, i3) {
        Some(cj) => cj,
        None => {
            proof {
                assert forall|st: SignedTx| st.wf() && signed_tx_enc(st) == buf@ implies false by {
                    let p = signed_payload(st);
                    assert(rlp_list_enc(p) == buf@);
                    assert(p == buf@.subrange(ps as int, buf@.len() as int));
                    lemma_signed_items_at(buf@, st, ps as int);
                    let o0 = ps as int;
                    let o1 = o0 + rlp_str_enc(st.fields.nonce.bytes@).len();
                    let o2 = o1 + rlp_str_enc(st.fields.gas_price.bytes@).len();
                    let o3 = o2 + rlp_str_enc(st.fields.gas_limit.bytes@).len();
                    let o4 = o3 + rlp_str_enc(to_item(st.fields.to)).len();
                    assert(rlp_str_enc(st.fields.nonce.bytes@) == buf@.subrange(ps as int, o1));
                    assert(c0@ == st.fields.nonce.bytes@ && i1 == o1);
                    assert(rlp_str_enc(st.fields.gas_price.bytes@) == buf@.subrange(i1 as int, o2));
                    assert(c1@ == st.fields.gas_price.bytes@ && i2 == o2);
                    assert(rlp_str_enc(st.fields.gas_limit.bytes@) == buf@.subrange(i2 as int, o3));
                    assert(c2@ == st.fields.gas_limit.bytes@ && i3 == o3);
                    assert(rlp_str_enc(to_item(st.fields.to)) == buf@.subrange(i3 as int, o4));
                    assert(false);
                }
            }
            return None;
        },
    };
    let (c4, i5) = match read_str_item(buf, i4) {
        Some(cj) => cj,
        None => {
            proof {
                assert forall|st: SignedTx| st.wf() && signed_tx_enc(st) == buf@ implies false by {
                    let p = signed_payload(st);
                    assert(rlp_list_enc(p) == buf@);
                    assert(p == buf@.subrange(ps as int, buf@.len() as int));
                    lemma_signed_items_at(buf@, st, ps as int);
                    let o0 = ps as int;
                    let o1 = o0 + rlp_str_enc(st.fields.nonce.bytes@).len();
                    let o2 = o1 + rlp_str_enc(st.fields.gas_price.bytes@).len();
                    let o3 = o2 + rlp_str_enc(st.fields.gas_limit.bytes@).len();
                    let o4 = o3 + rlp_str_enc(to_item(st.fields.to)).len();
                    let o5 = o4 + rlp_str_enc(st.fields.value.bytes@).len();
                    assert(rlp_str_enc(st.fields.nonce.bytes@) == buf@.subrange(ps as int, o1));
                    assert(c0@ == st.fields.nonce.bytes@ && i1 == o1);
                    assert(rlp_str_enc(st.fields.gas_price.bytes@) == buf@.subrange(i1 as int, o2));
                    assert(c1@ == st.fields.gas_price.bytes@ && i2 == o2);
                    assert(rlp_str_enc(st.fields.gas_limit.bytes@) == buf@.subrange(i2 as int, o3));
                    assert(c2@ == st.fields.gas_limit.bytes@ && i3 == o3);
                    assert(rlp_str_enc(to_item(st.fields.to)) == buf@.subrange(i3 as int, o4));
                    assert(c3@ == to_item(st.fields.to) && i4 == o4);
                    assert(rlp_str_enc(st.fields.value.bytes@) == buf@.subrange(i4 as int, o5));
                    assert(false);
                }
            }
            return None;
        },
    };
    let (c5, i6) = match read_str_item(buf, i5) {
        Some(cj) => cj,
        None => {
            proof {
                assert forall|st: SignedTx| st.wf() && signed_tx_enc(st) == buf@ implies false by {
                    let p = signed_payload(st);
                    assert(rlp_list_enc(p) == buf@);
                    assert(p == buf@.subrange(ps as int, buf@.len() as int));
                    lemma_signed_items_at(buf@, st, ps as int);
                    let o0 = ps as int;
                    let o1 = o0 + rlp_str_enc(st.fields.nonce.bytes@).len();
                    let o2 = o1 + rlp_str_enc(st.fields.gas_price.bytes@).len();
                    let o3 = o2 + rlp_str_enc(st.fields.gas_limit.bytes@).len();
                    let o4 = o3 + rlp_str_enc(to_item(st.fields.to)).len();
                    let o5 = o4 + rlp_str_enc(st.fields.value.bytes@).len();
                    let o6 = o5 + rlp_str_enc(st.fields.data@).len();
                    assert(rlp_str_enc(st.fields.nonce.bytes@) == buf@.subrange(ps as int, o1));
                    assert(c0@ == st.fields.nonce.bytes@ && i1 == o1);
                    assert(rlp_str_enc(st.fields.gas_price.bytes@) == buf@.subrange(i1 as int, o2));
                    assert(c1@ == st.fields.gas_price.bytes@ && i2 == o2);
                    assert(rlp_str_enc(st.fields.gas_limit.bytes@) == buf@.subrange(i2 as int, o3));
                    assert(c2@ == st.fields.gas_limit.bytes@ && i3 == o3);
                    assert(rlp_str_enc(to_item(st.fields.to)) == buf@.subrange(i3 as int, o4));
                    assert(c3@ == to_item(st.fields.to) && i4 == o4);
                    assert(rlp_str_enc(st.fields.value.bytes@) == buf@.subrange(i4 as int, o5));
                    assert(c4@ == st.fields.value.bytes@ && i5 == o5);
                    assert(rlp_str_enc(st.fields.data@) == buf@.subrange(i5 as int, o6));
                    assert(false);
                }
            }
            return None;
        },
    };
    let (c6, i7) = match read_str_item(buf, i6) {
        Some(cj) => cj,
        None => {
            proof {
                assert forall|st: SignedTx| st.wf() && signed_tx_enc(st) == buf@ implies false by {
                    let p = signed_payload(st);
                    assert(rlp_list_enc(p) == buf@);
                    assert(p == buf@.subrange(ps as int, buf@.len() as int));
                    lemma_signed_items_at(buf@, st, ps as int);
                    let o0 = ps as int;
                    let o1 = o0 + rlp_str_enc(st.fields.nonce.bytes@).len();
                    let o2 = o1 + rlp_str_enc(st.fields.gas_price.bytes@).len();
                    let o3 = o2 + rlp_str_enc(st.fields.gas_limit.bytes@).len();
                    let o4 = o3 + rlp_str_enc(to_item(st.fields.to)).len();
                    let o5 = o4 + rlp_str_enc(st.fields.value.bytes@).len();
                    let o6 = o5 + rlp_str_enc(st.fields.data@).len();
                    let o7 = o6 + rlp_str_enc(st.v.bytes@).len();
                    assert(rlp_str_enc(st.fields.nonce.bytes@) == buf@.subrange(ps as int, o1));
                    assert(c0@ == st.fields.nonce.bytes@ && i1 == o1);
                    assert(rlp_str_enc(st.fields.gas_price.bytes@) == buf@.subrange(i1 as int, o2));
                    assert(c1@ == st.fields.gas_price.bytes@ && i2 == o2);
                    assert(rlp_str_enc(st.fields.gas_limit.bytes@) == buf@.subrange(i2 as int, o3));
                    assert(c2@ == st.fields.gas_limit.bytes@ && i3 == o3);
                    assert(rlp_str_enc(to_item(st.fields.to)) == buf@.subrange(i3 as int, o4));
                    assert(c3@ == to_item(st.fields.to) && i4 == o4);
                    assert(rlp_str_enc(st.fields.value.bytes@) == buf@.subrange(i4 as int, o5));
                    assert(c4@ == st.fields.value.bytes@ && i5 == o5);
                    assert(rlp_str_enc(st.fields.data@) == buf@.subrange(i5 as int, o6));
                    assert(c5@ == st.fields.data@ && i6 == o6);
                    assert(rlp_str_enc(st.v.bytes@) == buf@.subrange(i6 as int, o7));
                    assert(false);
                }
            }
            return None;
        },
    };
    let (c7, i8) = match read_str_item(buf, i7) {
        Some(cj) => cj,
        None => {
            proof {
                assert forall|st: SignedTx| st.wf() && signed_tx_enc(st) == buf@ implies false by {
                    let p = signed_payload(st);
                    assert(rlp_list_enc(p) == buf@);
                    assert(p == buf@.subrange(ps as int, buf@.len() as int));
                    lemma_signed_items_at(buf@, st, ps as int);
                    let o0 = ps as int;
                    let o1 = o0 + rlp_str_enc(st.fields.nonce.bytes@).len();
                    let o2 = o1 + rlp_str_enc(st.fields.gas_price.bytes@).len();
                    let o3 = o2 + rlp_str_enc(st.fields.gas_limit.bytes@).len();
                    let o4 = o3 + rlp_str_enc(to_item(st.fields.to)).len();
                    let o5 = o4 + rlp_str_enc(st.fields.value.bytes@).len();
                    let o6 = o5 + rlp_str_enc(st.fields.data@).len();
                    let o7 = o6 + rlp_str_enc(st.v.bytes@).len();
                    let o8 = o7 + rlp_str_enc(st.r.bytes@).len();
                    assert(rlp_str_enc(st.fields.nonce.bytes@) == buf@.subrange(ps as int, o1));
                    assert(c0@ == st.fields.nonce.bytes@ && i1 == o1);
                    assert(rlp_str_enc(st.fields.gas_price.bytes@) == buf@.subrange(i1 as int, o2));
                    assert(c1@ == st.fields.gas_price.bytes@ && i2 == o2);
                    assert(rlp_str_enc(st.fields.gas_limit.bytes@) == buf@.subrange(i2 as int, o3));
                    assert(c2@ == st.fields.gas_limit.bytes@ && i3 == o3);
                    assert(rlp_str_enc(to_item(st.fields.to)) == buf@.subrange(i3 as int, o4));
                    assert(c3@ == to_item(st.fields.to) && i4 == o4);
                    assert(rlp_str_enc(st.fields.value.bytes@) == buf@.subrange(i4 as int, o5));
                    assert(c4@ == st.fields.value.bytes@ && i5 == o5);
                    assert(rlp_str_enc(st.fields.data@) == buf@.subrange(i5 as int, o6));
                    assert(c5@ == st.fields.data@ && i6 == o6);
                    assert(rlp_str_enc(st.v.bytes@) == buf@.subrange(i6 as int, o7));
                    assert(c6@ == st.v.bytes@ && i7 == o7);
                    assert(rlp_str_enc(st.r.bytes@) == buf@.subrange(i7 as int, o8));
                    assert(false);
                }
            }
            return None;
        },
    };
    let (c8, i9) = match read_str_item(buf, i8) {
        Some(cj) => cj,
        None => {
            proof {
                assert forall|st: SignedTx| st.wf() && signed_tx_enc(st) == buf@ implies false by {
                    let p = signed_payload(st);
                    assert(rlp_list_enc(p) == buf@);
                    assert(p == buf@.subrange(ps as int, buf@.len() as int));
                    lemma_signed_items_at(buf@, st, ps as int);
                    let o0 = ps as int;
                    let o1 = o0 + rlp_str_enc(st.fields.nonce.bytes@).len();
                    let o2 = o1 + rlp_str_enc(st.fields.gas_price.bytes@).len();
                    let o3 = o2 + rlp_str_enc(st.fields.gas_limit.bytes@).len();
                    let o4 = o3 + rlp_str_enc(to_item(st.fields.to)).len();
                    let o5 = o4 + rlp_str_enc(st.fields.value.bytes@).len();
                    let o6 = o5 + rlp_str_enc(st.fields.data@).len();
                    let o7 = o6 + rlp_str_enc(st.v.bytes@).len();
                    let o8 = o7 + rlp_str_enc(st.r.bytes@).len();
                    let o9 = o8 + rlp_str_enc(st.s.bytes@).len();
                    assert(rlp_str_enc(st.fields.nonce.bytes@) == buf@.subrange(ps as int, o1));
                    assert(c0@ == st.fields.nonce.bytes@ && i1 == o1);
                    assert(rlp_str_enc(st.fields.gas_price.bytes@) == buf@.subrange(i1 as int, o2));
                    assert(c1@ == st.fields.gas_price.bytes@ && i2 == o2);
                    assert(rlp_str_enc(st.fields.gas_limit.bytes@) == buf@.subrange(i2 as int, o3));
                    assert(c2@ == st.fields.gas_limit.bytes@ && i3 == o3);
                    assert(rlp_str_enc(to_item(st.fields.to)) == buf@.subrange(i3 as int, o4));
                    assert(c3@ == to_item(st.fields.to) && i4 == o4);
                    assert(rlp_str_enc(st.fields.value.bytes@) == buf@.subrange(i4 as int, o5));
                    assert(c4@ == st.fields.value.bytes@ && i5 == o5);
                    assert(rlp_str_enc(st.fields.data@) == buf@.subrange(i5 as int, o6));
                    assert(c5@ == st.fields.data@ && i6 == o6);
                    assert(rlp_str_enc(st.v.bytes@) == buf@.subrange(i6 as int, o7));
                    assert(c6@ == st.v.bytes@ && i7 == o7);
                    assert(rlp_str_enc(st.r.bytes@) == buf@.subrange(i7 as int, o8));
                    assert(c7@ == st.r.bytes@ && i8 == o8);
                    assert(rlp_str_enc(st.s.bytes@) == buf@.subrange(i8 as int, o9));
                    assert(false);
                }
            }
            return None;
        },
    };
    proof {
        assert forall|st: SignedTx| st.wf() && signed_tx_enc(st) == buf@ implies {
            &&& c0@ == st.fields.nonce.bytes@
            &&& c1@ == st.fields.gas_price.bytes@
            &&& c2@ == st.fields.gas_limit.bytes@
            &&& c3@ == to_item(st.fields.to)
            &&& c4@ == st.fields.value.bytes@
            &&& c5@ == st.fields.data@
            &&& c6@ == st.v.bytes@
            &&& c7@ == st.r.bytes@
            &&& c8@ == st.s.bytes@
            &&& i9 == buf@.len()
        } by {
            let p = signed_payload(st);
            assert(rlp_list_enc(p) == buf@);
            assert(p == buf@.subrange(ps as int, buf@.len() as int));
            lemma_signed_items_at(buf@, st, ps as int);
            let o0 = ps as int;
            let o1 = o0 + rlp_str_enc(st.fields.nonce.bytes@).len();
            let o2 = o1 + rlp_str_enc(st.fields.gas_price.bytes@).len();
            let o3 = o2 + rlp_str_enc(st.fields.gas_limit.bytes@).len();
            let o4 = o3 + rlp_str_enc(to_item(st.fields.to)).len();
            let o5 = o4 + rlp_str_enc(st.fields.value.bytes@).len();
            let o6 = o5 + rlp_str_enc(st.fields.data@).len();
            let o7 = o6 + rlp_str_enc(st.v.bytes@).len();
            let o8 = o7 + rlp_str_enc(st.r.bytes@).len();
            let o9 = o8 + rlp_str_enc(st.s.bytes@).len();
            assert(rlp_str_enc(st.fields.nonce.bytes@) == buf@.subrange(ps as int, o1));
            assert(c0@ == st.fields.nonce.bytes@ && i1 == o1);
            assert(rlp_str_enc(st.fields.gas_price.bytes@) == buf@.subrange(i1 as int, o2));
            assert(c1@ == st.fields.gas_price.bytes@ && i2 == o2);
            assert(rlp_str_enc(st.fields.gas_limit.bytes@) == buf@.subrange(i2 as int, o3));
            assert(c2@ == st.fields.gas_limit.bytes@ && i3 == o3);
            assert(rlp_str_enc(to_item(st.fields.to)) == buf@.subrange(i3 as int, o4));
            assert(c3@ == to_item(st.fields.to) && i4 == o4);
            assert(rlp_str_enc(st.fields.value.bytes@) == buf@.subrange(i4 as int, o5));
            assert(c4@ == st.fields.value.bytes@ && i5 == o5);
            assert(rlp_str_enc(st.fields.data@) == buf@.subrange(i5 as int, o6));
            assert(c5@ == st.fields.data@ && i6 == o6);
            assert(rlp_str_enc(st.v.bytes@) == buf@.subrange(i6 as int, o7));
            assert(c6@ == st.v.bytes@ && i7 == o7);
            assert(rlp_str_enc(st.r.bytes@) == buf@.subrange(i7 as int, o8));
            assert(c7@ == st.r.bytes@ && i8 == o8);
            assert(rlp_str_enc(st.s.bytes@) == buf@.subrange(i8 as int, o9));
            assert(c8@ == st.s.bytes@ && i9 == o9);
        }
    }
    if i9 != end {
        proof {
            assert forall|st: SignedTx| st.wf() && signed_tx_enc(st) == buf@ implies false by {
                assert(c0@ == st.fields.nonce.bytes@);
                assert(false);
            }
        }
        return None;
    }
    let ghost e0 = rlp_str_enc(c0@);
    let ghost e1 = rlp_str_enc(c1@);
    let ghost e2 = rlp_str_enc(c2@);
    let ghost e3 = rlp_str_enc(c3@);
    let ghost e4 = rlp_str_enc(c4@);
    let ghost e5 = rlp_str_enc(c5@);
    let ghost e6 = rlp_str_enc(c6@);
    let ghost e7 = rlp_str_enc(c7@);
    let ghost e8 = rlp_str_enc(c8@);
    proof {
        assert(buf@.subrange(ps as int, i2 as int) =~= e0 + e1);
        assert(buf@.subrange(ps as int, i3 as int) =~= (e0 + e1) + e2);
        assert(buf@.subrange(ps as int, i4 as int) =~= ((e0 + e1) + e2) + e3);
        assert(buf@.subrange(ps as int, i5 as int) =~= (((e0 + e1) + e2) + e3) + e4);
        assert(buf@.subrange(ps as int, i6 as int) =~= ((((e0 + e1) + e2) + e3) + e4) + e5);
        assert(buf@.subrange(ps as int, i7 as int) =~= (((((e0 + e1) + e2) + e3) + e4) + e5) + e6);
        assert(buf@.subrange(ps as int, i8 as int) =~= ((((((e0 + e1) + e2) + e3) + e4) + e5) + e6)
            + e7);
        assert(buf@.subrange(ps as int, i9 as int) =~= (((((((e0 + e1) + e2) + e3) + e4) + e5)
            + e6) + e7) + e8);
    }
    let nonce = match quantity_item(c0) {
        Some(q) => q,
        None => {
            proof {
                assert forall|st: SignedTx| st.wf() && signed_tx_enc(st) == buf@ implies false by {
                    assert(c0@ == st.fields.nonce.bytes@);
                    assert(false);
                }
            }
            return None;
        },
    };
    let gas_price = match quantity_item(c1) {
        Some(q) => q,
        None => {
            proof {
                assert forall|st: SignedTx| st.wf() && signed_tx_enc(st) == buf@ implies false by {
                    assert(c1@ == st.fields.gas_price.bytes@);
                    assert(false);
                }
            }
            return None;
        },
    };
    let gas_limit = match quantity_item(c2) {
        Some(q) => q,
        None => {
            proof {
                assert forall|st: SignedTx| st.wf() && signed_tx_enc(st) == buf@ implies false by {
                    assert(c2@ == st.fields.gas_limit.bytes@);
                    assert(false);
                }
            }
            return None;
        },
    };
    let to = if c3.len() == 0 {
        None
    } else if c3.len() == 20 {
        Some(Address { bytes: c3 })
    } else {
        proof {
            assert forall|st: SignedTx| st.wf() && signed_tx_enc(st) == buf@ implies false by {
                assert(c3@ == to_item(st.fields.to));
                assert(false);
            }
        }
        return None;
    };
    let value = match quantity_item(c4) {
        Some(q) => q,
        None => {
            proof {
                assert forall|st: SignedTx| st.wf() && signed_tx_enc(st) == buf@ implies false by {
                    assert(c4@ == st.fields.value.bytes@);
                    assert(false);
                }
            }
            return None;
        },
    };
    let data = c5;
    let v = match quantity_item(c6) {
        Some(q) => q,
        None => {
            proof {
                assert forall|st: SignedTx| st.wf() && signed_tx_enc(st) == buf@ implies false by {
                    assert(c6@ == st.v.bytes@);
                    assert(false);
                }
            }
            return None;
        },
    };
    let rq = match quantity_item(c7) {
        Some(q) => q,
        None => {
            proof {
                assert forall|st: SignedTx| st.wf() && signed_tx_enc(st) == buf@ implies false by {
                    assert(c7@ == st.r.bytes@);
                    assert(false);
                }
            }
            return None;
        },
    };
    let sq = match quantity_item(c8) {
        Some(q) => q,
        None => {
            proof {
                assert forall|st: SignedTx| st.wf() && signed_tx_enc(st) == buf@ implies false by {
                    assert(c8@ == st.s.bytes@);
                    assert(false);
                }
            }
            return None;
        },
    };
    let st = SignedTx {
        fields: TxFields { nonce, gas_price, gas_limit, to, value, data },
        v,
        r: rq,
        s: sq,
    };
    proof {
        assert(to_item(st.fields.to) =~= c3@);
        assert(signed_payload(st) =~= buf@.subrange(ps as int, end as int));
        assert(signed_tx_enc(st) =~= buf@);
    }
    Some(st)
}

/// A transaction without a recipient never encodes like one with a
/// recipient: the absence of `to` is visible in the encoding itself, so a
/// contract-creation transaction cannot be mistaken for a payment to any
/// address, the all-zero address included.
pub proof fn lemma_absent_recipient_encoding_distinct(t1: TxFields, t2: TxFields)
    requires
        t1.to is None,
        t2.to is Some,
        t2.to->0.bytes@.len() == 20,
        t1.nonce.bytes@ == t2.nonce.bytes@,
        t1.gas_price.bytes@ == t2.gas_price.bytes@,
        t1.gas_limit.bytes@ == t2.gas_limit.bytes@,
        t1.value.bytes@ == t2.value.bytes@,
        t1.data@ == t2.data@,
    ensures
        unsigned_tx_enc(t1) != unsigned_tx_enc(t2),
{
    let creation_payload = unsigned_payload(t1);
    let payment_payload = unsigned_payload(t2);
    assert(rlp_str_enc(to_item(t1.to)).len() == 1);
    assert(rlp_str_enc(to_item(t2.to)).len() == 21);
    assert(payment_payload.len() == creation_payload.len() + 20);
    assert(rlp_list_enc(creation_payload).len() == rlp_list_hdr(creation_payload.len()).len()
        + creation_payload.len());
    assert(rlp_list_enc(payment_payload).len() == rlp_list_hdr(payment_payload.len()).len()
        + payment_payload.len());
    if creation_payload.len() <= 55 {
        assert(rlp_list_hdr(creation_payload.len()).len() == 1);
        assert(rlp_list_hdr(payment_payload.len()).len() >= 1);
    } else {
        lemma_be_bytes_len_mono(creation_payload.len(), payment_payload.len());
    }
    assert(rlp_list_enc(creation_payload).len() < rlp_list_enc(payment_payload).len());
}

} // verus!

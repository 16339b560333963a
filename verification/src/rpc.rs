//! The compute half of the node queries: parsing the quantities a node
//! returns and spelling the raw-payload parameter a submission carries.
//! The transport itself stays outside the library.

use vstd::prelude::*;
use crate::beint::strip_leading_zeros;
use crate::hexs::{decode_hex, encode_hex, hex_decoded, hex_encoded, is_hex_seq};
use crate::jsonio::{json_member_bytes, json_member_bytes_of};
use crate::tx::Quantity;

verus! {

/// A chain quantity as JSON-RPC spells it: `0x`, then at least one
/// hexadecimal digit, with no leading zero digit except for `0x0` itself.
pub open spec fn is_quantity_hex(s: Seq<u8>) -> bool {
    &&& s.len() >= 3
    &&& s[0] == 0x30u8
    &&& s[1] == 0x78u8
    &&& is_hex_seq(s.subrange(2, s.len() as int))
    &&& (s[2] != 0x30u8 || s.len() == 3)
}

/// The digits of such a spelling, padded to an even count with one leading
/// zero digit.
pub open spec fn padded_digits(s: Seq<u8>) -> Seq<u8> {
    let d = s.subrange(2, s.len() as int);
    if d.len() % 2 == 1 {
        seq![0x30u8] + d
    } else {
        d
    }
}

/// Parse a JSON-RPC quantity spelling into a canonical quantity.
pub fn parse_quantity_hex(s: &[u8]) -> (r: Option<Quantity>)
    ensures
        r is Some <==> is_quantity_hex(s@) && strip_leading_zeros(hex_decoded(padded_digits(s@))).len() <= 32,
        r is Some ==> r->0.bytes@ == strip_leading_zeros(hex_decoded(padded_digits(s@)))
            && r->0.wf(),
{
    if s.len() < 3 {
        return None;
    }
    if s[0] != 0x30 || s[1] != 0x78 {
        return None;
    }
    if s[2] == 0x30 && s.len() > 3 {
        return None;
    }
    let mut digits: Vec<u8> = Vec::new();
    if (s.len() - 2) % 2 == 1 {
        digits.push(0x30);
    }
    let mut i: usize = 2;
    while i < s.len()
        invariant
            2 <= i <= s@.len(),
            s@.len() >= 3,
            digits@.len() == (i - 2) + if (s@.len() - 2) % 2 == 1 {
                1int
            } else {
                0int
            },
            digits@ =~= if (s@.len() - 2) % 2 == 1 {
                seq![0x30u8] + s@.subrange(2, i as int)
            } else {
                s@.subrange(2, i as int)
            },
        decreases s@.len() - i,
    {
        digits.push(s[i]);
        i = i + 1;
    }
    proof {
        assert(s@.subrange(2, s@.len() as int) =~= s@.subrange(2, i as int));
        assert(digits@ =~= padded_digits(s@));
    }
    let decoded = match decode_hex(digits.as_slice()) {
        Some(d) => d,
        None => {
            proof {
                let d = s@.subrange(2, s@.len() as int);
                if d.len() % 2 == 1 {
                    assert(forall|j: int| 0 <= j < d.len() ==> padded_digits(s@)[j + 1] == #[trigger] d[j]);
                }
                assert(!is_hex_seq(padded_digits(s@)) ==> !is_hex_seq(d));
            }
            return None;
        },
    };
    proof {
        let d = s@.subrange(2, s@.len() as int);
        if d.len() % 2 == 1 {
            assert(forall|j: int| 0 <= j < d.len() ==> #[trigger] d[j] == padded_digits(s@)[j + 1]);
        }
        assert(is_hex_seq(padded_digits(s@)) ==> is_hex_seq(d));
    }
    Quantity::from_be_bytes(decoded.as_slice())
}

/// Pull the `result` member out of a JSON-RPC response body and parse it
/// as a quantity: the compute half of a gas-price or gas-estimate query.
/// Exactly the responses whose `result` member is a canonical quantity
/// spelling of at most 32 bytes yield a value, and it is that quantity.
pub fn parse_rpc_quantity(body: &str) -> (r: Option<Quantity>)
    ensures
        ({
            let member = json_member_bytes_of(body@, "/result"@);
            &&& (r is Some <==> member is Some && is_quantity_hex(member->0)
                && strip_leading_zeros(hex_decoded(padded_digits(member->0))).len() <= 32)
            &&& (r is Some ==> r->0.bytes@ == strip_leading_zeros(
                hex_decoded(padded_digits(member->0)),
            ) && r->0.wf())
        }),
{
    let text = match json_member_bytes(body, "/result") {
        Some(t) => t,
        None => {
            return None;
        },
    };
    parse_quantity_hex(text.as_slice())
}

/// The `0x`-prefixed hexadecimal spelling of a raw payload, as the
/// submission parameter carries it.
pub fn raw_payload_param(b: &[u8]) -> (r: Vec<u8>)
    ensures
        r@ == seq![0x30u8, 0x78u8] + hex_encoded(b@),
{
    let mut out: Vec<u8> = Vec::new();
    out.push(0x30);
    out.push(0x78);
    let hexpart = encode_hex(b);
    out.extend_from_slice(hexpart.as_slice());
    proof {
        assert(out@ =~= seq![0x30u8, 0x78u8] + hex_encoded(b@));
    }
    out
}

} // verus!

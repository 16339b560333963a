//! Lower-case hexadecimal encoding and decoding over ASCII bytes.

use vstd::prelude::*;

verus! {

/// Value of one ASCII hexadecimal digit (`0`-`9`, `a`-`f`), or 16 for any
/// other byte.
pub open spec fn hex_digit_value(b: u8) -> int {
    if 0x30 <= b && b <= 0x39 {
        b - 0x30
    } else if 0x61 <= b && b <= 0x66 {
        b - 0x61 + 10
    } else {
        16
    }
}

pub open spec fn is_hex_digit(b: u8) -> bool {
    hex_digit_value(b) < 16
}

pub open spec fn is_hex_seq(s: Seq<u8>) -> bool {
    forall|i: int| 0 <= i < s.len() ==> is_hex_digit(#[trigger] s[i])
}

/// The bytes denoted by an even-length sequence of hexadecimal digits.
pub open spec fn hex_decoded(s: Seq<u8>) -> Seq<u8> {
    Seq::new((s.len() / 2) as nat, |i: int| (hex_digit_value(s[2 * i]) * 16 + hex_digit_value(s[2 * i + 1])) as u8)
}

/// The ASCII digit for a nibble value below 16.
pub open spec fn hex_char_of(v: int) -> u8 {
    if v < 10 {
        (0x30 + v) as u8
    } else {
        (0x61 + v - 10) as u8
    }
}

/// The lower-case hexadecimal spelling of a byte sequence.
pub open spec fn hex_encoded(b: Seq<u8>) -> Seq<u8> {
    Seq::new(2 * b.len(), |i: int| if i % 2 == 0 { hex_char_of(b[i / 2] as int / 16) } else { hex_char_of(b[i / 2] as int % 16) })
}

/// Decode one hexadecimal digit byte; `None` for a non-digit.
pub fn decode_hex_digit(b: u8) -> (r: Option<u8>)
    ensures
        r is Some <==> is_hex_digit(b),
        r is Some ==> r->0 == hex_digit_value(b),
{
    if 0x30 <= b && b <= 0x39 {
        Some(b - 0x30)
    } else if 0x61 <= b && b <= 0x66 {
        Some(b - 0x61 + 10)
    } else {
        None
    }
}

/// Decode an even number of hexadecimal digit bytes into the bytes they
/// spell; `None` when the length is odd or a byte is not a digit.
pub fn decode_hex(s: &[u8]) -> (r: Option<Vec<u8>>)
    ensures
        r is Some <==> s@.len() % 2 == 0 && is_hex_seq(s@),
        r is Some ==> r->0@ == hex_decoded(s@),
{
    if s.len() % 2 != 0 {
        return None;
    }
    let mut out: Vec<u8> = Vec::new();
    let mut i: usize = 0;
    while i < s.len()
        invariant
            i % 2 == 0,
            i <= s@.len(),
            s@.len() % 2 == 0,
            forall|j: int| 0 <= j < i ==> is_hex_digit(#[trigger] s@[j]),
            out@ =~= hex_decoded(s@.subrange(0, i as int)),
        decreases s@.len() - i,
    {
        let hi = match decode_hex_digit(s[i]) {
            Some(v) => v,
            None => {
                return None;
            },
        };
        let lo = match decode_hex_digit(s[i + 1]) {
            Some(v) => v,
            None => {
                return None;
            },
        };
        out.push(hi * 16 + lo);
        i = i + 2;
        proof {
            assert(out@ =~= hex_decoded(s@.subrange(0, i as int)));
        }
    }
    proof {
        assert(s@.subrange(0, s@.len() as int) =~= s@);
    }
    Some(out)
}

/// Spell a byte sequence in lower-case hexadecimal.
pub fn encode_hex(b: &[u8]) -> (r: Vec<u8>)
    ensures
        r@ == hex_encoded(b@),
{
    let mut out: Vec<u8> = Vec::new();
    let mut i: usize = 0;
    while i < b.len()
        invariant
            i <= b@.len(),
            out@ =~= hex_encoded(b@.subrange(0, i as int)),
        decreases b@.len() - i,
    {
        let x = b[i];
        out.push(if x / 16 < 10 {
            0x30 + x / 16
        } else {
            0x61 + x / 16 - 10
        });
        out.push(if x % 16 < 10 {
            0x30 + x % 16
        } else {
            0x61 + x % 16 - 10
        });
        i = i + 1;
        proof {
            assert(out@ =~= hex_encoded(b@.subrange(0, i as int)));
        }
    }
    proof {
        assert(b@.subrange(0, b@.len() as int) =~= b@);
    }
    out
}

} // verus!

//! Canonical RLP: the ordered-field binary encoding used for transactions.
//! Byte-string items and lists carry a length header; every value has
//! exactly one accepted encoding, which the decoder enforces.

use vstd::prelude::*;
use vstd::slice::{slice_subrange, slice_to_vec};
use crate::beint::{
    be_bytes, be_nat, is_minimal_be, lemma_be_bytes_len, lemma_be_bytes_minimal,
    lemma_be_bytes_of_be_nat, lemma_be_nat_bound, lemma_be_nat_of_be_bytes, lemma_be_nat_push,
    lemma_pow256_eight,
    lemma_pow256_mono, pow256,
};

verus! {

/// Header of a byte-string item whose content has length `n` (for content
/// that is not a single byte below 0x80).
pub open spec fn rlp_str_hdr(n: nat) -> Seq<u8> {
    if n <= 55 {
        seq![(0x80 + n) as u8]
    } else {
        seq![(0xb7 + be_bytes(n).len()) as u8] + be_bytes(n)
    }
}

/// The encoding of a byte-string item.
pub open spec fn rlp_str_enc(p: Seq<u8>) -> Seq<u8> {
    if p.len() == 1 && p[0] < 0x80 {
        p
    } else {
        rlp_str_hdr(p.len()) + p
    }
}

/// Header of a list whose payload (the concatenated encodings of its items)
/// has length `n`.
pub open spec fn rlp_list_hdr(n: nat) -> Seq<u8> {
    if n <= 55 {
        seq![(0xc0 + n) as u8]
    } else {
        seq![(0xf7 + be_bytes(n).len()) as u8] + be_bytes(n)
    }
}

/// The encoding of a list with payload `p`.
pub open spec fn rlp_list_enc(p: Seq<u8>) -> Seq<u8> {
    rlp_list_hdr(p.len()) + p
}

/// How the encoding of a byte-string item is laid out, for every content
/// whose encoding fits in a 64-bit length: its first byte tells the form
/// apart, and header and content sit at fixed places.
pub proof fn lemma_rlp_str_enc_shape(c: Seq<u8>)
    requires
        rlp_str_enc(c).len() < 0x1_0000_0000_0000_0000,
    ensures
        rlp_str_enc(c).len() >= 1,
        c.len() == 1 && c[0] < 0x80 ==> rlp_str_enc(c) == c,
        !(c.len() == 1 && c[0] < 0x80) && c.len() <= 55 ==> {
            let e = rlp_str_enc(c);
            &&& e.len() == 1 + c.len()
            &&& e[0] == 0x80 + c.len()
            &&& e.subrange(1, e.len() as int) == c
        },
        c.len() > 55 ==> {
            let e = rlp_str_enc(c);
            let k = be_bytes(c.len()).len() as int;
            &&& 1 <= k <= 8
            &&& e.len() == 1 + k + c.len()
            &&& e[0] == 0xb7 + k
            &&& e.subrange(1, 1 + k) == be_bytes(c.len())
            &&& e[1] != 0
            &&& e.subrange(1 + k, e.len() as int) == c
        },
{
    if c.len() == 1 && c[0] < 0x80 {
    } else if c.len() <= 55 {
        let e = rlp_str_enc(c);
        assert(e.subrange(1, e.len() as int) =~= c);
    } else {
        let e = rlp_str_enc(c);
        let lb = be_bytes(c.len());
        let k = lb.len() as int;
        lemma_be_bytes_minimal(c.len());
        assert(c.len() < pow256(8)) by {
            lemma_pow256_eight();
        }
        lemma_be_bytes_len(c.len(), 8);
        assert(e.subrange(1, 1 + k) =~= lb);
        assert(e.subrange(1 + k, e.len() as int) =~= c);
        assert(e[1] == lb[0]);
    }
}

/// What a byte-string item occupying `buf[start..j]` must look like: the
/// first byte determines the form, the content and its bounds exactly.
pub proof fn lemma_rlp_item_at(buf: Seq<u8>, start: int, c: Seq<u8>, j: int)
    requires
        0 <= start <= j <= buf.len(),
        buf.len() < 0x1_0000_0000_0000_0000,
        rlp_str_enc(c) == buf.subrange(start, j),
    ensures
        j > start,
        buf[start] < 0xc0,
        buf[start] < 0x80 ==> c == seq![buf[start]] && j == start + 1,
        0x80 <= buf[start] <= 0xb7 ==> {
            &&& c.len() == buf[start] - 0x80
            &&& j == start + 1 + c.len()
            &&& c == buf.subrange(start + 1, j)
            &&& !(c.len() == 1 && buf[start + 1] < 0x80)
        },
        0xb8 <= buf[start] <= 0xbf ==> {
            let k = buf[start] - 0xb7;
            &&& c.len() > 55
            &&& be_bytes(c.len()).len() == k
            &&& j == start + 1 + k + c.len()
            &&& start + 1 + k <= j
            &&& buf[start + 1] != 0
            &&& be_bytes(c.len()) == buf.subrange(start + 1, start + 1 + k)
            &&& c == buf.subrange(start + 1 + k, j)
        },
{
    let e = rlp_str_enc(c);
    assert(e.len() == j - start);
    lemma_rlp_str_enc_shape(c);
    assert(e[0] == buf[start]);
    if c.len() == 1 && c[0] < 0x80 {
        assert(c =~= seq![buf[start]]);
    } else if c.len() <= 55 {
        assert(0x80 <= buf[start] <= 0xb7);
        assert(c =~= buf.subrange(start + 1, j)) by {
            assert(forall|i: int| 0 <= i < c.len() ==> #[trigger] c[i] == e[1 + i]);
            assert(forall|i: int| 0 <= i < c.len() ==> #[trigger] buf.subrange(start + 1, j)[i]
                == buf[start + 1 + i] == e[1 + i]);
        }
        if c.len() == 1 {
            assert(buf[start + 1] == c[0]);
            assert(c[0] >= 0x80);
        }
    } else {
        let k = be_bytes(c.len()).len() as int;
        assert(0xb8 <= buf[start] <= 0xbf);
        assert(be_bytes(c.len()) =~= buf.subrange(start + 1, start + 1 + k)) by {
            assert(forall|i: int| 0 <= i < k ==> #[trigger] be_bytes(c.len())[i] == e[1 + i]);
            assert(forall|i: int| 0 <= i < k ==> #[trigger] buf.subrange(start + 1, start + 1 + k)[i]
                == buf[start + 1 + i] == e[1 + i]);
        }
        assert(c =~= buf.subrange(start + 1 + k, j)) by {
            assert(forall|i: int| 0 <= i < c.len() ==> #[trigger] c[i] == e[1 + k + i]);
            assert(forall|i: int| 0 <= i < c.len() ==> #[trigger] buf.subrange(start + 1 + k, j)[i]
                == buf[start + 1 + i + k] == e[1 + k + i]);
        }
        assert(buf[start + 1] == e[1]);
    }
}

/// The minimal big-endian bytes of a 64-bit value.
pub fn be_bytes_of_u64(n: u64) -> (r: Vec<u8>)
    ensures
        r@ == be_bytes(n as nat),
        r@.len() <= 8,
    decreases n,
{
    proof {
        lemma_pow256_eight();
        lemma_be_bytes_len(n as nat, 8);
    }
    if n == 0 {
        Vec::new()
    } else {
        let mut v = be_bytes_of_u64(n / 256);
        v.push((n % 256) as u8);
        v
    }
}

/// The minimal big-endian bytes of a length.
pub fn be_bytes_of_usize(n: usize) -> (r: Vec<u8>)
    ensures
        r@ == be_bytes(n as nat),
        r@.len() <= 8,
{
    be_bytes_of_u64(n as u64)
}

/// Append the encoding of the byte-string item with content `p`.
pub fn append_rlp_str(out: &mut Vec<u8>, p: &[u8])
    ensures
        final(out)@ == old(out)@ + rlp_str_enc(p@),
{
    if p.len() == 1 && p[0] < 0x80 {
        out.push(p[0]);
        proof {
            assert(rlp_str_enc(p@) =~= p@);
            assert(out@ =~= old(out)@ + p@);
        }
    } else if p.len() <= 55 {
        out.push(0x80 + p.len() as u8);
        out.extend_from_slice(p);
        proof {
            assert(out@ =~= old(out)@ + rlp_str_enc(p@));
        }
    } else {
        let lb = be_bytes_of_usize(p.len());
        proof {
            lemma_be_bytes_minimal(p@.len());
        }
        out.push(0xb7 + lb.len() as u8);
        out.extend_from_slice(lb.as_slice());
        out.extend_from_slice(p);
        proof {
            assert(out@ =~= old(out)@ + rlp_str_enc(p@));
        }
    }
}

/// The header bytes of a list whose payload length is `n`.
pub fn rlp_list_header(n: usize) -> (r: Vec<u8>)
    ensures
        r@ == rlp_list_hdr(n as nat),
{
    let mut out: Vec<u8> = Vec::new();
    if n <= 55 {
        out.push(0xc0 + n as u8);
        proof {
            assert(out@ =~= rlp_list_hdr(n as nat));
        }
    } else {
        let lb = be_bytes_of_usize(n);
        out.push(0xf7 + lb.len() as u8);
        out.extend_from_slice(lb.as_slice());
        proof {
            assert(out@ =~= rlp_list_hdr(n as nat));
        }
    }
    out
}

/// Read the canonical encoding of one byte-string item starting at `start`.
/// On success the content and the index just past the item come back, and
/// re-encoding the content reproduces exactly the consumed bytes. The
/// reader is complete and unambiguous: whenever some content's encoding
/// occupies `buf[start..j]`, the reader accepts and returns exactly that
/// content and that bound.
#[verifier::rlimit(60)]
pub fn read_str_item(buf: &[u8], start: usize) -> (r: Option<(Vec<u8>, usize)>)
    requires
        start <= buf@.len(),
    ensures
        match r {
            Some(cj) => {
                &&& start < cj.1 <= buf@.len()
                &&& rlp_str_enc(cj.0@) =~= buf@.subrange(start as int, cj.1 as int)
            },
            None => true,
        },
        forall|c: Seq<u8>, j: int|
            start <= j <= buf@.len() && rlp_str_enc(c) == buf@.subrange(start as int, j) ==> r
                is Some && (r->0).0@ == c && (r->0).1 == j,
{
    let total = buf.len();
    if start >= total {
        proof {
            assert forall|c: Seq<u8>, j: int|
                start <= j <= buf@.len() && rlp_str_enc(c) == buf@.subrange(start as int, j)
                implies false by {
                lemma_rlp_item_at(buf@, start as int, c, j);
            }
        }
        return None;
    }
    let b0 = buf[start];
    if b0 < 0x80 {
        let mut c: Vec<u8> = Vec::new();
        c.push(b0);
        proof {
            assert(rlp_str_enc(c@) =~= buf@.subrange(start as int, start as int + 1));
            assert forall|w: Seq<u8>, j: int|
                start <= j <= buf@.len() && rlp_str_enc(w) == buf@.subrange(start as int, j)
                implies w == c@ && j == start + 1 by {
                lemma_rlp_item_at(buf@, start as int, w, j);
                assert(w =~= c@);
            }
        }
        Some((c, start + 1))
    } else if b0 <= 0xb7 {
        let n = (b0 - 0x80) as usize;
        if total - (start + 1) < n {
            proof {
                assert forall|w: Seq<u8>, j: int|
                    start <= j <= buf@.len() && rlp_str_enc(w) == buf@.subrange(start as int, j)
                    implies false by {
                    lemma_rlp_item_at(buf@, start as int, w, j);
                }
            }
            return None;
        }
        if n == 1 && buf[start + 1] < 0x80 {
            proof {
                assert forall|w: Seq<u8>, j: int|
                    start <= j <= buf@.len() && rlp_str_enc(w) == buf@.subrange(start as int, j)
                    implies false by {
                    lemma_rlp_item_at(buf@, start as int, w, j);
                }
            }
            return None;
        }
        let c = slice_to_vec(slice_subrange(buf, start + 1, start + 1 + n));
        proof {
            assert(rlp_str_enc(c@) =~= buf@.subrange(start as int, (start + 1 + n) as int));
            assert forall|w: Seq<u8>, j: int|
                start <= j <= buf@.len() && rlp_str_enc(w) == buf@.subrange(start as int, j)
                implies w == c@ && j == start + 1 + n by {
                lemma_rlp_item_at(buf@, start as int, w, j);
            }
        }
        Some((c, start + 1 + n))
    } else if b0 <= 0xbf {
        let ll = (b0 - 0xb7) as usize;
        if total - (start + 1) < ll {
            proof {
                assert forall|w: Seq<u8>, j: int|
                    start <= j <= buf@.len() && rlp_str_enc(w) == buf@.subrange(start as int, j)
                    implies false by {
                    lemma_rlp_item_at(buf@, start as int, w, j);
                }
            }
            return None;
        }
        if buf[start + 1] == 0 {
            proof {
                assert forall|w: Seq<u8>, j: int|
                    start <= j <= buf@.len() && rlp_str_enc(w) == buf@.subrange(start as int, j)
                    implies false by {
                    lemma_rlp_item_at(buf@, start as int, w, j);
                }
            }
            return None;
        }
        let mut n: u64 = 0;
        let mut i: usize = start + 1;
        let hdr_end = start + 1 + ll;
        proof {
            lemma_pow256_eight();
        }
        while i < hdr_end
            invariant
                start + 1 <= i <= hdr_end,
                hdr_end == start + 1 + ll,
                hdr_end <= buf@.len(),
                1 <= ll <= 8,
                n == be_nat(buf@.subrange(start as int + 1, i as int)),
                pow256(8) == 0x1_0000_0000_0000_0000,
            decreases hdr_end - i,
        {
            let b = buf[i];
            proof {
                lemma_be_nat_bound(buf@.subrange(start as int + 1, i as int));
                lemma_pow256_mono((i - start - 1) as nat, 7);
                assert(pow256(7) * 256 == pow256(8)) by {
                    assert(pow256(8) == 256 * pow256(7));
                }
                assert(n * 256 + b < pow256(8)) by (nonlinear_arith)
                    requires
                        n < pow256(7),
                        b < 256,
                        pow256(7) * 256 == pow256(8),
                ;
                lemma_be_nat_push(buf@.subrange(start as int + 1, i as int), buf@[i as int]);
                assert(buf@.subrange(start as int + 1, i as int).push(buf@[i as int]) =~= buf@
                    .subrange(start as int + 1, i as int + 1));
            }
            n = n * 256 + (b as u64);
            i = i + 1;
        }
        let ghost lenbytes = buf@.subrange(start as int + 1, (start + 1 + ll) as int);
        if n <= 55 {
            proof {
                assert forall|w: Seq<u8>, j: int|
                    start <= j <= buf@.len() && rlp_str_enc(w) == buf@.subrange(start as int, j)
                    implies false by {
                    lemma_rlp_item_at(buf@, start as int, w, j);
                    lemma_be_nat_of_be_bytes(w.len());
                }
            }
            return None;
        }
        let rest = total - (start + 1 + ll);
        if n > rest as u64 {
            proof {
                assert forall|w: Seq<u8>, j: int|
                    start <= j <= buf@.len() && rlp_str_enc(w) == buf@.subrange(start as int, j)
                    implies false by {
                    lemma_rlp_item_at(buf@, start as int, w, j);
                    lemma_be_nat_of_be_bytes(w.len());
                }
            }
            return None;
        }
        let nn = n as usize;
        proof {
            assert(is_minimal_be(lenbytes));
            lemma_be_bytes_of_be_nat(lenbytes);
            assert(be_bytes(nn as nat) =~= lenbytes);
        }
        let c = slice_to_vec(slice_subrange(buf, start + 1 + ll, start + 1 + ll + nn));
        proof {
            assert(rlp_str_enc(c@) =~= buf@.subrange(start as int, (start + 1 + ll + nn) as int));
            assert forall|w: Seq<u8>, j: int|
                start <= j <= buf@.len() && rlp_str_enc(w) == buf@.subrange(start as int, j)
                implies w == c@ && j == start + 1 + ll + nn by {
                lemma_rlp_item_at(buf@, start as int, w, j);
                lemma_be_nat_of_be_bytes(w.len());
            }
        }
        Some((c, start + 1 + ll + nn))
    } else {
        proof {
            assert forall|w: Seq<u8>, j: int|
                start <= j <= buf@.len() && rlp_str_enc(w) == buf@.subrange(start as int, j)
                implies false by {
                lemma_rlp_item_at(buf@, start as int, w, j);
            }
        }
        None
    }
}

/// What a complete list encoding must look like: the first byte tells the
/// form apart, and the payload sits at a fixed place.
pub proof fn lemma_rlp_list_at(buf: Seq<u8>, p: Seq<u8>)
    requires
        rlp_list_enc(p) == buf,
        buf.len() < 0x1_0000_0000_0000_0000,
    ensures
        buf.len() >= 1,
        buf[0] >= 0xc0,
        buf[0] <= 0xf7 ==> {
            &&& p.len() == buf[0] - 0xc0
            &&& buf.len() == 1 + p.len()
            &&& p == buf.subrange(1, buf.len() as int)
        },
        buf[0] >= 0xf8 ==> {
            let k = buf[0] - 0xf7;
            &&& p.len() > 55
            &&& be_bytes(p.len()).len() == k
            &&& buf.len() == 1 + k + p.len()
            &&& buf[1] != 0
            &&& be_bytes(p.len()) == buf.subrange(1, 1 + k)
            &&& p == buf.subrange(1 + k, buf.len() as int)
        },
{
    let e = rlp_list_enc(p);
    if p.len() <= 55 {
        assert(p =~= buf.subrange(1, buf.len() as int)) by {
            assert(forall|i: int| 0 <= i < p.len() ==> #[trigger] p[i] == e[1 + i]);
            assert(forall|i: int| 0 <= i < p.len() ==> #[trigger] buf.subrange(1, buf.len() as int)[i]
                == buf[1 + i] == e[1 + i]);
        }
    } else {
        let k = be_bytes(p.len()).len() as int;
        lemma_be_bytes_minimal(p.len());
        lemma_pow256_eight();
        lemma_be_bytes_len(p.len(), 8);
        assert(be_bytes(p.len()) =~= buf.subrange(1, 1 + k)) by {
            assert(forall|i: int| 0 <= i < k ==> #[trigger] be_bytes(p.len())[i] == e[1 + i]);
            assert(forall|i: int| 0 <= i < k ==> #[trigger] buf.subrange(1, 1 + k)[i] == buf[1 + i]
                == e[1 + i]);
        }
        assert(p =~= buf.subrange(1 + k, buf.len() as int)) by {
            assert(forall|i: int| 0 <= i < p.len() ==> #[trigger] p[i] == e[1 + k + i]);
            assert(forall|i: int| 0 <= i < p.len() ==> #[trigger] buf.subrange(1 + k, buf.len() as int)[i]
                == buf[1 + i + k] == e[1 + k + i]);
        }
        assert(buf[1] == be_bytes(p.len())[0]);
    }
}

/// Read the header of the outer list of a complete encoding: on success the
/// payload starts at the returned index, runs to the end of `buf`, and
/// re-encoding that payload as a list reproduces `buf` exactly. The
/// reader is complete and unambiguous: whenever `buf` is the encoding of
/// some list payload, it accepts and returns exactly that payload's place.
#[verifier::rlimit(60)]
pub fn read_list_frame(buf: &[u8]) -> (r: Option<usize>)
    ensures
        match r {
            Some(ps) => {
                &&& 0 < ps <= buf@.len()
                &&& rlp_list_enc(buf@.subrange(ps as int, buf@.len() as int)) =~= buf@
            },
            None => true,
        },
        forall|p: Seq<u8>| rlp_list_enc(p) == buf@ ==> r is Some && p == buf@.subrange(
            r->0 as int,
            buf@.len() as int,
        ),
{
    let total = buf.len();
    if total == 0 {
        proof {
            assert forall|p: Seq<u8>| rlp_list_enc(p) == buf@ implies false by {
                lemma_rlp_list_at(buf@, p);
            }
        }
        return None;
    }
    let b0 = buf[0];
    if b0 < 0xc0 {
        proof {
            assert forall|p: Seq<u8>| rlp_list_enc(p) == buf@ implies false by {
                lemma_rlp_list_at(buf@, p);
            }
        }
        return None;
    }
    if b0 <= 0xf7 {
        let n = (b0 - 0xc0) as usize;
        if total - 1 != n {
            proof {
                assert forall|p: Seq<u8>| rlp_list_enc(p) == buf@ implies false by {
                    lemma_rlp_list_at(buf@, p);
                }
            }
            return None;
        }
        proof {
            assert(rlp_list_enc(buf@.subrange(1, buf@.len() as int)) =~= buf@);
            assert forall|p: Seq<u8>| rlp_list_enc(p) == buf@ implies p == buf@.subrange(
                1,
                buf@.len() as int,
            ) by {
                lemma_rlp_list_at(buf@, p);
            }
        }
        Some(1)
    } else {
        let ll = (b0 - 0xf7) as usize;
        if total - 1 < ll {
            proof {
                assert forall|p: Seq<u8>| rlp_list_enc(p) == buf@ implies false by {
                    lemma_rlp_list_at(buf@, p);
                }
            }
            return None;
        }
        if buf[1] == 0 {
            proof {
                assert forall|p: Seq<u8>| rlp_list_enc(p) == buf@ implies false by {
                    lemma_rlp_list_at(buf@, p);
                }
            }
            return None;
        }
        let mut n: u64 = 0;
        let mut i: usize = 1;
        let hdr_end = 1 + ll;
        proof {
            lemma_pow256_eight();
        }
        while i < hdr_end
            invariant
                1 <= i <= hdr_end,
                hdr_end == 1 + ll,
                hdr_end <= buf@.len(),
                1 <= ll <= 8,
                n == be_nat(buf@.subrange(1, i as int)),
                pow256(8) == 0x1_0000_0000_0000_0000,
            decreases hdr_end - i,
        {
            let b = buf[i];
            proof {
                lemma_be_nat_bound(buf@.subrange(1, i as int));
                lemma_pow256_mono((i - 1) as nat, 7);
                assert(pow256(7) * 256 == pow256(8)) by {
                    assert(pow256(8) == 256 * pow256(7));
                }
                assert(n * 256 + b < pow256(8)) by (nonlinear_arith)
                    requires
                        n < pow256(7),
                        b < 256,
                        pow256(7) * 256 == pow256(8),
                ;
                lemma_be_nat_push(buf@.subrange(1, i as int), buf@[i as int]);
                assert(buf@.subrange(1, i as int).push(buf@[i as int]) =~= buf@.subrange(
                    1,
                    i as int + 1,
                ));
            }
            n = n * 256 + (b as u64);
            i = i + 1;
        }
        let ghost lenbytes = buf@.subrange(1, (1 + ll) as int);
        if n <= 55 {
            proof {
                assert forall|p: Seq<u8>| rlp_list_enc(p) == buf@ implies false by {
                    lemma_rlp_list_at(buf@, p);
                    lemma_be_nat_of_be_bytes(p.len());
                }
            }
            return None;
        }
        let rest = total - (1 + ll);
        if n != rest as u64 {
            proof {
                assert forall|p: Seq<u8>| rlp_list_enc(p) == buf@ implies false by {
                    lemma_rlp_list_at(buf@, p);
                    lemma_be_nat_of_be_bytes(p.len());
                }
            }
            return None;
        }
        proof {
            assert(is_minimal_be(lenbytes));
            lemma_be_bytes_of_be_nat(lenbytes);
            assert(be_bytes(rest as nat) =~= lenbytes);
            assert(rlp_list_enc(buf@.subrange((1 + ll) as int, buf@.len() as int)) =~= buf@);
            assert forall|p: Seq<u8>| rlp_list_enc(p) == buf@ implies p == buf@.subrange(
                (1 + ll) as int,
                buf@.len() as int,
            ) by {
                lemma_rlp_list_at(buf@, p);
                lemma_be_nat_of_be_bytes(p.len());
            }
        }
        Some(1 + ll)
    }
}

} // verus!

//! Big-endian byte strings as natural numbers: the value they denote, the
//! minimal (no leading zero) encoding of a value, and verified comparisons.

use vstd::prelude::*;
use vstd::arithmetic::div_mod::lemma_fundamental_div_mod_converse;

verus! {

/// 256 raised to the power `k`.
pub open spec fn pow256(k: nat) -> nat
    decreases k,
{
    if k == 0 {
        1
    } else {
        256 * pow256((k - 1) as nat)
    }
}

pub proof fn lemma_pow256_pos(k: nat)
    ensures
        pow256(k) >= 1,
    decreases k,
{
    if k > 0 {
        lemma_pow256_pos((k - 1) as nat);
    }
}

pub proof fn lemma_pow256_mono(a: nat, b: nat)
    requires
        a <= b,
    ensures
        pow256(a) <= pow256(b),
    decreases b,
{
    if a < b {
        lemma_pow256_mono(a, (b - 1) as nat);
        lemma_pow256_pos((b - 1) as nat);
    }
}

/// Eight bytes cover the range of a 64-bit length.
pub proof fn lemma_pow256_eight()
    ensures
        pow256(8) == 0x1_0000_0000_0000_0000,
{
    reveal_with_fuel(pow256, 9);
}

/// The natural number denoted by a big-endian byte string.
pub open spec fn be_nat(s: Seq<u8>) -> nat
    decreases s.len(),
{
    if s.len() == 0 {
        0
    } else {
        (be_nat(s.drop_last()) * 256 + s.last()) as nat
    }
}

/// The minimal big-endian byte string denoting `n`: empty for zero, and
/// never starting with a zero byte.
pub open spec fn be_bytes(n: nat) -> Seq<u8>
    decreases n,
{
    if n == 0 {
        Seq::empty()
    } else {
        be_bytes(n / 256).push((n % 256) as u8)
    }
}

/// A canonical quantity encoding: no leading zero byte.
pub open spec fn is_minimal_be(s: Seq<u8>) -> bool {
    s.len() == 0 || s[0] != 0
}

/// A single byte denotes itself.
pub proof fn lemma_be_nat_single(s: Seq<u8>)
    requires
        s.len() == 1,
    ensures
        be_nat(s) == s[0],
{
    assert(s.drop_last() =~= Seq::<u8>::empty());
    assert(be_nat(s.drop_last()) == 0);
}

pub proof fn lemma_be_nat_push(s: Seq<u8>, b: u8)
    ensures
        be_nat(s.push(b)) == be_nat(s) * 256 + b,
{
    assert(s.push(b).drop_last() =~= s);
    assert(s.push(b).last() == b);
}

pub proof fn lemma_be_nat_bound(s: Seq<u8>)
    ensures
        be_nat(s) < pow256(s.len()),
    decreases s.len(),
{
    if s.len() == 0 {
        assert(pow256(0) == 1);
    } else {
        lemma_be_nat_bound(s.drop_last());
        let m = (s.len() - 1) as nat;
        assert(pow256(s.len()) == 256 * pow256(m));
        assert(be_nat(s.drop_last()) * 256 + s.last() < 256 * pow256(m)) by (nonlinear_arith)
            requires
                be_nat(s.drop_last()) < pow256(m),
                s.last() < 256,
        ;
    }
}

pub proof fn lemma_be_nat_zero(s: Seq<u8>)
    ensures
        (be_nat(s) == 0) <==> (forall|i: int| 0 <= i < s.len() ==> s[i] == 0),
    decreases s.len(),
{
    if s.len() > 0 {
        let dl = s.drop_last();
        lemma_be_nat_zero(dl);
        assert(be_nat(s) == (be_nat(dl) * 256 + s.last()) as nat);
        if be_nat(s) == 0 {
            assert(be_nat(dl) == 0 && s.last() == 0);
            assert forall|i: int| 0 <= i < s.len() implies s[i] == 0 by {
                if i < s.len() - 1 {
                    assert(s[i] == dl[i]);
                } else {
                    assert(s[i] == s.last());
                }
            }
        } else {
            if forall|i: int| 0 <= i < s.len() ==> s[i] == 0 {
                assert(forall|i: int| 0 <= i < dl.len() ==> #[trigger] dl[i] == s[i]);
                assert(be_nat(dl) == 0);
                assert(s.last() == 0);
            }
        }
    }
}

/// Splitting a byte string at `k` splits its value into a high and a low part.
pub proof fn lemma_be_nat_split(s: Seq<u8>, k: int)
    requires
        0 <= k <= s.len(),
    ensures
        be_nat(s) == be_nat(s.subrange(0, k)) * pow256((s.len() - k) as nat) + be_nat(
            s.subrange(k, s.len() as int),
        ),
    decreases s.len() - k,
{
    if k == s.len() {
        assert(s.subrange(0, k) =~= s);
        assert(s.subrange(k, s.len() as int) =~= Seq::<u8>::empty());
        assert(be_nat(s.subrange(k, s.len() as int)) == 0);
        assert(pow256((s.len() - k) as nat) == 1);
        let hi = be_nat(s.subrange(0, k));
        assert(hi * pow256((s.len() - k) as nat) == hi) by (nonlinear_arith)
            requires
                pow256((s.len() - k) as nat) == 1,
        ;
    } else {
        let dl = s.drop_last();
        lemma_be_nat_split(dl, k);
        let m = (s.len() - k - 1) as nat;
        assert(dl.subrange(0, k) =~= s.subrange(0, k));
        assert(dl.subrange(k, dl.len() as int) =~= s.subrange(k, s.len() as int).drop_last());
        let low = s.subrange(k, s.len() as int);
        assert(low.last() == s.last());
        assert(be_nat(low) == be_nat(low.drop_last()) * 256 + s.last());
        assert(be_nat(dl) == be_nat(s.subrange(0, k)) * pow256(m) + be_nat(low.drop_last()));
        assert(pow256((m + 1) as nat) == 256 * pow256(m));
        assert(be_nat(s) == be_nat(dl) * 256 + s.last());
        assert((be_nat(s.subrange(0, k)) * pow256(m) + be_nat(low.drop_last())) * 256 + s.last()
            == be_nat(s.subrange(0, k)) * (256 * pow256(m)) + (be_nat(low.drop_last()) * 256
            + s.last())) by (nonlinear_arith);
        assert((s.len() - k) as nat == (m + 1) as nat);
        assert(be_nat(s) == be_nat(s.subrange(0, k)) * pow256((m + 1) as nat) + be_nat(low));
        assert(be_nat(s) == be_nat(s.subrange(0, k)) * pow256((s.len() - k) as nat) + be_nat(
            s.subrange(k, s.len() as int),
        ));
    }
}

/// Two equal-length byte strings with an equal prefix order by the first
/// byte where they differ.
pub proof fn lemma_be_nat_prefix_lt(a: Seq<u8>, b: Seq<u8>, i: int)
    requires
        a.len() == b.len(),
        0 <= i < a.len(),
        a.subrange(0, i) =~= b.subrange(0, i),
        a[i] < b[i],
    ensures
        be_nat(a) < be_nat(b),
{
    let n = a.len() as int;
    let p = pow256((n - i) as nat);
    let q = pow256((n - i - 1) as nat);
    lemma_be_nat_split(a, i);
    lemma_be_nat_split(b, i);
    let ra = a.subrange(i, n);
    let rb = b.subrange(i, n);
    lemma_be_nat_split(ra, 1);
    lemma_be_nat_split(rb, 1);
    lemma_be_nat_single(ra.subrange(0, 1));
    lemma_be_nat_single(rb.subrange(0, 1));
    lemma_be_nat_bound(ra.subrange(1, ra.len() as int));
    assert(ra.subrange(1, ra.len() as int).len() == n - i - 1);
    assert(be_nat(ra) < (a[i] + 1) * q) by (nonlinear_arith)
        requires
            be_nat(ra) == a[i] * q + be_nat(ra.subrange(1, ra.len() as int)),
            be_nat(ra.subrange(1, ra.len() as int)) < q,
    ;
    assert((a[i] + 1) * q <= b[i] * q) by (nonlinear_arith)
        requires
            a[i] < b[i],
            q > 0,
    ;
    assert(q > 0) by {
        lemma_pow256_pos((n - i - 1) as nat);
    }
    assert(be_nat(rb) >= b[i] * q);
    assert(be_nat(a) == be_nat(a.subrange(0, i)) * p + be_nat(ra));
    assert(be_nat(b) == be_nat(b.subrange(0, i)) * p + be_nat(rb));
}

pub proof fn lemma_be_bytes_minimal(n: nat)
    ensures
        is_minimal_be(be_bytes(n)),
        n > 0 ==> be_bytes(n).len() > 0,
    decreases n,
{
    if n > 0 {
        lemma_be_bytes_minimal(n / 256);
        if n / 256 == 0 {
            assert(n % 256 == n) by (nonlinear_arith)
                requires
                    n > 0,
                    n / 256 == 0,
            ;
        } else {
            assert(be_bytes(n)[0] == be_bytes(n / 256)[0]);
        }
    }
}

pub proof fn lemma_be_nat_of_be_bytes(n: nat)
    ensures
        be_nat(be_bytes(n)) == n,
    decreases n,
{
    if n > 0 {
        lemma_be_nat_of_be_bytes(n / 256);
        lemma_be_nat_push(be_bytes(n / 256), (n % 256) as u8);
    }
}

/// On strings with no leading zero, `be_bytes` inverts `be_nat`.
pub proof fn lemma_be_bytes_of_be_nat(s: Seq<u8>)
    requires
        is_minimal_be(s),
    ensures
        be_bytes(be_nat(s)) =~= s,
    decreases s.len(),
{
    if s.len() > 0 {
        let dl = s.drop_last();
        let v = be_nat(s);
        if s.len() == 1 {
            lemma_be_nat_single(s);
            if v > 0 {
                assert(v / 256 == 0 && v % 256 == v) by {
                    lemma_fundamental_div_mod_converse(v as int, 256, 0, v as int);
                }
                assert(be_bytes(v / 256) =~= Seq::<u8>::empty());
                assert(be_bytes(v) =~= Seq::<u8>::empty().push(s[0]));
            }
        } else {
            assert(dl[0] == s[0]);
            lemma_be_bytes_of_be_nat(dl);
            lemma_be_nat_zero(dl);
            assert(be_nat(dl) > 0);
            assert(v == be_nat(dl) * 256 + s.last());
            assert(v / 256 == be_nat(dl) && v % 256 == s.last()) by {
                lemma_fundamental_div_mod_converse(v as int, 256, be_nat(dl) as int, s.last() as int);
            }
            assert(v > 0) by (nonlinear_arith)
                requires
                    be_nat(dl) > 0,
                    v == be_nat(dl) * 256 + s.last(),
            ;
            assert(be_bytes(v) =~= be_bytes(v / 256).push((v % 256) as u8));
            assert(be_bytes(v) =~= be_bytes(be_nat(dl)).push(s.last()));
        }
    }
}

pub proof fn lemma_be_bytes_len(n: nat, k: nat)
    requires
        n < pow256(k),
    ensures
        be_bytes(n).len() <= k,
    decreases n,
{
    if n > 0 {
        assert(k > 0) by {
            if k == 0 {
                assert(pow256(0) == 1);
            }
        }
        assert(n / 256 < pow256((k - 1) as nat)) by (nonlinear_arith)
            requires
                n < pow256(k),
                pow256(k) == 256 * pow256((k - 1) as nat),
                n / 256 <= n,
                256 * (n / 256) <= n,
        ;
        assert(pow256(k) == 256 * pow256((k - 1) as nat));
        assert(256 * (n / 256) <= n) by (nonlinear_arith);
        assert(n / 256 <= n) by (nonlinear_arith);
        lemma_be_bytes_len(n / 256, (k - 1) as nat);
    }
}

/// A smaller value never needs more bytes.
pub proof fn lemma_be_bytes_len_mono(n1: nat, n2: nat)
    requires
        n1 <= n2,
    ensures
        be_bytes(n1).len() <= be_bytes(n2).len(),
    decreases n2,
{
    if n1 > 0 {
        vstd::arithmetic::div_mod::lemma_div_is_ordered(n1 as int, n2 as int, 256);
        assert(n1 / 256 < n1) by (nonlinear_arith)
            requires
                n1 > 0,
        ;
        assert(n2 / 256 < n2) by (nonlinear_arith)
            requires
                n2 > 0,
        ;
        lemma_be_bytes_len_mono(n1 / 256, n2 / 256);
    }
}

/// Strip leading zero bytes, leaving the minimal encoding of the same value.
pub open spec fn strip_leading_zeros(s: Seq<u8>) -> Seq<u8>
    decreases s.len(),
{
    if s.len() == 0 || s[0] != 0 {
        s
    } else {
        strip_leading_zeros(s.subrange(1, s.len() as int))
    }
}

pub proof fn lemma_strip_leading_zeros(s: Seq<u8>)
    ensures
        is_minimal_be(strip_leading_zeros(s)),
        strip_leading_zeros(s).len() <= s.len(),
        be_nat(strip_leading_zeros(s)) == be_nat(s),
    decreases s.len(),
{
    if s.len() > 0 && s[0] == 0 {
        let t = s.subrange(1, s.len() as int);
        lemma_strip_leading_zeros(t);
        lemma_be_nat_split(s, 1);
        lemma_be_nat_single(s.subrange(0, 1));
    }
}

/// Compare two equal-length big-endian byte strings by the values they
/// denote.
pub fn be_bytes_lt(a: &[u8], b: &[u8]) -> (r: bool)
    requires
        a@.len() == b@.len(),
    ensures
        r == (be_nat(a@) < be_nat(b@)),
{
    let mut i: usize = 0;
    while i < a.len()
        invariant
            a@.len() == b@.len(),
            i <= a@.len(),
            a@.subrange(0, i as int) =~= b@.subrange(0, i as int),
        decreases a@.len() - i,
    {
        if a[i] < b[i] {
            proof {
                lemma_be_nat_prefix_lt(a@, b@, i as int);
            }
            return true;
        }
        if a[i] > b[i] {
            proof {
                lemma_be_nat_prefix_lt(b@, a@, i as int);
            }
            return false;
        }
        i = i + 1;
    }
    proof {
        assert(a@.subrange(0, a@.len() as int) =~= a@);
        assert(b@.subrange(0, b@.len() as int) =~= b@);
        assert(a@ =~= b@);
    }
    false
}

/// Whether every byte is zero, checked without early exit.
pub fn is_all_zero(a: &[u8]) -> (r: bool)
    ensures
        r == (be_nat(a@) == 0),
{
    let mut acc: u8 = 0;
    let mut i: usize = 0;
    while i < a.len()
        invariant
            i <= a@.len(),
            (acc == 0) <==> (forall|j: int| 0 <= j < i ==> a@[j] == 0),
        decreases a@.len() - i,
    {
        let x = a[i];
        let acc0 = acc;
        acc = acc | x;
        proof {
            assert(((acc0 | x) == 0) == (acc0 == 0 && x == 0)) by (bit_vector);
        }
        i = i + 1;
    }
    proof {
        lemma_be_nat_zero(a@);
    }
    acc == 0
}

/// Constant-time equality of two equal-length byte strings: every byte is
/// visited, with no early exit on a mismatch.
pub fn ct_bytes_eq(a: &[u8], b: &[u8]) -> (r: bool)
    requires
        a@.len() == b@.len(),
    ensures
        r == (a@ =~= b@),
{
    let mut acc: u8 = 0;
    let mut i: usize = 0;
    while i < a.len()
        invariant
            a@.len() == b@.len(),
            i <= a@.len(),
            (acc == 0) <==> (forall|j: int| 0 <= j < i ==> a@[j] == b@[j]),
        decreases a@.len() - i,
    {
        let x = a[i];
        let y = b[i];
        let acc0 = acc;
        acc = acc | (x ^ y);
        proof {
            assert(((acc0 | (x ^ y)) == 0) == (acc0 == 0 && x == y)) by (bit_vector);
        }
        i = i + 1;
    }
    acc == 0
}

} // verus!

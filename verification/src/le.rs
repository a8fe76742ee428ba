//! Little-endian interpretation of byte sequences.
//!
//! Every multi-byte integer field of a `$I` record is stored little-endian:
//! the byte at the lowest offset is the least significant.  `le_value` is the
//! mathematical meaning of such a field, and `read_le` is the verified reader
//! the decoder uses to consume one field from the buffer.

use vstd::prelude::*;

verus! {

/// The unsigned integer that a byte sequence denotes when read little-endian:
/// the first byte is the least significant.
pub open spec fn le_value(s: Seq<u8>) -> int
    decreases s.len(),
{
    if s.len() == 0 {
        0
    } else {
        s[0] + 256 * le_value(s.skip(1))
    }
}

/// 256 to the power `n`: the number of distinct values of an `n`-byte field.
pub open spec fn pow256(n: nat) -> int
    decreases n,
{
    if n == 0 {
        1
    } else {
        256 * pow256((n - 1) as nat)
    }
}

/// A sequence of `n` bytes denotes a value in `[0, 256^n)`.
pub proof fn lemma_le_value_bound(s: Seq<u8>)
    ensures
        0 <= le_value(s) < pow256(s.len()),
    decreases s.len(),
{
    if s.len() != 0 {
        lemma_le_value_bound(s.skip(1));
    }
}

/// Two byte sequences of equal length with the same little-endian value are
/// the same sequence: the decoder loses no information about a field's bytes.
pub proof fn lemma_le_value_injective(a: Seq<u8>, b: Seq<u8>)
    requires
        a.len() == b.len(),
        le_value(a) == le_value(b),
    ensures
        a =~= b,
    decreases a.len(),
{
    if a.len() != 0 {
        assert(a[0] + 256 * le_value(a.skip(1)) == b[0] + 256 * le_value(b.skip(1)));
        lemma_le_value_bound(a.skip(1));
        lemma_le_value_bound(b.skip(1));
        assert(a[0] == b[0]);
        lemma_le_value_injective(a.skip(1), b.skip(1));
        assert forall|i: int| 0 <= i < a.len() implies a[i] == b[i] by {
            if i > 0 {
                assert(a.skip(1)[i - 1] == b.skip(1)[i - 1]);
            }
        }
    }
}

/// Splitting a field at any byte splits its value: the left part is the low
/// digits, the right part is scaled past them.
pub proof fn lemma_le_value_concat(a: Seq<u8>, b: Seq<u8>)
    ensures
        le_value(a + b) == le_value(a) + pow256(a.len()) * le_value(b),
    decreases a.len(),
{
    if a.len() == 0 {
        assert(a + b =~= b);
    } else {
        assert((a + b)[0] == a[0]);
        assert((a + b).skip(1) =~= a.skip(1) + b);
        lemma_le_value_concat(a.skip(1), b);
        let p = pow256((a.len() - 1) as nat);
        let v = le_value(b);
        assert(pow256(a.len()) == 256 * p);
        assert(256 * (p * v) == (256 * p) * v) by (nonlinear_arith);
    }
}

/// Reading a field big-endian instead of little-endian changes the value
/// whenever reversing the field's bytes changes them at all.
pub proof fn lemma_byte_order_matters(s: Seq<u8>)
    requires
        !(s =~= s.reverse()),
    ensures
        le_value(s) != le_value(s.reverse()),
{
    if le_value(s) == le_value(s.reverse()) {
        lemma_le_value_injective(s, s.reverse());
    }
}

/// Reads the `n` bytes of `b` starting at `off` as a little-endian unsigned
/// integer.  At most eight bytes fit a `u64`.
pub fn read_le(b: &[u8], off: usize, n: usize) -> (v: u64)
    requires
        off + n <= b@.len(),
        n <= 8,
    ensures
        v == le_value(b@.subrange(off as int, off + n)),
    decreases n,
{
    if n == 0 {
        assert(b@.subrange(off as int, off as int).len() == 0);
        0
    } else {
        let len = b.len();
        assert(off + 1 <= len);
        let rest = read_le(b, off + 1, n - 1);
        proof {
            let s = b@.subrange(off as int, off + n);
            let t = b@.subrange(off + 1, off + n);
            assert(s.skip(1) =~= t);
            lemma_le_value_bound(t);
            assert(pow256(0nat) == 1);
            assert(pow256(1nat) == 256);
            assert(pow256(2nat) == 65536);
            assert(pow256(3nat) == 16777216);
            assert(pow256(4nat) == 4294967296);
            assert(pow256(5nat) == 1099511627776);
            assert(pow256(6nat) == 281474976710656);
            assert(pow256(7nat) == 72057594037927936);
            assert(n - 1 <= 7);
            lemma_pow256_monotone((n - 1) as nat, 7nat);
            assert(s[0] == b@[off as int]);
        }
        b[off] as u64 + 256 * rest
    }
}

/// `pow256` grows with the exponent.
pub proof fn lemma_pow256_monotone(m: nat, n: nat)
    requires
        m <= n,
    ensures
        pow256(m) <= pow256(n),
    decreases n,
{
    if m < n {
        lemma_pow256_monotone(m, (n - 1) as nat);
        lemma_pow256_positive((n - 1) as nat);
    }
}

/// `pow256` is positive.
pub proof fn lemma_pow256_positive(n: nat)
    ensures
        pow256(n) >= 1,
    decreases n,
{
    if n > 0 {
        lemma_pow256_positive((n - 1) as nat);
    }
}

} // verus!

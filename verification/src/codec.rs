//! The on-disk value format of the keyed store: a snapshot list as a
//! length-prefixed sequence of fixed-width little-endian records
//! (`imsi: u64, msisdn: u64, imei: u64, mccmnc: u32, valid_from: i64,
//! valid_to: one presence byte, then i64 when present`). Encoding and
//! decoding are exact inverses.

use vstd::prelude::*;

verus! {

/// 256 to the power `n`.
pub open spec fn pow256(n: nat) -> nat
    decreases n,
{
    if n == 0 {
        1
    } else {
        256 * pow256((n - 1) as nat)
    }
}

/// The first `n` little-endian base-256 digits of `v`.
pub open spec fn le_bytes(v: nat, n: nat) -> Seq<u8>
    decreases n,
{
    if n == 0 {
        Seq::empty()
    } else {
        seq![(v % 256) as u8] + le_bytes(v / 256, (n - 1) as nat)
    }
}

/// The number denoted by little-endian base-256 digits.
pub open spec fn le_value(b: Seq<u8>) -> nat
    decreases b.len(),
{
    if b.len() == 0 {
        0
    } else {
        (b[0] + 256 * le_value(b.drop_first())) as nat
    }
}

/// `le_bytes` has the requested length and inverts `le_value`.
pub proof fn lemma_le_round_trip(v: nat, n: nat)
    requires
        v < pow256(n),
    ensures
        le_bytes(v, n).len() == n,
        le_value(le_bytes(v, n)) == v,
    decreases n,
{
    if n > 0 {
        assert(v / 256 < pow256((n - 1) as nat)) by (nonlinear_arith)
            requires
                v < pow256(n),
                pow256(n) == 256 * pow256((n - 1) as nat),
        ;
        lemma_le_round_trip(v / 256, (n - 1) as nat);
        assert(le_bytes(v, n).drop_first() =~= le_bytes(v / 256, (n - 1) as nat));
        assert(le_bytes(v, n)[0] == (v % 256) as u8);
        assert(v % 256 + 256 * (v / 256) == v) by (nonlinear_arith);
    }
}

/// A digit string denotes less than 256 to its length.
pub proof fn lemma_le_value_bound(b: Seq<u8>)
    ensures
        le_value(b) < pow256(b.len()),
    decreases b.len(),
{
    if b.len() > 0 {
        lemma_le_value_bound(b.drop_first());
        assert(b[0] < 256);
        assert(b[0] + 256 * le_value(b.drop_first()) < 256 * pow256((b.len() - 1) as nat))
            by (nonlinear_arith)
            requires
                b[0] < 256,
                le_value(b.drop_first()) < pow256((b.len() - 1) as nat),
        ;
    }
}

/// The unsigned 64-bit representation of a signed 64-bit value.
pub open spec fn i64_repr(v: int) -> nat
    recommends
        i64::MIN <= v <= i64::MAX,
{
    if v >= 0 {
        v as nat
    } else {
        (v + 0x1_0000_0000_0000_0000) as nat
    }
}

/// The signed value of an unsigned 64-bit representation.
pub open spec fn i64_of_repr(u: nat) -> int
    recommends
        u < 0x1_0000_0000_0000_0000,
{
    if u < 0x8000_0000_0000_0000 {
        u as int
    } else {
        u - 0x1_0000_0000_0000_0000
    }
}

/// The representation round-trips.
pub proof fn lemma_i64_repr_round_trip(v: int)
    requires
        i64::MIN <= v <= i64::MAX,
    ensures
        i64_repr(v) < 0x1_0000_0000_0000_0000,
        i64_of_repr(i64_repr(v)) == v,
{
}

/// Appends the eight little-endian bytes of `v`.
pub fn push_u64_le(out: &mut Vec<u8>, v: u64)
    ensures
        final(out)@ == old(out)@ + le_bytes(v as nat, 8),
{
    let ghost base = out@;
    let mut m = v;
    let mut i: usize = 0;
    while i < 8
        invariant
            0 <= i <= 8,
            base + le_bytes(v as nat, 8) =~= out@ + le_bytes(m as nat, (8 - i) as nat),
        decreases 8 - i,
    {
        let ghost m0 = m as nat;
        let b = (m % 256) as u8;
        out.push(b);
        m = m / 256;
        proof {
            assert(le_bytes(m0, (8 - i) as nat) =~= seq![(m0 % 256) as u8] + le_bytes(
                m0 / 256,
                (8 - i - 1) as nat,
            ));
        }
        i = i + 1;
    }
    proof {
        assert(le_bytes(m as nat, 0) =~= Seq::<u8>::empty());
        assert(out@ + Seq::<u8>::empty() =~= out@);
        assert(out@ =~= base + le_bytes(v as nat, 8));
    }
}

/// Appends the four little-endian bytes of `v`.
pub fn push_u32_le(out: &mut Vec<u8>, v: u32)
    ensures
        final(out)@ == old(out)@ + le_bytes(v as nat, 4),
{
    let ghost base = out@;
    let mut m = v;
    let mut i: usize = 0;
    while i < 4
        invariant
            0 <= i <= 4,
            base + le_bytes(v as nat, 4) =~= out@ + le_bytes(m as nat, (4 - i) as nat),
        decreases 4 - i,
    {
        let ghost m0 = m as nat;
        let b = (m % 256) as u8;
        out.push(b);
        m = m / 256;
        proof {
            assert(le_bytes(m0, (4 - i) as nat) =~= seq![(m0 % 256) as u8] + le_bytes(
                m0 / 256,
                (4 - i - 1) as nat,
            ));
        }
        i = i + 1;
    }
    proof {
        assert(le_bytes(m as nat, 0) =~= Seq::<u8>::empty());
        assert(out@ + Seq::<u8>::empty() =~= out@);
        assert(out@ =~= base + le_bytes(v as nat, 4));
    }
}

/// Appends the eight little-endian bytes of the representation of `v`.
pub fn push_i64_le(out: &mut Vec<u8>, v: i64)
    ensures
        final(out)@ == old(out)@ + le_bytes(i64_repr(v as int), 8),
{
    let u: u64 = if v >= 0 {
        v as u64
    } else if v == i64::MIN {
        0x8000_0000_0000_0000u64
    } else {
        let m = (-v) as u64;
        (0xFFFF_FFFF_FFFF_FFFFu64 - m) + 1
    };
    assert(u as nat == i64_repr(v as int));
    push_u64_le(out, u);
}

/// Reads `n` little-endian bytes at `off` as a number.
pub fn read_le(b: &Vec<u8>, off: usize, n: usize) -> (r: u64)
    requires
        n <= 8,
        off + n <= b@.len(),
    ensures
        r as nat == le_value(b@.subrange(off as int, off + n)),
{
    proof {
        lemma_pow256_values();
    }
    let blen = b.len();
    let mut acc: u64 = 0;
    let mut j: usize = n;
    while j > 0
        invariant
            0 <= j <= n,
            n <= 8,
            off + n <= blen,
            blen == b@.len(),
            acc as nat == le_value(b@.subrange(off + j, off + n)),
            acc < pow256((n - j) as nat),
        decreases j,
    {
        proof {
            lemma_pow256_values();
            assert(b@.subrange(off + j - 1, off + n).drop_first() =~= b@.subrange(
                off + j,
                off + n,
            ));
            assert(b@.subrange(off + j - 1, off + n)[0] == b@[off + j - 1]);
            assert(pow256((n - j) as nat) <= pow256(7)) by {
                lemma_pow256_mono((n - j) as nat, 7);
            }
            assert(b@[off + j - 1] + 256 * (acc as nat) < pow256((n - j + 1) as nat))
                by (nonlinear_arith)
                requires
                    b@[off + j - 1] < 256,
                    (acc as nat) < pow256((n - j) as nat),
                    pow256((n - j + 1) as nat) == 256 * pow256((n - j) as nat),
            ;
        }
        let byte = b[off + (j - 1)];
        acc = (byte as u64) + 256 * acc;
        j = j - 1;
    }
    proof {
        assert(acc as nat == le_value(b@.subrange(off as int, off + n)));
    }
    acc
}

/// The numeric values of the small powers of 256.
pub proof fn lemma_pow256_values()
    ensures
        pow256(0) == 1,
        pow256(1) == 0x100,
        pow256(2) == 0x1_0000,
        pow256(3) == 0x100_0000,
        pow256(4) == 0x1_0000_0000,
        pow256(5) == 0x100_0000_0000,
        pow256(6) == 0x1_0000_0000_0000,
        pow256(7) == 0x100_0000_0000_0000,
        pow256(8) == 0x1_0000_0000_0000_0000,
{
    assert(pow256(0) == 1);
    assert(pow256(1) == 256 * pow256(0));
    assert(pow256(2) == 256 * pow256(1));
    assert(pow256(3) == 256 * pow256(2));
    assert(pow256(4) == 256 * pow256(3));
    assert(pow256(5) == 256 * pow256(4));
    assert(pow256(6) == 256 * pow256(5));
    assert(pow256(7) == 256 * pow256(6));
    assert(pow256(8) == 256 * pow256(7));
}

/// Powers of 256 grow with the exponent.
pub proof fn lemma_pow256_mono(a: nat, b: nat)
    requires
        a <= b,
    ensures
        pow256(a) <= pow256(b),
    decreases b,
{
    if a < b {
        lemma_pow256_mono(a, (b - 1) as nat);
        assert(pow256(b) == 256 * pow256((b - 1) as nat));
        assert(pow256((b - 1) as nat) <= 256 * pow256((b - 1) as nat)) by (nonlinear_arith)
            requires
                pow256((b - 1) as nat) >= 0,
        ;
    }
}

} // verus!

//! The keyed snapshot store: phone number (as an eight-byte unsigned key) to
//! the encoded, ascending list of that number's snapshots, persisted in an
//! embedded ordered key-value engine. The value format is the library's own
//! (`codec`); this module adds the record layout, the store operations, and
//! the point-in-time search over a decoded list.

use vstd::prelude::*;
use crate::codec::{
    i64_of_repr, i64_repr, le_bytes, le_value, lemma_le_round_trip, lemma_le_value_bound,
    lemma_pow256_values, pow256, push_i64_le, push_u32_le, push_u64_le, read_le,
};

verus! {

/// A snapshot with every identifier in numeric form, as stored.
#[derive(Debug, Clone, Copy, PartialEq, Eq, Structural)]
pub struct SubscriberSnapshotNumeric {
    pub imsi: u64,
    pub msisdn: u64,
    pub imei: u64,
    pub mccmnc: u32,
    pub valid_from: i64,
    pub valid_to: Option<i64>,
}

/// The number a digit string denotes, or zero when it is not a `u64` digit
/// string.
pub open spec fn num_or_zero_u64(s: Seq<char>) -> nat {
    if s.len() > 0 && crate::ids::all_digits(s) && crate::ids::digits_value(s) <= u64::MAX {
        crate::ids::digits_value(s)
    } else {
        0
    }
}

/// The number a digit string denotes, or zero when it is not a `u32` digit
/// string.
pub open spec fn num_or_zero_u32(s: Seq<char>) -> nat {
    if s.len() > 0 && crate::ids::all_digits(s) && crate::ids::digits_value(s) <= u32::MAX {
        crate::ids::digits_value(s)
    } else {
        0
    }
}

/// The numeric form of a snapshot: each identifier read as a decimal number
/// of its width, or zero when it is not one.
pub open spec fn numeric_of(s: crate::subscriber_db::SnapshotView) -> SubscriberSnapshotNumeric {
    SubscriberSnapshotNumeric {
        imsi: num_or_zero_u64(s.imsi) as u64,
        msisdn: num_or_zero_u64(s.msisdn) as u64,
        imei: num_or_zero_u64(s.imei) as u64,
        mccmnc: num_or_zero_u32(s.mccmnc) as u32,
        valid_from: s.valid_from as i64,
        valid_to: match s.valid_to {
            Some(t) => Some(t as i64),
            None => None,
        },
    }
}

impl SubscriberSnapshotNumeric {
    /// Converts a textual snapshot to numeric form; a field that is not a
    /// decimal number of its range becomes zero.
    pub fn from_snapshot(s: &crate::subscriber_db::SubscriberSnapshot) -> (r: Self)
        ensures
            r == numeric_of(s@),
    {
        let imsi = match crate::ids::parse_u64_digits(s.imsi.as_str()) {
            Some(v) => v,
            None => 0,
        };
        let msisdn = match crate::ids::parse_u64_digits(s.msisdn.as_str()) {
            Some(v) => v,
            None => 0,
        };
        let imei = match crate::ids::parse_u64_digits(s.imei.as_str()) {
            Some(v) => v,
            None => 0,
        };
        let mccmnc = match crate::ids::parse_u64_digits(s.mccmnc.as_str()) {
            Some(v) => if v <= 0xFFFF_FFFFu64 {
                v as u32
            } else {
                0
            },
            None => 0,
        };
        SubscriberSnapshotNumeric {
            imsi,
            msisdn,
            imei,
            mccmnc,
            valid_from: s.valid_from,
            valid_to: s.valid_to,
        }
    }
}

/// The encoded bytes of one stored snapshot record.
pub open spec fn snap_bytes(s: SubscriberSnapshotNumeric) -> Seq<u8> {
    le_bytes(s.imsi as nat, 8) + le_bytes(s.msisdn as nat, 8) + le_bytes(s.imei as nat, 8)
        + le_bytes(s.mccmnc as nat, 4) + le_bytes(i64_repr(s.valid_from as int), 8) + (
    match s.valid_to {
        None => seq![0u8],
        Some(t) => seq![1u8] + le_bytes(i64_repr(t as int), 8),
    })
}

/// The concatenated records of a snapshot list, in order.
pub open spec fn snaps_concat(l: Seq<SubscriberSnapshotNumeric>) -> Seq<u8>
    decreases l.len(),
{
    if l.len() == 0 {
        Seq::empty()
    } else {
        snap_bytes(l[0]) + snaps_concat(l.drop_first())
    }
}

/// The encoded bytes of a whole stored value: the count, then the records.
pub open spec fn snap_list_bytes(l: Seq<SubscriberSnapshotNumeric>) -> Seq<u8> {
    le_bytes(l.len(), 8) + snaps_concat(l)
}

/// One record decoded from the front of `b`, with the bytes it used.
pub open spec fn spec_decode_one(b: Seq<u8>) -> Option<(SubscriberSnapshotNumeric, int)> {
    if b.len() < 37 {
        None
    } else {
        let imsi = le_value(b.subrange(0, 8)) as u64;
        let msisdn = le_value(b.subrange(8, 16)) as u64;
        let imei = le_value(b.subrange(16, 24)) as u64;
        let mccmnc = le_value(b.subrange(24, 28)) as u32;
        let vf = i64_of_repr(le_value(b.subrange(28, 36))) as i64;
        let tag = b[36];
        if tag == 0 {
            Some(
                (
                    SubscriberSnapshotNumeric {
                        imsi,
                        msisdn,
                        imei,
                        mccmnc,
                        valid_from: vf,
                        valid_to: None,
                    },
                    37,
                ),
            )
        } else if tag == 1 && b.len() >= 45 {
            let vt = i64_of_repr(le_value(b.subrange(37, 45))) as i64;
            Some(
                (
                    SubscriberSnapshotNumeric {
                        imsi,
                        msisdn,
                        imei,
                        mccmnc,
                        valid_from: vf,
                        valid_to: Some(vt),
                    },
                    45,
                ),
            )
        } else {
            None
        }
    }
}

/// Exactly `cnt` records decoded from all of `b`, or nothing when `b` is not
/// exactly that encoding.
pub open spec fn spec_decode_records(b: Seq<u8>, cnt: nat) -> Option<
    Seq<SubscriberSnapshotNumeric>,
>
    decreases cnt,
{
    if cnt == 0 {
        if b.len() == 0 {
            Some(Seq::empty())
        } else {
            None
        }
    } else {
        match spec_decode_one(b) {
            None => None,
            Some((s, used)) => match spec_decode_records(b.skip(used), (cnt - 1) as nat) {
                None => None,
                Some(rest) => Some(seq![s] + rest),
            },
        }
    }
}

/// The snapshot list a stored value denotes, or nothing when corrupt.
pub open spec fn spec_decode_list(b: Seq<u8>) -> Option<Seq<SubscriberSnapshotNumeric>> {
    if b.len() < 8 {
        None
    } else {
        spec_decode_records(b.skip(8), le_value(b.take(8)))
    }
}

/// A record encodes to 37 or 45 bytes.
pub proof fn lemma_le_bytes_len(v: nat, n: nat)
    ensures
        le_bytes(v, n).len() == n,
    decreases n,
{
    if n > 0 {
        lemma_le_bytes_len(v / 256, (n - 1) as nat);
    }
}

/// The length of one encoded record.
pub proof fn lemma_snap_bytes_len(s: SubscriberSnapshotNumeric)
    ensures
        snap_bytes(s).len() == (if s.valid_to is Some { 45int } else { 37int }),
        snap_bytes(s).len() >= 37,
{
    lemma_le_bytes_len(s.imsi as nat, 8);
    lemma_le_bytes_len(s.msisdn as nat, 8);
    lemma_le_bytes_len(s.imei as nat, 8);
    lemma_le_bytes_len(s.mccmnc as nat, 4);
    lemma_le_bytes_len(i64_repr(s.valid_from as int), 8);
    match s.valid_to {
        None => {},
        Some(t) => {
            lemma_le_bytes_len(i64_repr(t as int), 8);
        },
    }
}

/// Decoding the front of an encoded record, whatever follows, gives the
/// record back and uses exactly its bytes.
pub proof fn lemma_decode_one_of_encoding(s: SubscriberSnapshotNumeric, tail: Seq<u8>)
    ensures
        spec_decode_one(snap_bytes(s) + tail) == Some((s, snap_bytes(s).len() as int)),
{
    lemma_pow256_values();
    lemma_snap_bytes_len(s);
    let b = snap_bytes(s) + tail;
    lemma_le_round_trip(s.imsi as nat, 8);
    lemma_le_round_trip(s.msisdn as nat, 8);
    lemma_le_round_trip(s.imei as nat, 8);
    lemma_le_round_trip(s.mccmnc as nat, 4);
    lemma_le_round_trip(i64_repr(s.valid_from as int), 8);
    assert(b.subrange(0, 8) =~= le_bytes(s.imsi as nat, 8));
    assert(b.subrange(8, 16) =~= le_bytes(s.msisdn as nat, 8));
    assert(b.subrange(16, 24) =~= le_bytes(s.imei as nat, 8));
    assert(b.subrange(24, 28) =~= le_bytes(s.mccmnc as nat, 4));
    assert(b.subrange(28, 36) =~= le_bytes(i64_repr(s.valid_from as int), 8));
    match s.valid_to {
        None => {
            assert(b[36] == 0u8);
        },
        Some(t) => {
            lemma_le_round_trip(i64_repr(t as int), 8);
            assert(b[36] == 1u8);
            assert(b.subrange(37, 45) =~= le_bytes(i64_repr(t as int), 8));
        },
    }
}

/// Decoding the concatenated records of a list gives the list back.
pub proof fn lemma_records_round_trip(l: Seq<SubscriberSnapshotNumeric>)
    ensures
        spec_decode_records(snaps_concat(l), l.len()) == Some(l),
    decreases l.len(),
{
    if l.len() > 0 {
        lemma_decode_one_of_encoding(l[0], snaps_concat(l.drop_first()));
        lemma_records_round_trip(l.drop_first());
        lemma_snap_bytes_len(l[0]);
        assert((snap_bytes(l[0]) + snaps_concat(l.drop_first())).skip(
            snap_bytes(l[0]).len() as int,
        ) =~= snaps_concat(l.drop_first()));
        assert(seq![l[0]] + l.drop_first() =~= l);
    }
}

/// Round-trip: decoding an encoded snapshot list gives the list back,
/// exactly.
pub proof fn lemma_codec_round_trip(l: Seq<SubscriberSnapshotNumeric>)
    requires
        l.len() < pow256(8),
    ensures
        spec_decode_list(snap_list_bytes(l)) == Some(l),
{
    lemma_le_bytes_len(l.len(), 8);
    lemma_le_round_trip(l.len(), 8);
    let b = snap_list_bytes(l);
    assert(b.take(8) =~= le_bytes(l.len(), 8));
    assert(b.skip(8) =~= snaps_concat(l));
    lemma_records_round_trip(l);
}

/// Appending one record to a list appends its bytes to the concatenation.
pub proof fn lemma_snaps_concat_snoc(l: Seq<SubscriberSnapshotNumeric>, s: SubscriberSnapshotNumeric)
    ensures
        snaps_concat(l.push(s)) == snaps_concat(l) + snap_bytes(s),
    decreases l.len(),
{
    if l.len() == 0 {
        assert(l.push(s)[0] == s);
        assert(l.push(s).drop_first() =~= Seq::<SubscriberSnapshotNumeric>::empty());
        assert(snaps_concat(Seq::<SubscriberSnapshotNumeric>::empty())
            =~= Seq::<u8>::empty());
        assert(snaps_concat(l.push(s)) =~= snap_bytes(l.push(s)[0]) + snaps_concat(
            l.push(s).drop_first()));
        assert(snaps_concat(l.push(s)) =~= snap_bytes(s));
        assert(snaps_concat(l) + snap_bytes(s) =~= snap_bytes(s));
    } else {
        assert(l.push(s).drop_first() =~= l.drop_first().push(s));
        assert(l.push(s)[0] == l[0]);
        lemma_snaps_concat_snoc(l.drop_first(), s);
        assert(snaps_concat(l.push(s)) =~= snaps_concat(l) + snap_bytes(s));
    }
}

/// Encodes a snapshot list as a stored value.
pub fn encode_snapshots(l: &Vec<SubscriberSnapshotNumeric>) -> (r: Vec<u8>)
    ensures
        r@ == snap_list_bytes(l@),
{
    proof {
        lemma_pow256_values();
    }
    let mut out: Vec<u8> = Vec::new();
    push_u64_le(&mut out, l.len() as u64);
    proof {
        assert(Seq::<u8>::empty() + le_bytes(l@.len(), 8) =~= le_bytes(l@.len(), 8));
        assert(snaps_concat(l@.take(0)) =~= Seq::<u8>::empty());
        assert(out@ + snaps_concat(l@.take(0)) =~= le_bytes(l@.len(), 8));
    }
    let n = l.len();
    let mut i: usize = 0;
    while i < n
        invariant
            0 <= i <= n,
            n == l@.len(),
            out@ == le_bytes(l@.len(), 8) + snaps_concat(l@.take(i as int)),
        decreases n - i,
    {
        let s = &l[i];
        let ghost pre = out@;
        push_u64_le(&mut out, s.imsi);
        push_u64_le(&mut out, s.msisdn);
        push_u64_le(&mut out, s.imei);
        push_u32_le(&mut out, s.mccmnc);
        push_i64_le(&mut out, s.valid_from);
        match s.valid_to {
            None => {
                out.push(0u8);
                proof {
                    assert(out@ =~= pre + snap_bytes(l@[i as int]));
                }
            },
            Some(t) => {
                out.push(1u8);
                push_i64_le(&mut out, t);
                proof {
                    assert(out@ =~= pre + snap_bytes(l@[i as int]));
                }
            },
        }
        proof {
            assert(l@.take(i + 1).drop_last() =~= l@.take(i as int));
            assert(l@.take(i + 1).last() == l@[i as int]);
            assert(l@.take(i + 1) =~= l@.take(i as int).push(l@[i as int]));
            lemma_snaps_concat_snoc(l@.take(i as int), l@[i as int]);
            assert(out@ =~= le_bytes(l@.len(), 8) + snaps_concat(l@.take(i + 1)));
        }
        i = i + 1;
    }
    proof {
        assert(l@.take(n as int) =~= l@);
    }
    out
}

/// A decodable byte string holds at least 37 bytes per record.
proof fn lemma_records_min_len(b: Seq<u8>, cnt: nat)
    requires
        spec_decode_records(b, cnt) is Some,
    ensures
        b.len() >= 37 * cnt,
    decreases cnt,
{
    if cnt > 0 {
        let (s, used) = spec_decode_one(b)->Some_0;
        lemma_records_min_len(b.skip(used), (cnt - 1) as nat);
        assert(37 * cnt == 37 * (cnt - 1) + 37) by (nonlinear_arith);
    }
}

/// Converts an unsigned 64-bit representation back to its signed value.
fn repr_to_i64(u: u64) -> (r: i64)
    ensures
        r as int == i64_of_repr(u as nat),
{
    if u < 0x8000_0000_0000_0000u64 {
        u as i64
    } else {
        let m = (0xFFFF_FFFF_FFFF_FFFFu64 - u) + 1;
        if m == 0x8000_0000_0000_0000u64 {
            i64::MIN
        } else {
            -(m as i64)
        }
    }
}

/// Decodes a stored value as a snapshot list.
///
/// Returns the list exactly when the bytes are a well-formed encoding;
/// anything else is corrupt and yields nothing.
pub fn decode_snapshots(b: &Vec<u8>) -> (r: Option<Vec<SubscriberSnapshotNumeric>>)
    ensures
        match r {
            Some(l) => spec_decode_list(b@) == Some(l@),
            None => spec_decode_list(b@) is None,
        },
{
    proof {
        lemma_pow256_values();
    }
    let blen = b.len();
    if blen < 8 {
        return None;
    }
    let cnt64 = read_le(b, 0, 8);
    proof {
        assert(b@.subrange(0, 8) =~= b@.take(8));
    }
    let rem = blen - 8;
    if cnt64 > (rem / 37) as u64 {
        proof {
            if spec_decode_list(b@) is Some {
                lemma_records_min_len(b@.skip(8), cnt64 as nat);
                assert(37 * (cnt64 as nat) > 37 * ((rem / 37) as nat)) by (nonlinear_arith)
                    requires
                        cnt64 as nat > (rem / 37) as nat,
                ;
                assert(37 * ((rem / 37) as int) + 37 > rem);
            }
        }
        return None;
    }
    let cnt = cnt64 as usize;
    let mut out: Vec<SubscriberSnapshotNumeric> = Vec::new();
    let mut off: usize = 8;
    let mut k: usize = 0;
    while k < cnt
        invariant
            0 <= k <= cnt,
            8 <= off <= blen,
            blen == b@.len(),
            cnt == cnt64 as nat,
            le_value(b@.take(8)) == cnt64 as nat,
            spec_decode_records(b@.skip(8), cnt as nat) == (match spec_decode_records(
                b@.skip(off as int),
                (cnt - k) as nat,
            ) {
                None => None::<Seq<SubscriberSnapshotNumeric>>,
                Some(rest) => Some(out@ + rest),
            }),
        decreases cnt - k,
    {
        let ghost cur = b@.skip(off as int);
        if blen - off < 37 {
            proof {
                assert(spec_decode_one(cur) is None);
            }
            return None;
        }
        let imsi = read_le(b, off, 8);
        let msisdn = read_le(b, off + 8, 8);
        let imei = read_le(b, off + 16, 8);
        let mccmnc32 = read_le(b, off + 24, 4);
        let vf_repr = read_le(b, off + 28, 8);
        let tag = b[off + 36];
        proof {
            assert(cur.subrange(0, 8) =~= b@.subrange(off as int, off + 8));
            assert(cur.subrange(8, 16) =~= b@.subrange(off + 8, off + 16));
            assert(cur.subrange(16, 24) =~= b@.subrange(off + 16, off + 24));
            assert(cur.subrange(24, 28) =~= b@.subrange(off + 24, off + 28));
            assert(cur.subrange(28, 36) =~= b@.subrange(off + 28, off + 36));
            assert(cur[36] == b@[off + 36]);
            lemma_le_value_bound(b@.subrange(off + 24, off + 28));
        }
        let valid_from = repr_to_i64(vf_repr);
        let (rec, used): (SubscriberSnapshotNumeric, usize) = if tag == 0 {
            (
                SubscriberSnapshotNumeric {
                    imsi,
                    msisdn,
                    imei,
                    mccmnc: mccmnc32 as u32,
                    valid_from,
                    valid_to: None,
                },
                37,
            )
        } else if tag == 1 && blen - off >= 45 {
            let vt_repr = read_le(b, off + 37, 8);
            proof {
                assert(cur.subrange(37, 45) =~= b@.subrange(off + 37, off + 45));
            }
            let valid_to = repr_to_i64(vt_repr);
            (
                SubscriberSnapshotNumeric {
                    imsi,
                    msisdn,
                    imei,
                    mccmnc: mccmnc32 as u32,
                    valid_from,
                    valid_to: Some(valid_to),
                },
                45,
            )
        } else {
            proof {
                assert(spec_decode_one(cur) is None);
            }
            return None;
        };
        proof {
            assert(spec_decode_one(cur) == Some((rec, used as int)));
            assert(cur.skip(used as int) =~= b@.skip(off + used));
        }
        let ghost old_out = out@;
        out.push(rec);
        proof {
            assert(old_out + (seq![rec] + spec_decode_records(
                b@.skip(off + used),
                (cnt - k - 1) as nat,
            )->Some_0) =~= out@ + spec_decode_records(
                b@.skip(off + used),
                (cnt - k - 1) as nat,
            )->Some_0);
        }
        off = off + used;
        k = k + 1;
    }
    if off != blen {
        proof {
            assert(b@.skip(off as int).len() != 0);
            assert(spec_decode_records(b@.skip(off as int), 0) is None);
        }
        return None;
    }
    proof {
        assert(b@.skip(off as int).len() == 0);
        assert(spec_decode_records(b@.skip(off as int), 0) == Some(
            Seq::<SubscriberSnapshotNumeric>::empty()));
        assert(out@ + Seq::<SubscriberSnapshotNumeric>::empty() =~= out@);
    }
    Some(out)
}

/// `t` lies inside the stored snapshot's validity interval.
pub open spec fn ssn_contains(s: SubscriberSnapshotNumeric, t: int) -> bool {
    s.valid_from <= t && match s.valid_to {
        Some(end) => t < end,
        None => true,
    }
}

/// The first snapshot index whose interval contains `t`, or `-1`.
pub open spec fn ssn_index(l: Seq<SubscriberSnapshotNumeric>, t: int) -> int
    decreases l.len(),
{
    if l.len() == 0 {
        -1
    } else if ssn_contains(l[0], t) {
        0
    } else {
        let r = ssn_index(l.drop_first(), t);
        if r == -1 {
            -1
        } else {
            r + 1
        }
    }
}

/// `ssn_index` returns the first containing index, or `-1` when none does.
pub proof fn lemma_ssn_index(l: Seq<SubscriberSnapshotNumeric>, t: int)
    ensures
        -1 <= ssn_index(l, t) < l.len(),
        ssn_index(l, t) >= 0 ==> ssn_contains(l[ssn_index(l, t)], t),
        forall|j: int|
            0 <= j < l.len() && (ssn_index(l, t) == -1 || j < ssn_index(l, t)) ==> !ssn_contains(
                #[trigger] l[j],
                t,
            ),
    decreases l.len(),
{
    if l.len() > 0 && !ssn_contains(l[0], t) {
        lemma_ssn_index(l.drop_first(), t);
        assert forall|j: int|
            0 <= j < l.len() && (ssn_index(l, t) == -1 || j < ssn_index(l, t))
            implies !ssn_contains(#[trigger] l[j], t) by {
            if j > 0 {
                assert(l[j] == l.drop_first()[j - 1]);
            }
        }
    }
}

/// What searching a snapshot list for an instant returns: the first snapshot
/// whose interval contains it.
pub open spec fn spec_find_snapshot(l: Seq<SubscriberSnapshotNumeric>, t: int) -> Option<
    SubscriberSnapshotNumeric,
> {
    let k = ssn_index(l, t);
    if k >= 0 {
        Some(l[k])
    } else {
        None
    }
}

/// `v` enumerates a stored map: strictly ascending keys, each present with
/// its stored bytes, and every present key listed.
pub open spec fn ascending_enumeration(v: Seq<(u64, Seq<u8>)>, m: Map<u64, Seq<u8>>) -> bool {
    &&& forall|i: int, j: int| 0 <= i < j < v.len() ==> (#[trigger] v[i]).0 < (#[trigger] v[j]).0
    &&& forall|i: int| 0 <= i < v.len() ==> m.contains_key((#[trigger] v[i]).0) && v[i].1
        == m[v[i].0]
    &&& forall|k: u64| m.contains_key(k) ==> exists|i: int|
        0 <= i < v.len() && (#[trigger] v[i]).0 == k
}

/// The snapshot total of an enumeration: the decoded list lengths summed (an
/// undecodable value counts nothing).
pub open spec fn sum_decoded(v: Seq<(u64, Seq<u8>)>) -> int
    decreases v.len(),
{
    if v.len() == 0 {
        0
    } else {
        sum_decoded(v.drop_last()) + (match spec_decode_list(v.last().1) {
            Some(l) => l.len() as int,
            None => 0,
        })
    }
}

/// Any two ascending enumerations of one stored map are the same sequence:
/// the snapshot total over "an" enumeration is therefore the total over
/// "the" enumeration.
pub proof fn lemma_ascending_enumeration_unique(
    v1: Seq<(u64, Seq<u8>)>,
    v2: Seq<(u64, Seq<u8>)>,
    m: Map<u64, Seq<u8>>,
)
    requires
        ascending_enumeration(v1, m),
        ascending_enumeration(v2, m),
    ensures
        v1 == v2,
    decreases v1.len(),
{
    if v1.len() == 0 {
        if v2.len() > 0 {
            assert(m.contains_key(v2[0].0));
            assert(false);
        }
        assert(v1 =~= v2);
    } else {
        assert(v2.len() > 0) by {
            assert(m.contains_key(v1[0].0));
        }
        let k0 = v1[0].0;
        assert(v1[0].0 == v2[0].0) by {
            assert(m.contains_key(v1[0].0));
            let j = choose|j: int| 0 <= j < v2.len() && (#[trigger] v2[j]).0 == v1[0].0;
            if j > 0 {
                assert(v2[0].0 < v2[j].0);
            }
            assert(m.contains_key(v2[0].0));
            let i = choose|i: int| 0 <= i < v1.len() && (#[trigger] v1[i]).0 == v2[0].0;
            if i > 0 {
                assert(v1[0].0 < v1[i].0);
            }
        }
        assert(v1[0] == v2[0]) by {
            assert(v1[0].1 == m[k0] && v2[0].1 == m[k0]);
        }
        let m2 = m.remove(k0);
        assert(ascending_enumeration(v1.drop_first(), m2)) by {
            lemma_tail_enumeration(v1, m);
        }
        assert(ascending_enumeration(v2.drop_first(), m2)) by {
            lemma_tail_enumeration(v2, m);
        }
        lemma_ascending_enumeration_unique(v1.drop_first(), v2.drop_first(), m2);
        assert forall|idx: int| 0 <= idx < v1.len() implies v1[idx] == v2[idx] by {
            if idx > 0 {
                assert(v1[idx] == v1.drop_first()[idx - 1]);
                assert(v2[idx] == v2.drop_first()[idx - 1]);
            }
        }
        assert(v1 =~= v2);
    }
}

/// Dropping an enumeration's first entry enumerates the map without its key.
proof fn lemma_tail_enumeration(v: Seq<(u64, Seq<u8>)>, m: Map<u64, Seq<u8>>)
    requires
        ascending_enumeration(v, m),
        v.len() > 0,
    ensures
        ascending_enumeration(v.drop_first(), m.remove(v[0].0)),
{
    let k0 = v[0].0;
    let t = v.drop_first();
    let m2 = m.remove(k0);
    assert forall|i: int, j: int| 0 <= i < j < t.len() implies (#[trigger] t[i]).0 < (
    #[trigger] t[j]).0 by {
        assert(t[i] == v[i + 1] && t[j] == v[j + 1]);
    }
    assert forall|i: int| 0 <= i < t.len() implies m2.contains_key((#[trigger] t[i]).0)
        && t[i].1 == m2[t[i].0] by {
        assert(t[i] == v[i + 1]);
        assert(v[0].0 < v[i + 1].0);
    }
    assert forall|k: u64| m2.contains_key(k) implies exists|i: int|
        0 <= i < t.len() && (#[trigger] t[i]).0 == k by {
        assert(m.contains_key(k));
        let i = choose|i: int| 0 <= i < v.len() && (#[trigger] v[i]).0 == k;
        assert(i != 0);
        assert(t[i - 1].0 == k);
    }
}

/// Counts of a store's keys and stored snapshots.
#[derive(Debug, Clone, Copy, PartialEq, Eq, Structural)]
pub struct DbStats {
    pub total_msisdns: u64,
    pub total_snapshots: u64,
}

/// The stored lists a batch writes: each key mapped to the encoding of its
/// list.
pub open spec fn batch_encoded(
    m: Map<u64, Seq<u8>>,
    batch: Seq<(u64, Vec<SubscriberSnapshotNumeric>)>,
) -> Map<u64, Seq<u8>>
    decreases batch.len(),
{
    if batch.len() == 0 {
        m
    } else {
        batch_encoded(m, batch.drop_last()).insert(
            batch.last().0,
            snap_list_bytes(batch.last().1@),
        )
    }
}

/// The embedded snapshot store: phone number to its encoded snapshot list.
pub struct SubscriberDbRedb {
    db: redb::Database,
}

impl SubscriberDbRedb {
    /// The bytes the store holds per phone number.
    pub closed spec fn spec_store(&self) -> Map<u64, Seq<u8>> {
        crate::kv::kv_contents(self.db)
    }

    /// Creates (or reopens) a store file at the path.
    pub fn new(path: &str) -> (r: Result<Self, crate::kv::StoreError>) {
        match crate::kv::kv_create(path) {
            Ok(db) => Ok(SubscriberDbRedb { db }),
            Err(e) => Err(e),
        }
    }

    /// Opens an existing store file.
    pub fn open(path: &str) -> (r: Result<Self, crate::kv::StoreError>) {
        match crate::kv::kv_open(path) {
            Ok(db) => Ok(SubscriberDbRedb { db }),
            Err(e) => Err(e),
        }
    }

    /// Appends snapshots to a phone number's stored list (an absent key
    /// starts from the empty list), in one committed transaction.
    ///
    /// On success the key holds the encoding of its old decoded list with
    /// the new snapshots appended. A stored value that does not decode is
    /// corruption and is not overwritten.
    pub fn insert_snapshots(
        &mut self,
        msisdn: u64,
        snapshots: &Vec<SubscriberSnapshotNumeric>,
    ) -> (r: Result<(), crate::kv::StoreError>)
        ensures
            match r {
                Ok(()) => {
                    let old_bytes = old(self).spec_store();
                    let old_list: Seq<SubscriberSnapshotNumeric> = if old_bytes.contains_key(
                        msisdn,
                    ) {
                        spec_decode_list(old_bytes[msisdn])->Some_0
                    } else {
                        Seq::empty()
                    };
                    &&& (old_bytes.contains_key(msisdn) ==> spec_decode_list(
                        old_bytes[msisdn],
                    ) is Some)
                    &&& final(self).spec_store() == old_bytes.insert(
                        msisdn,
                        snap_list_bytes(old_list + snapshots@),
                    )
                },
                Err(crate::kv::StoreError::Corrupt) => final(self).spec_store() == old(
                    self,
                ).spec_store() && old(self).spec_store().contains_key(msisdn)
                    && spec_decode_list(old(self).spec_store()[msisdn]) is None,
                Err(crate::kv::StoreError::Backend(_)) => final(self).spec_store() == old(
                    self,
                ).spec_store(),
            },
    {
        let existing = match crate::kv::kv_get(&self.db, msisdn) {
            Ok(v) => v,
            Err(e) => {
                return Err(e);
            },
        };
        let mut all: Vec<SubscriberSnapshotNumeric> = match existing {
            Some(bytes) => match decode_snapshots(&bytes) {
                Some(l) => l,
                None => {
                    return Err(crate::kv::StoreError::Corrupt);
                },
            },
            None => Vec::new(),
        };
        let ghost old_list = all@;
        let n = snapshots.len();
        let mut i: usize = 0;
        while i < n
            invariant
                0 <= i <= n,
                n == snapshots@.len(),
                all@ =~= old_list + snapshots@.take(i as int),
            decreases n - i,
        {
            all.push(snapshots[i]);
            proof {
                assert(all@ =~= old_list + snapshots@.take(i + 1));
            }
            i = i + 1;
        }
        proof {
            assert(snapshots@.take(n as int) =~= snapshots@);
        }
        let encoded = encode_snapshots(&all);
        let mut entries: Vec<(u64, Vec<u8>)> = Vec::new();
        entries.push((msisdn, encoded));
        let ghost pre = crate::kv::kv_contents(self.db);
        match crate::kv::kv_insert_batch(&mut self.db, &entries) {
            Ok(()) => {
                proof {
                    assert(entries@.drop_last() =~= Seq::<(u64, Vec<u8>)>::empty());
                    assert(crate::kv::kv_insert_all(pre, Seq::<(u64, Vec<u8>)>::empty()) == pre);
                    assert(crate::kv::kv_insert_all(pre, entries@) =~= pre.insert(
                        msisdn,
                        snap_list_bytes(old_list + snapshots@),
                    ));
                }
                Ok(())
            },
            Err(e) => Err(e),
        }
    }

    /// Stores whole snapshot lists for many phone numbers in one committed
    /// transaction, replacing any previous value of those keys (bulk
    /// import).
    pub fn insert_snapshots_batch(&mut self, batch: &Vec<(u64, Vec<SubscriberSnapshotNumeric>)>)
        -> (r: Result<(), crate::kv::StoreError>)
        ensures
            match r {
                Ok(()) => final(self).spec_store() == batch_encoded(
                    old(self).spec_store(),
                    batch@,
                ),
                Err(e) => e is Backend && final(self).spec_store() == old(self).spec_store(),
            },
    {
        let n = batch.len();
        let mut entries: Vec<(u64, Vec<u8>)> = Vec::new();
        let mut i: usize = 0;
        while i < n
            invariant
                0 <= i <= n,
                n == batch@.len(),
                entries@.len() == i,
                forall|j: int| 0 <= j < i ==> (#[trigger] entries@[j]).0 == batch@[j].0
                    && entries@[j].1@ == snap_list_bytes(batch@[j].1@),
            decreases n - i,
        {
            let key = batch[i].0;
            let encoded = encode_snapshots(&batch[i].1);
            entries.push((key, encoded));
            i = i + 1;
        }
        let ghost pre = crate::kv::kv_contents(self.db);
        match crate::kv::kv_insert_batch(&mut self.db, &entries) {
            Ok(()) => {
                proof {
                    lemma_insert_all_encoded(pre, entries@, batch@);
                }
                Ok(())
            },
            Err(e) => Err(e),
        }
    }

    /// The stored snapshot of a phone number valid at an instant: the first
    /// snapshot of the key's decoded list whose interval contains it. An
    /// absent key has no snapshot; a stored value that does not decode is
    /// corruption.
    pub fn get_subscriber_at(&self, msisdn: u64, timestamp: i64) -> (r: Result<
        Option<SubscriberSnapshotNumeric>,
        crate::kv::StoreError,
    >)
        ensures
            match r {
                Ok(ro) => {
                    if self.spec_store().contains_key(msisdn) {
                        &&& spec_decode_list(self.spec_store()[msisdn]) is Some
                        &&& ro == spec_find_snapshot(
                            spec_decode_list(self.spec_store()[msisdn])->Some_0,
                            timestamp as int,
                        )
                    } else {
                        ro is None
                    }
                },
                Err(crate::kv::StoreError::Corrupt) => self.spec_store().contains_key(msisdn)
                    && spec_decode_list(self.spec_store()[msisdn]) is None,
                Err(crate::kv::StoreError::Backend(_)) => true,
            },
    {
        let existing = match crate::kv::kv_get(&self.db, msisdn) {
            Ok(v) => v,
            Err(e) => {
                return Err(e);
            },
        };
        match existing {
            None => Ok(None),
            Some(bytes) => match decode_snapshots(&bytes) {
                None => Err(crate::kv::StoreError::Corrupt),
                Some(list) => Ok(Self::find_snapshot_at(list.as_slice(), timestamp)),
            },
        }
    }

    /// The snapshots of every phone number in `[start_msisdn, end_msisdn)`,
    /// decoded, in ascending key order.
    pub fn load_chunk(&self, start_msisdn: u64, end_msisdn: u64) -> (r: Result<
        Vec<(u64, Vec<SubscriberSnapshotNumeric>)>,
        crate::kv::StoreError,
    >)
        ensures
            match r {
                Ok(v) => {
                    &&& forall|i: int, j: int| 0 <= i < j < v@.len()
                        ==> (#[trigger] v@[i]).0 < (#[trigger] v@[j]).0
                    &&& forall|i: int| 0 <= i < v@.len() ==> {
                        &&& start_msisdn <= (#[trigger] v@[i]).0 < end_msisdn
                        &&& self.spec_store().contains_key(v@[i].0)
                        &&& spec_decode_list(self.spec_store()[v@[i].0]) == Some(v@[i].1@)
                    }
                    &&& forall|k: u64| start_msisdn <= k < end_msisdn
                        && self.spec_store().contains_key(k) ==> exists|i: int|
                        0 <= i < v@.len() && (#[trigger] v@[i]).0 == k
                },
                Err(crate::kv::StoreError::Corrupt) => exists|k: u64|
                    start_msisdn <= k < end_msisdn && self.spec_store().contains_key(k)
                        && spec_decode_list(#[trigger] self.spec_store()[k]) is None,
                Err(crate::kv::StoreError::Backend(_)) => true,
            },
    {
        let raw = match crate::kv::kv_range(&self.db, start_msisdn, end_msisdn) {
            Ok(v) => v,
            Err(e) => {
                return Err(e);
            },
        };
        let n = raw.len();
        let mut out: Vec<(u64, Vec<SubscriberSnapshotNumeric>)> = Vec::new();
        let mut i: usize = 0;
        while i < n
            invariant
                0 <= i <= n,
                n == raw@.len(),
                out@.len() == i,
                forall|j: int| 0 <= j < i ==> (#[trigger] out@[j]).0 == raw@[j].0,
                forall|j: int| 0 <= j < i ==> spec_decode_list(raw@[j].1@) == Some(
                    (#[trigger] out@[j]).1@,
                ),
                forall|j: int, l: int| 0 <= j < l < raw@.len()
                    ==> (#[trigger] raw@[j]).0 < (#[trigger] raw@[l]).0,
                forall|j: int| 0 <= j < raw@.len() ==> start_msisdn <= (#[trigger] raw@[j]).0
                    < end_msisdn && self.spec_store().contains_key(raw@[j].0) && raw@[j].1@
                    == self.spec_store()[raw@[j].0],
            decreases n - i,
        {
            let key = raw[i].0;
            match decode_snapshots(&raw[i].1) {
                Some(list) => {
                    out.push((key, list));
                },
                None => {
                    proof {
                        assert(self.spec_store().contains_key(raw@[i as int].0)
                            && spec_decode_list(self.spec_store()[raw@[i as int].0]) is None);
                    }
                    return Err(crate::kv::StoreError::Corrupt);
                },
            }
            i = i + 1;
        }
        proof {
            assert forall|k: u64|
                start_msisdn <= k < end_msisdn && self.spec_store().contains_key(k)
                implies exists|j: int| 0 <= j < out@.len() && (#[trigger] out@[j]).0 == k by {
                let j = choose|j: int| 0 <= j < raw@.len() && (#[trigger] raw@[j]).0 == k;
                assert(out@[j].0 == k);
            }
        }
        Ok(out)
    }

    /// The number of phone numbers in the store.
    pub fn count_msisdns(&self) -> (r: Result<usize, crate::kv::StoreError>)
        ensures
            match r {
                Ok(n) => n as nat == self.spec_store().dom().len(),
                Err(e) => e is Backend,
            },
    {
        let n = match crate::kv::kv_len(&self.db) {
            Ok(n) => n,
            Err(e) => {
                return Err(e);
            },
        };
        if n > usize::MAX as u64 {
            return Err(crate::kv::StoreError::Backend("key count exceeds address space".to_owned()));
        }
        Ok(n as usize)
    }

    /// The first snapshot of a pre-loaded list whose interval contains the
    /// instant.
    pub fn find_snapshot_at(snapshots: &[SubscriberSnapshotNumeric], timestamp: i64) -> (r: Option<
        SubscriberSnapshotNumeric,
    >)
        ensures
            r == spec_find_snapshot(snapshots@, timestamp as int),
    {
        proof {
            lemma_ssn_index(snapshots@, timestamp as int);
        }
        let n = snapshots.len();
        let mut i: usize = 0;
        while i < n
            invariant
                0 <= i <= n,
                n == snapshots@.len(),
                forall|j: int| 0 <= j < i ==> !ssn_contains(#[trigger] snapshots@[j],
                    timestamp as int),
            decreases n - i,
        {
            let s = snapshots[i];
            let inside = s.valid_from <= timestamp && (match s.valid_to {
                Some(end) => timestamp < end,
                None => true,
            });
            if inside {
                proof {
                    lemma_ssn_index(snapshots@, timestamp as int);
                    assert(ssn_index(snapshots@, timestamp as int) == i as int);
                }
                return Some(s);
            }
            i = i + 1;
        }
        proof {
            lemma_ssn_index(snapshots@, timestamp as int);
            assert(ssn_index(snapshots@, timestamp as int) == -1);
        }
        None
    }

    /// Counts the store's keys and their decoded snapshots. A stored value
    /// that does not decode is corruption.
    pub fn stats(&self) -> (r: Result<DbStats, crate::kv::StoreError>)
        ensures
            match r {
                Ok(d) => {
                    &&& d.total_msisdns as nat == self.spec_store().dom().len()
                    &&& exists|enumr: Seq<(u64, Seq<u8>)>|
                        #[trigger] ascending_enumeration(enumr, self.spec_store()) && (
                        d.total_snapshots as int == if sum_decoded(enumr) <= u64::MAX as int {
                            sum_decoded(enumr)
                        } else {
                            u64::MAX as int
                        })
                },
                Err(crate::kv::StoreError::Corrupt) => exists|k: u64|
                    self.spec_store().contains_key(k) && spec_decode_list(
                        #[trigger] self.spec_store()[k],
                    ) is None,
                Err(crate::kv::StoreError::Backend(_)) => true,
            },
    {
        let raw = match crate::kv::kv_all(&self.db) {
            Ok(v) => v,
            Err(e) => {
                return Err(e);
            },
        };
        let total = match crate::kv::kv_len(&self.db) {
            Ok(n) => n,
            Err(e) => {
                return Err(e);
            },
        };
        let ghost enumr = raw@.map_values(|p: (u64, Vec<u8>)| (p.0, p.1@));
        proof {
            assert forall|i: int, j: int| 0 <= i < j < enumr.len() implies (
            #[trigger] enumr[i]).0 < (#[trigger] enumr[j]).0 by {
                assert(enumr[i].0 == raw@[i].0 && enumr[j].0 == raw@[j].0);
            }
            assert forall|i: int| 0 <= i < enumr.len() implies self.spec_store().contains_key(
                (#[trigger] enumr[i]).0,
            ) && enumr[i].1 == self.spec_store()[enumr[i].0] by {
                assert(enumr[i] == (raw@[i].0, raw@[i].1@));
            }
            assert forall|k: u64| self.spec_store().contains_key(k) implies exists|i: int|
                0 <= i < enumr.len() && (#[trigger] enumr[i]).0 == k by {
                let i = choose|i: int| 0 <= i < raw@.len() && (#[trigger] raw@[i]).0 == k;
                assert(enumr[i].0 == k);
            }
            assert(ascending_enumeration(enumr, self.spec_store()));
        }
        let n = raw.len();
        let mut snaps: u64 = 0;
        let mut i: usize = 0;
        while i < n
            invariant
                0 <= i <= n,
                n == raw@.len(),
                enumr == raw@.map_values(|p: (u64, Vec<u8>)| (p.0, p.1@)),
                forall|j: int| 0 <= j < raw@.len() ==> self.spec_store().contains_key(
                    (#[trigger] raw@[j]).0,
                ) && raw@[j].1@ == self.spec_store()[raw@[j].0],
                snaps as int == (if sum_decoded(enumr.take(i as int)) <= u64::MAX as int {
                    sum_decoded(enumr.take(i as int))
                } else {
                    u64::MAX as int
                }),
            decreases n - i,
        {
            proof {
                assert(enumr.take(i + 1).drop_last() =~= enumr.take(i as int));
                assert(enumr.take(i + 1).last() == enumr[i as int]);
                assert(enumr[i as int] == (raw@[i as int].0, raw@[i as int].1@));
            }
            match decode_snapshots(&raw[i].1) {
                Some(list) => {
                    let add = list.len() as u64;
                    snaps = if snaps <= u64::MAX - add {
                        snaps + add
                    } else {
                        u64::MAX
                    };
                },
                None => {
                    proof {
                        assert(self.spec_store().contains_key(raw@[i as int].0)
                            && spec_decode_list(self.spec_store()[raw@[i as int].0]) is None);
                    }
                    return Err(crate::kv::StoreError::Corrupt);
                },
            }
            i = i + 1;
        }
        proof {
            assert(enumr.take(n as int) =~= enumr);
        }
        Ok(DbStats { total_msisdns: total, total_snapshots: snaps })
    }
}

/// The snapshots carrying the number, in order, in numeric form.
pub open spec fn group_of(
    svs: Seq<crate::subscriber_db::SnapshotView>,
    key: u64,
) -> Seq<SubscriberSnapshotNumeric>
    decreases svs.len(),
{
    if svs.len() == 0 {
        Seq::empty()
    } else {
        let p = group_of(svs.drop_last(), key);
        if num_or_zero_u64(svs.last().msisdn) == key as nat {
            p.push(numeric_of(svs.last()))
        } else {
            p
        }
    }
}

/// Whether a group for the key exists already.
fn group_key_present(r: &Vec<(u64, Vec<SubscriberSnapshotNumeric>)>, key: u64) -> (found: bool)
    ensures
        found == exists|k: int| 0 <= k < r@.len() && (#[trigger] r@[k]).0 == key,
{
    let n = r.len();
    let mut k: usize = 0;
    while k < n
        invariant
            0 <= k <= n,
            n == r@.len(),
            forall|l: int| 0 <= l < k ==> (#[trigger] r@[l]).0 != key,
        decreases n - k,
    {
        if r[k].0 == key {
            return true;
        }
        k = k + 1;
    }
    false
}

/// Groups compacted snapshots by phone number for bulk import: one entry per
/// distinct nonzero number, in order of first appearance, holding that
/// number's snapshots in order. A snapshot whose number is not a nonzero
/// decimal is left out.
#[verifier::rlimit(50)]
pub fn group_snapshots_by_msisdn(
    snapshots: &[crate::subscriber_db::SubscriberSnapshot],
) -> (r: Vec<(u64, Vec<SubscriberSnapshotNumeric>)>)
    ensures
        forall|a: int, b: int| 0 <= a < b < r@.len() ==> (#[trigger] r@[a]).0 != (
        #[trigger] r@[b]).0,
        forall|k: int| 0 <= k < r@.len() ==> (#[trigger] r@[k]).0 != 0 && r@[k].1@ == group_of(
            snapshots@.map_values(|s: crate::subscriber_db::SubscriberSnapshot| s@),
            r@[k].0,
        ),
        forall|i: int|
            0 <= i < snapshots@.len() && num_or_zero_u64(
                (#[trigger] snapshots@[i])@.msisdn,
            ) != 0 ==> exists|k: int|
                0 <= k < r@.len() && (#[trigger] r@[k]).0 as nat == num_or_zero_u64(
                    snapshots@[i]@.msisdn,
                ),
{
    let ghost svs = snapshots@.map_values(|s: crate::subscriber_db::SubscriberSnapshot| s@);
    let n = snapshots.len();
    let mut r: Vec<(u64, Vec<SubscriberSnapshotNumeric>)> = Vec::new();
    let mut i: usize = 0;
    while i < n
        invariant
            0 <= i <= n,
            n == snapshots@.len(),
            svs == snapshots@.map_values(|s: crate::subscriber_db::SubscriberSnapshot| s@),
            forall|a: int, b: int| 0 <= a < b < r@.len() ==> (#[trigger] r@[a]).0 != (
            #[trigger] r@[b]).0,
            forall|k: int| 0 <= k < r@.len() ==> (#[trigger] r@[k]).0 != 0 && r@[k].1@
                == group_of(svs, r@[k].0),
            forall|i2: int|
                0 <= i2 < i && num_or_zero_u64((#[trigger] svs[i2]).msisdn) != 0 ==> exists|
                    k: int,
                |
                    0 <= k < r@.len() && (#[trigger] r@[k]).0 as nat == num_or_zero_u64(
                        svs[i2].msisdn,
                    ),
        decreases n - i,
    {
        proof {
            assert(svs[i as int] == snapshots@[i as int]@);
        }
        let numeric = SubscriberSnapshotNumeric::from_snapshot(&snapshots[i]);
        if numeric.msisdn != 0 && !group_key_present(&r, numeric.msisdn) {
            let key = numeric.msisdn;
            let mut g: Vec<SubscriberSnapshotNumeric> = Vec::new();
            let mut j: usize = 0;
            while j < n
                invariant
                    0 <= j <= n,
                    n == snapshots@.len(),
                    svs == snapshots@.map_values(
                        |s: crate::subscriber_db::SubscriberSnapshot| s@,
                    ),
                    g@ == group_of(svs.take(j as int), key),
                decreases n - j,
            {
                proof {
                    assert(svs.take(j + 1).drop_last() =~= svs.take(j as int));
                    assert(svs.take(j + 1).last() == svs[j as int]);
                    assert(svs[j as int] == snapshots@[j as int]@);
                }
                let nj = SubscriberSnapshotNumeric::from_snapshot(&snapshots[j]);
                if nj.msisdn == key {
                    g.push(nj);
                }
                j = j + 1;
            }
            proof {
                assert(svs.take(n as int) =~= svs);
            }
            let ghost pre = r@;
            r.push((key, g));
            proof {
                assert(r@[pre.len() as int].0 == key);
                assert forall|i2: int|
                    0 <= i2 <= i && num_or_zero_u64((#[trigger] svs[i2]).msisdn) != 0
                    implies exists|k: int|
                        0 <= k < r@.len() && (#[trigger] r@[k]).0 as nat == num_or_zero_u64(
                            svs[i2].msisdn,
                        ) by {
                    if i2 < i {
                        let k = choose|k: int|
                            0 <= k < pre.len() && (#[trigger] pre[k]).0 as nat
                                == num_or_zero_u64(svs[i2].msisdn);
                        assert(r@[k].0 as nat == num_or_zero_u64(svs[i2].msisdn));
                    } else {
                        assert(r@[pre.len() as int].0 as nat == num_or_zero_u64(
                            svs[i2].msisdn));
                    }
                }
            }
        } else {
            proof {
                if num_or_zero_u64(svs[i as int].msisdn) != 0 {
                    assert(exists|k: int|
                        0 <= k < r@.len() && (#[trigger] r@[k]).0 == numeric.msisdn);
                    let k = choose|k: int|
                        0 <= k < r@.len() && (#[trigger] r@[k]).0 == numeric.msisdn;
                    assert(r@[k].0 as nat == num_or_zero_u64(svs[i as int].msisdn));
                }
            }
        }
        i = i + 1;
    }
    proof {
        assert forall|i2: int|
            0 <= i2 < snapshots@.len() && num_or_zero_u64(
                (#[trigger] snapshots@[i2])@.msisdn,
            ) != 0 implies exists|k: int|
                0 <= k < r@.len() && (#[trigger] r@[k]).0 as nat == num_or_zero_u64(
                    snapshots@[i2]@.msisdn,
                ) by {
            assert(svs[i2] == snapshots@[i2]@);
            let k = choose|k: int|
                0 <= k < r@.len() && (#[trigger] r@[k]).0 as nat == num_or_zero_u64(
                    svs[i2].msisdn,
                );
            assert(r@[k].0 as nat == num_or_zero_u64(snapshots@[i2]@.msisdn));
        }
    }
    r
}

/// Storing encoded lists is encoding the batch.
proof fn lemma_insert_all_encoded(
    m: Map<u64, Seq<u8>>,
    entries: Seq<(u64, Vec<u8>)>,
    batch: Seq<(u64, Vec<SubscriberSnapshotNumeric>)>,
)
    requires
        entries.len() == batch.len(),
        forall|j: int| 0 <= j < entries.len() ==> (#[trigger] entries[j]).0 == batch[j].0
            && entries[j].1@ == snap_list_bytes(batch[j].1@),
    ensures
        crate::kv::kv_insert_all(m, entries) == batch_encoded(m, batch),
    decreases entries.len(),
{
    if entries.len() > 0 {
        assert(forall|j: int| 0 <= j < entries.drop_last().len()
            ==> (#[trigger] entries.drop_last()[j]).0 == batch.drop_last()[j].0
                && entries.drop_last()[j].1@ == snap_list_bytes(batch.drop_last()[j].1@));
        lemma_insert_all_encoded(m, entries.drop_last(), batch.drop_last());
        assert(entries.last().0 == batch.last().0);
        assert(entries.last().1@ == snap_list_bytes(batch.last().1@));
    }
}

/// The store's value round-trip: a snapshot list written under a key and
/// read back decodes to the original list, and looking it up at an instant
/// inside a snapshot's interval, with no earlier snapshot containing the
/// instant, returns that snapshot exactly.
pub proof fn lemma_store_round_trip(l: Seq<SubscriberSnapshotNumeric>, i: int, t: int)
    requires
        l.len() < pow256(8),
        0 <= i < l.len(),
        ssn_contains(l[i], t),
        forall|j: int| 0 <= j < i ==> !ssn_contains(#[trigger] l[j], t),
    ensures
        spec_decode_list(snap_list_bytes(l)) == Some(l),
        spec_find_snapshot(spec_decode_list(snap_list_bytes(l))->Some_0, t) == Some(l[i]),
{
    lemma_codec_round_trip(l);
    lemma_ssn_index(l, t);
    let k = ssn_index(l, t);
    if k == -1 || k > i {
        assert(!ssn_contains(l[i], t));
    }
    if k < i {
        assert(!ssn_contains(l[k], t));
    }
}

} // verus!

//! Subscriber identity generation: a checksum-valid device identifier and
//! stable numeric identities for an initial population.

use vstd::prelude::*;
use crate::rng::rng_below;

verus! {

/// A stable subscriber identity, in numeric form.
#[derive(Debug, Clone, Copy, PartialEq, Eq, Structural)]
pub struct Subscriber {
    pub msisdn: u64,
    pub imsi: u64,
    pub mccmnc: u32,
    pub imei: u64,
}

/// The Luhn contribution of one digit: doubled on alternate positions, with
/// nine subtracted when doubling carries.
pub open spec fn luhn_digit(d: nat, doubled: bool) -> nat {
    if doubled {
        if 2 * d > 9 {
            (2 * d - 9) as nat
        } else {
            2 * d
        }
    } else {
        d
    }
}

/// The Luhn sum of the low `k` decimal digits of `v`, the least significant
/// digit contributing with `dbl`.
pub open spec fn luhn_total(v: nat, k: nat, dbl: bool) -> nat
    decreases k,
{
    if k == 0 {
        0
    } else {
        luhn_digit(v % 10, dbl) + luhn_total(v / 10, (k - 1) as nat, !dbl)
    }
}

/// A fifteen-digit device identifier whose last digit is the Luhn check
/// digit of its first fourteen.
pub open spec fn luhn_valid_imei(imei: nat) -> bool {
    (luhn_total(imei / 10, 14, false) + imei % 10) % 10 == 0
}

/// The device identifier built from an eight-digit type code and a
/// six-digit serial: the fourteen digits, then their Luhn check digit.
pub open spec fn imei_for(tac: nat, snr: nat) -> nat {
    let base = tac * 1_000_000 + snr;
    (base * 10 + (10 - luhn_total(base, 14, false) % 10) % 10) as nat
}

/// Builds the device identifier of a type code and serial and proves its
/// checksum.
pub fn imei_from_parts(tac: u64, snr: u64) -> (r: u64)
    requires
        10_000_000 <= tac < 100_000_000,
        100_000 <= snr < 1_000_000,
    ensures
        r as nat == imei_for(tac as nat, snr as nat),
        100_000_000_000_000 <= r < 1_000_000_000_000_000,
        luhn_valid_imei(r as nat),
{
    let base: u64 = tac * 1_000_000 + snr;
    proof {
        assert(10_000_000_000_000 <= base < 100_000_000_000_000) by (nonlinear_arith)
            requires
                base == tac * 1_000_000 + snr,
                10_000_000 <= tac < 100_000_000,
                100_000 <= snr < 1_000_000,
        ;
    }
    let mut total: u64 = 0;
    let mut temp: u64 = base;
    let mut i: u64 = 0;
    while i < 14
        invariant
            0 <= i <= 14,
            total <= 18 * i,
            total + luhn_total(temp as nat, (14 - i) as nat, i % 2 == 1) == luhn_total(
                base as nat,
                14,
                false,
            ),
        decreases 14 - i,
    {
        let mut d: u64 = temp % 10;
        proof {
            assert(luhn_total(temp as nat, (14 - i) as nat, i % 2 == 1) == luhn_digit(
                (temp as nat) % 10,
                i % 2 == 1,
            ) + luhn_total((temp as nat) / 10, (14 - i - 1) as nat, !(i % 2 == 1)));
            assert((i % 2 == 1) == !((i + 1) % 2 == 1));
        }
        if i % 2 == 1 {
            d = 2 * d;
            if d > 9 {
                d = d - 9;
            }
        }
        total = total + d;
        temp = temp / 10;
        i = i + 1;
    }
    proof {
        assert(luhn_total(temp as nat, 0, i % 2 == 1) == 0);
    }
    let check = (10 - total % 10) % 10;
    let r = base * 10 + check;
    proof {
        assert(r as nat == imei_for(tac as nat, snr as nat));
        assert(100_000_000_000_000 <= r < 1_000_000_000_000_000) by (nonlinear_arith)
            requires
                r == base * 10 + check,
                10_000_000_000_000 <= base < 100_000_000_000_000,
                check < 10,
        ;
        assert(r as nat / 10 == base && r as nat % 10 == check) by (nonlinear_arith)
            requires
                r == base * 10 + check,
                check < 10,
        ;
        let t = luhn_total(base as nat, 14, false);
        assert((t + (10 - t % 10) % 10) % 10 == 0) by (nonlinear_arith);
    }
    r
}

/// Draws a checksum-valid fifteen-digit device identifier.
pub fn gen_imei(rng: &mut rand::rngs::StdRng) -> (r: u64)
    ensures
        100_000_000_000_000 <= r < 1_000_000_000_000_000,
        luhn_valid_imei(r as nat),
{
    let tac = 10_000_000 + rng_below(rng, 90_000_000);
    let snr = 100_000 + rng_below(rng, 900_000);
    imei_from_parts(tac, snr)
}

/// The numeric value a prefix denotes, or the first built-in prefix when it
/// is not a decimal `u64`.
pub open spec fn prefix_num(s: Seq<char>) -> nat {
    if s.len() > 0 && crate::ids::all_digits(s) && crate::ids::digits_value(s) <= u64::MAX {
        crate::ids::digits_value(s)
    } else {
        31612
    }
}

/// The numeric value a network code denotes, or the first built-in code when
/// it is not a decimal `u32`.
pub open spec fn mccmnc_num(s: Seq<char>) -> nat {
    if s.len() > 0 && crate::ids::all_digits(s) && crate::ids::digits_value(s) <= u32::MAX {
        crate::ids::digits_value(s)
    } else {
        20408
    }
}

/// One generated subscriber is consistent with the pools: its phone number
/// extends some prefix by seven digits, its network identifier extends its
/// home network code by ten digits, and its device identifier is
/// checksum-valid.
pub open spec fn subscriber_consistent(
    s: Subscriber,
    prefixes: Seq<Seq<char>>,
    mccmnc_pool: Seq<Seq<char>>,
) -> bool {
    &&& exists|j: int|
        0 <= j < prefixes.len() && (s.msisdn as nat) / 10_000_000 == prefix_num(
            #[trigger] prefixes[j],
        )
    &&& exists|j: int|
        0 <= j < mccmnc_pool.len() && s.mccmnc as nat == mccmnc_num(#[trigger] mccmnc_pool[j])
    &&& s.imsi as nat == (s.mccmnc as nat) * 10_000_000_000 + (s.imsi as nat) % 10_000_000_000
    &&& 100_000_000_000_000 <= s.imei < 1_000_000_000_000_000
    &&& luhn_valid_imei(s.imei as nat)
}

/// Builds an initial population of stable subscriber identities.
pub fn build_subscribers(
    n_users: usize,
    prefixes: &Vec<String>,
    mccmnc_pool: &Vec<String>,
    rng: &mut rand::rngs::StdRng,
) -> (r: Vec<Subscriber>)
    requires
        prefixes@.len() > 0,
        mccmnc_pool@.len() > 0,
        forall|j: int| 0 <= j < prefixes@.len() ==> prefix_num((#[trigger] prefixes@[j])@)
            < 100_000_000,
        forall|j: int| 0 <= j < mccmnc_pool@.len() ==> mccmnc_num((#[trigger] mccmnc_pool@[j])@)
            < 1_000_000,
    ensures
        r@.len() == n_users,
        forall|i: int| 0 <= i < r@.len() ==> subscriber_consistent(
            #[trigger] r@[i],
            prefixes@.map_values(|p: String| p@),
            mccmnc_pool@.map_values(|p: String| p@),
        ),
{
    let ghost ps = prefixes@.map_values(|p: String| p@);
    let ghost ms = mccmnc_pool@.map_values(|p: String| p@);
    let mut subs: Vec<Subscriber> = Vec::new();
    let mut u: usize = 0;
    while u < n_users
        invariant
            0 <= u <= n_users,
            subs@.len() == u,
            ps == prefixes@.map_values(|p: String| p@),
            ms == mccmnc_pool@.map_values(|p: String| p@),
            prefixes@.len() > 0,
            mccmnc_pool@.len() > 0,
            forall|j: int| 0 <= j < prefixes@.len() ==> prefix_num((#[trigger] prefixes@[j])@)
                < 100_000_000,
            forall|j: int| 0 <= j < mccmnc_pool@.len() ==> mccmnc_num(
                (#[trigger] mccmnc_pool@[j])@,
            ) < 1_000_000,
            forall|i: int| 0 <= i < subs@.len() ==> subscriber_consistent(
                #[trigger] subs@[i],
                ps,
                ms,
            ),
        decreases n_users - u,
    {
        let pidx = rng_below(rng, prefixes.len() as u64) as usize;
        let prefix_val = match crate::ids::parse_u64_digits(prefixes[pidx].as_str()) {
            Some(v) => v,
            None => 31612,
        };
        proof {
            assert(prefix_val as nat == prefix_num(ps[pidx as int]));
        }
        let subscriber_number = rng_below(rng, 10_000_000);
        let msisdn = prefix_val * 10_000_000 + subscriber_number;
        proof {
            assert((msisdn as nat) / 10_000_000 == prefix_val as nat) by (nonlinear_arith)
                requires
                    msisdn == prefix_val * 10_000_000 + subscriber_number,
                    subscriber_number < 10_000_000,
            ;
        }

        let midx = rng_below(rng, mccmnc_pool.len() as u64) as usize;
        let mcc_val64 = match crate::ids::parse_u64_digits(mccmnc_pool[midx].as_str()) {
            Some(v) => if v <= 0xFFFF_FFFFu64 {
                v
            } else {
                20408
            },
            None => 20408,
        };
        let mccmnc = mcc_val64 as u32;
        proof {
            assert(mccmnc as nat == mccmnc_num(ms[midx as int]));
        }
        let msin = rng_below(rng, 10_000_000_000);
        let imsi = (mccmnc as u64) * 10_000_000_000 + msin;
        proof {
            assert(imsi as nat == (mccmnc as nat) * 10_000_000_000 + msin as nat);
            assert((imsi as nat) % 10_000_000_000 == msin as nat) by (nonlinear_arith)
                requires
                    imsi as nat == (mccmnc as nat) * 10_000_000_000 + msin as nat,
                    msin < 10_000_000_000,
            ;
        }
        let imei = gen_imei(rng);
        let sub = Subscriber { msisdn, imsi, mccmnc, imei };
        proof {
            assert(subscriber_consistent(sub, ps, ms));
        }
        subs.push(sub);
        u = u + 1;
    }
    subs
}

} // verus!

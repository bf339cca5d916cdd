//! The lifecycle simulator: generates a synthetic subscriber event history,
//! one day at a time. Each day every active identity rolls a device change
//! and a number release; released numbers wait out a cooldown in a queue and
//! are then reassigned to brand-new identities; occasionally an entirely new
//! subscriber joins.
//!
//! Probabilities are daily, in parts per million. A caller holding an annual
//! hazard rate `r` derives the daily probability as `1 - (1 - r)^(1/365)`;
//! that conversion treats each day as an independent trial, an approximation
//! of a continuous-time hazard process, not an exact equivalent.

use vstd::prelude::*;
use crate::rng::{rng_below, rng_from_seed};
use crate::subscriber_db::{
    chronological, claim_conflicts, claim_would_conflict, conflict_at, formats_valid,
    lemma_claim_would_conflict, lemma_conflict_at_push, lemma_ownership_keys_fresh,
    ownership_exclusive, valid_imei, valid_imsi, valid_msisdn, SubscriberEvent,
    SubscriberEventType, SubscriberEventView,
};
use crate::ids::{
    all_digits, lemma_dec_digits_len_ge, lemma_dec_digits_len_le, lemma_decimal_round_trip,
    lemma_pow10_values, padded_decimal,
};
use crate::ids::u64_to_padded_string;
use crate::identity::gen_imei;
use vstd::pervasive::VecAdditionalExecFns;

verus! {

/// Configuration of one simulation run.
#[derive(Debug, Clone)]
pub struct GeneratorConfig {
    /// The initial population size.
    pub initial_subscribers: usize,
    /// The simulation horizon in days.
    pub history_days: usize,
    /// Daily probability of a device change, in parts per million.
    pub device_change_daily_ppm: u32,
    /// Daily probability of a number release, in parts per million.
    pub number_release_daily_ppm: u32,
    /// Daily probability that an entirely new subscriber joins, in parts per
    /// million.
    pub new_subscriber_daily_ppm: u32,
    /// Days a released number waits before it may be reassigned.
    pub cooldown_days: usize,
    /// The phone-number prefix pool.
    pub prefixes: Vec<String>,
    /// The home-network-code pool.
    pub mccmnc_pool: Vec<String>,
    /// The deterministic seed.
    pub seed: u64,
    /// The first day's timestamp, in milliseconds since the epoch.
    pub start_timestamp_ms: i64,
}

impl Default for GeneratorConfig {
    /// A small default run: the built-in pools, one year of history, and
    /// the daily equivalents of a 0.15 annual device-change rate and a 0.05
    /// annual release rate.
    fn default() -> (r: Self)
        ensures
            r.initial_subscribers == 1000,
            r.history_days == 365,
            r.device_change_daily_ppm == 445,
            r.number_release_daily_ppm == 141,
            r.new_subscriber_daily_ppm == 10_000,
            r.cooldown_days == 90,
            r.seed == 42,
            r.start_timestamp_ms == 1_704_067_200_000,
            r.prefixes@.map_values(|p: String| p@) == seq!["31612"@, "31613"@],
            r.mccmnc_pool@.map_values(|p: String| p@) == seq!["20408"@, "20416"@],
    {
        let mut prefixes: Vec<String> = Vec::new();
        prefixes.push("31612".to_owned());
        prefixes.push("31613".to_owned());
        let mut mccmnc_pool: Vec<String> = Vec::new();
        mccmnc_pool.push("20408".to_owned());
        mccmnc_pool.push("20416".to_owned());
        proof {
            assert(prefixes@.map_values(|p: String| p@) =~= seq!["31612"@, "31613"@]);
            assert(mccmnc_pool@.map_values(|p: String| p@) =~= seq!["20408"@, "20416"@]);
        }
        GeneratorConfig {
            initial_subscribers: 1000,
            history_days: 365,
            device_change_daily_ppm: 445,
            number_release_daily_ppm: 141,
            new_subscriber_daily_ppm: 10_000,
            cooldown_days: 90,
            prefixes,
            mccmnc_pool,
            seed: 42,
            start_timestamp_ms: 1_704_067_200_000,
        }
    }
}

/// Why a configuration was rejected before any work began.
#[derive(Debug, Clone, Copy, PartialEq, Eq, Structural)]
pub enum ConfigError {
    /// The initial population is zero.
    ZeroPopulation,
    /// The horizon is zero, or the cooldown does not fit inside it.
    CooldownExceedsHorizon,
    /// A daily probability exceeds one million parts per million.
    RateOutOfRange,
    /// The phone-number prefix pool is empty.
    EmptyPrefixPool,
    /// The home-network-code pool is empty.
    EmptyNetworkPool,
    /// A pool entry is not a digit string of its width: a phone-number
    /// prefix of one to eight digits, or a home network code of four to five
    /// digits (the widths that keep every derived identifier well-formed).
    MalformedPool,
    /// The horizon exceeds the supported bound, or its last day's timestamp
    /// does not fit a 64-bit millisecond clock.
    HorizonOverflow,
    /// The random search for a free phone number gave up; the number space
    /// of the prefix pool is too crowded for the population.
    NumberSpaceExhausted,
}

/// Milliseconds per simulated day.
pub const MS_PER_DAY: i64 = 86_400_000;

/// The largest supported horizon, in days.
pub const MAX_HISTORY_DAYS: usize = 100_000;

/// Timestamps never decrease and never pass `current`.
pub open spec fn stream_bounded(events: Seq<SubscriberEventView>, current: int) -> bool {
    forall|i: int| 0 <= i < events.len() ==> (#[trigger] events[i]).timestamp_ms <= current
}

/// Cooldown enforcement: a released phone number appears in no later
/// assignment or admission until the cooldown has elapsed since the release.
#[verifier::opaque]
pub open spec fn cooldown_respected(events: Seq<SubscriberEventView>, cooldown_ms: int) -> bool {
    forall|i: int, j: int|
        0 <= i < events.len() && 0 <= j < events.len() && (#[trigger] events[i]).event_type
            == SubscriberEventType::ReleaseNumber && ((#[trigger] events[j]).event_type
            == SubscriberEventType::AssignNumber || events[j].event_type
            == SubscriberEventType::NewSubscriber) && events[i].msisdn is Some
            && events[j].msisdn == events[i].msisdn && events[j].timestamp_ms
            > events[i].timestamp_ms ==> events[j].timestamp_ms >= events[i].timestamp_ms
            + cooldown_ms
}

/// Admissions take brand-new numbers: no event before a new-subscriber event
/// carries that event's phone number.
#[verifier::opaque]
pub open spec fn new_numbers_fresh(events: Seq<SubscriberEventView>) -> bool {
    forall|i: int, j: int|
        0 <= j < i < events.len() && (#[trigger] events[i]).event_type
            == SubscriberEventType::NewSubscriber ==> (#[trigger] events[j]).msisdn
            != events[i].msisdn
}

/// The stream opens with the initial population: its first `n0` events are
/// admissions at the start instant, and every later event is strictly later,
/// so exactly `n0` events carry the start timestamp.
#[verifier::opaque]
pub open spec fn initial_admissions(events: Seq<SubscriberEventView>, n0: int, start: int) -> bool {
    &&& events.len() >= n0
    &&& forall|i: int| 0 <= i < n0 ==> (#[trigger] events[i]).event_type
        == SubscriberEventType::NewSubscriber && events[i].timestamp_ms == start
    &&& forall|i: int| n0 <= i < events.len() ==> (#[trigger] events[i]).timestamp_ms > start
}

/// An event that claims a phone number: an admission or an assignment.
pub open spec fn is_claim_event(e: SubscriberEventView) -> bool {
    e.event_type == SubscriberEventType::NewSubscriber || e.event_type
        == SubscriberEventType::AssignNumber
}

/// Some event of the stream releases the phone number.
pub open spec fn released_in(events: Seq<SubscriberEventView>, ms: Option<Seq<char>>) -> bool
    decreases events.len(),
{
    if events.len() == 0 {
        false
    } else {
        (events.last().event_type == SubscriberEventType::ReleaseNumber && events.last().msisdn
            == ms) || released_in(events.drop_last(), ms)
    }
}

/// A release seen in a prefix stands in the whole stream.
proof fn lemma_released_in_prefix(events: Seq<SubscriberEventView>, k: int, ms: Option<Seq<char>>)
    requires
        0 <= k <= events.len(),
        released_in(events.take(k), ms),
    ensures
        released_in(events, ms),
    decreases events.len() - k,
{
    if k == events.len() {
        assert(events.take(k) =~= events);
    } else {
        assert(events.take(k + 1).drop_last() =~= events.take(k));
        lemma_released_in_prefix(events, k + 1, ms);
    }
}

/// Assignment provenance: every assigned number appears in an earlier
/// release.
#[verifier::opaque]
pub open spec fn assignments_from_releases(events: Seq<SubscriberEventView>) -> bool
    decreases events.len(),
{
    if events.len() == 0 {
        true
    } else {
        assignments_from_releases(events.drop_last()) && (events.last().event_type
            == SubscriberEventType::AssignNumber ==> released_in(
            events.drop_last(),
            events.last().msisdn,
        ))
    }
}

/// Identity distinctness: no two claims mint the same network identifier.
#[verifier::opaque]
pub open spec fn claim_imsis_distinct(events: Seq<SubscriberEventView>) -> bool {
    forall|i: int, j: int|
        0 <= i < j < events.len() && is_claim_event(events[i]) && is_claim_event(events[j])
            ==> (#[trigger] events[i]).imsi != (#[trigger] events[j]).imsi
}

/// Any event appended without creating a conflict keeps exclusivity.
proof fn lemma_exclusive_push(events: Seq<SubscriberEventView>, e: SubscriberEventView)
    requires
        ownership_exclusive(events),
        !conflict_at(events.push(e), events.len() as int),
    ensures
        ownership_exclusive(events.push(e)),
{
    let evs = events.push(e);
    assert forall|i: int| 0 <= i < evs.len() implies !#[trigger] conflict_at(evs, i) by {
        if i < events.len() {
            lemma_conflict_at_push(events, e, i);
        }
    }
}

/// An event that claims nothing creates no conflict.
proof fn lemma_non_claim_no_conflict(events: Seq<SubscriberEventView>, e: SubscriberEventView)
    requires
        !is_claim_event(e),
    ensures
        !conflict_at(events.push(e), events.len() as int),
{
    assert(events.push(e)[events.len() as int] == e);
}

/// An event that assigns nothing keeps assignment provenance.
proof fn lemma_assigns_push_non_assign(events: Seq<SubscriberEventView>, e: SubscriberEventView)
    requires
        assignments_from_releases(events),
        e.event_type != SubscriberEventType::AssignNumber,
    ensures
        assignments_from_releases(events.push(e)),
{
    reveal(assignments_from_releases);
    assert(events.push(e).drop_last() =~= events);
}

/// An assignment of a previously released number keeps provenance.
proof fn lemma_assigns_push_assign(events: Seq<SubscriberEventView>, e: SubscriberEventView)
    requires
        assignments_from_releases(events),
        e.event_type == SubscriberEventType::AssignNumber,
        released_in(events, e.msisdn),
    ensures
        assignments_from_releases(events.push(e)),
{
    reveal(assignments_from_releases);
    assert(events.push(e).drop_last() =~= events);
}

/// An event that claims nothing keeps identity distinctness.
proof fn lemma_imsis_push_non_claim(events: Seq<SubscriberEventView>, e: SubscriberEventView)
    requires
        claim_imsis_distinct(events),
        !is_claim_event(e),
    ensures
        claim_imsis_distinct(events.push(e)),
{
    reveal(claim_imsis_distinct);
    let evs = events.push(e);
    assert forall|i: int, j: int|
        0 <= i < j < evs.len() && is_claim_event(evs[i]) && is_claim_event(evs[j])
        implies (#[trigger] evs[i]).imsi != (#[trigger] evs[j]).imsi by {
        if j < events.len() {
            assert(evs[i] == events[i] && evs[j] == events[j]);
        } else {
            assert(evs[j] == e);
        }
    }
}

/// A claim with an identifier no claim carries keeps identity distinctness.
proof fn lemma_imsis_push_claim(events: Seq<SubscriberEventView>, e: SubscriberEventView)
    requires
        claim_imsis_distinct(events),
        forall|j: int|
            0 <= j < events.len() && is_claim_event(#[trigger] events[j]) ==> events[j].imsi
                != e.imsi,
    ensures
        claim_imsis_distinct(events.push(e)),
{
    reveal(claim_imsis_distinct);
    let evs = events.push(e);
    assert forall|i: int, j: int|
        0 <= i < j < evs.len() && is_claim_event(evs[i]) && is_claim_event(evs[j])
        implies (#[trigger] evs[i]).imsi != (#[trigger] evs[j]).imsi by {
        if j < events.len() {
            assert(evs[i] == events[i] && evs[j] == events[j]);
        } else {
            assert(evs[i] == events[i] && evs[j] == e);
        }
    }
}

/// Every entry of a pool is a digit string with a length in `[lo, hi]`.
pub open spec fn pool_digits(ps: Seq<Seq<char>>, lo: int, hi: int) -> bool {
    forall|k: int| 0 <= k < ps.len() ==> lo <= (#[trigger] ps[k]).len() <= hi && all_digits(
        ps[k],
    )
}

/// An event with well-formed identifiers keeps format validity.
proof fn lemma_formats_push(events: Seq<SubscriberEventView>, e: SubscriberEventView)
    requires
        formats_valid(events),
        valid_imsi(e.imsi),
        e.msisdn is Some ==> valid_msisdn(e.msisdn->0),
        e.imei is Some ==> valid_imei(e.imei->0),
    ensures
        formats_valid(events.push(e)),
{
    let evs = events.push(e);
    assert forall|i: int| 0 <= i < evs.len() implies {
        let x = #[trigger] evs[i];
        &&& valid_imsi(x.imsi)
        &&& (x.msisdn is Some ==> valid_msisdn(x.msisdn->0))
        &&& (x.imei is Some ==> valid_imei(x.imei->0))
    } by {
        if i < events.len() {
            assert(evs[i] == events[i]);
        }
    }
}

/// A digit string of `a` characters followed by one of `b` characters is a
/// digit string of `a + b` characters.
proof fn lemma_digits_concat(a: Seq<char>, b: Seq<char>)
    requires
        all_digits(a),
        all_digits(b),
    ensures
        all_digits(a + b),
        (a + b).len() == a.len() + b.len(),
{
    assert forall|i: int| 0 <= i < (a + b).len() implies crate::ids::is_digit_char(
        #[trigger] (a + b)[i],
    ) by {
        if i < a.len() {
            assert((a + b)[i] == a[i]);
        } else {
            assert((a + b)[i] == b[i - a.len()]);
        }
    }
}

/// A number below ten to the `w` pads to exactly `w` digits.
proof fn lemma_padded_exact(n: nat, w: nat)
    requires
        1 <= w,
        n < crate::ids::pow10(w),
    ensures
        padded_decimal(n, w).len() == w,
        all_digits(padded_decimal(n, w)),
{
    lemma_decimal_round_trip(n, w);
    lemma_dec_digits_len_le(n, w);
}

/// A well-formed configuration: positive population, a cooldown strictly
/// inside a positive horizon, probabilities within one million parts per
/// million, non-empty pools, and a horizon whose last day fits the clock.
pub open spec fn config_valid(config: GeneratorConfig) -> bool {
    &&& config.initial_subscribers > 0
    &&& config.history_days > 0
    &&& config.cooldown_days < config.history_days
    &&& config.device_change_daily_ppm <= 1_000_000
    &&& config.number_release_daily_ppm <= 1_000_000
    &&& config.new_subscriber_daily_ppm <= 1_000_000
    &&& config.prefixes@.len() > 0
    &&& config.mccmnc_pool@.len() > 0
    &&& pool_digits(config.prefixes@.map_values(|p: String| p@), 1, 8)
    &&& pool_digits(config.mccmnc_pool@.map_values(|p: String| p@), 4, 5)
    &&& config.history_days <= MAX_HISTORY_DAYS
    &&& config.start_timestamp_ms <= i64::MAX - (config.history_days as int) * (
    MS_PER_DAY as int)
}

// An active identity during simulation.
struct ActiveSub {
    imsi: String,
    msisdn: String,
    imei: u64,
    mccmnc: String,
}

// A released phone number waiting out its cooldown.
struct ReleasedNumber {
    msisdn: String,
    release_time: i64,
}

// Every tracked identity carries well-formed identifiers.
spec fn active_ok(acts: Seq<ActiveSub>) -> bool {
    forall|k: int| 0 <= k < acts.len() ==> valid_imsi((#[trigger] acts[k]).imsi@)
        && valid_msisdn(acts[k].msisdn@)
}

// Every queued phone number is well-formed.
spec fn queue_ok(q: Seq<ReleasedNumber>) -> bool {
    forall|k: int| 0 <= k < q.len() ==> valid_msisdn((#[trigger] q[k]).msisdn@)
}

/// Whether the vector holds the given text.
fn contains_str(v: &Vec<String>, s: &str) -> (r: bool)
    ensures
        r == v@.map_values(|t: String| t@).contains(s@),
{
    let n = v.len();
    let mut i: usize = 0;
    while i < n
        invariant
            0 <= i <= n,
            n == v@.len(),
            forall|k: int| 0 <= k < i ==> (#[trigger] v@[k])@ != s@,
        decreases n - i,
    {
        if crate::text::str_eq(v[i].as_str(), s) {
            proof {
                assert(v@.map_values(|t: String| t@)[i as int] == s@);
            }
            return true;
        }
        i = i + 1;
    }
    proof {
        let mapped = v@.map_values(|t: String| t@);
        assert forall|k: int| 0 <= k < mapped.len() implies #[trigger] mapped[k] != s@ by {
            assert(mapped[k] == v@[k]@);
        }
    }
    false
}

/// Draws a phone number not yet in use: a pool prefix followed by seven
/// digits. Gives up after a bounded number of draws on a crowded number
/// space.
fn gen_msisdn(
    rng: &mut rand::rngs::StdRng,
    used: &Vec<String>,
    prefixes: &Vec<String>,
) -> (r: Option<String>)
    requires
        prefixes@.len() > 0,
    ensures
        match r {
            Some(m) => !used@.map_values(|t: String| t@).contains(m@) && (pool_digits(
                prefixes@.map_values(|p: String| p@),
                1,
                8,
            ) ==> valid_msisdn(m@)),
            None => true,
        },
{
    let mut attempts: usize = 0;
    while attempts < 1000
        invariant
            prefixes@.len() > 0,
        decreases 1000 - attempts,
    {
        let pidx = rng_below(rng, prefixes.len() as u64) as usize;
        let number = rng_below(rng, 10_000_000);
        let mut m = prefixes[pidx].clone();
        let tail = u64_to_padded_string(number, 7);
        crate::ids::append_str(&mut m, tail.as_str());
        proof {
            let ps = prefixes@.map_values(|p: String| p@);
            assert(ps[pidx as int] == prefixes@[pidx as int]@);
            lemma_pow10_values();
            lemma_padded_exact(number as nat, 7);
            if pool_digits(ps, 1, 8) {
                lemma_digits_concat(ps[pidx as int], padded_decimal(number as nat, 7));
                assert(valid_msisdn(m@));
            }
        }
        if !contains_str(used, m.as_str()) {
            return Some(m);
        }
        attempts = attempts + 1;
    }
    None
}

/// Mints the next network identifier: a pool network code followed by the
/// counter's ten-digit tail; the counter advances (wrapping at the top of
/// its range).
fn gen_imsi(counter: &mut u64, mccmnc_pool: &Vec<String>) -> (r: (String, String))
    requires
        mccmnc_pool@.len() > 0,
    ensures
        *final(counter) == (*old(counter)).wrapping_add(1),
        pool_digits(mccmnc_pool@.map_values(|p: String| p@), 4, 5) ==> valid_imsi(r.0@),
{
    let idx = (*counter % (mccmnc_pool.len() as u64)) as usize;
    let mcc = mccmnc_pool[idx].clone();
    let msin = *counter % 10_000_000_000u64;
    let mut imsi = mcc.clone();
    let tail = u64_to_padded_string(msin, 10);
    crate::ids::append_str(&mut imsi, tail.as_str());
    proof {
        let ps = mccmnc_pool@.map_values(|p: String| p@);
        assert(ps[idx as int] == mccmnc_pool@[idx as int]@);
        lemma_pow10_values();
        lemma_padded_exact(msin as nat, 10);
        if pool_digits(ps, 4, 5) {
            lemma_digits_concat(ps[idx as int], padded_decimal(msin as nat, 10));
            assert(valid_imsi(imsi@));
        }
    }
    *counter = counter.wrapping_add(1);
    (imsi, mcc)
}

/// Renders a device identifier as its fifteen digits.
fn imei_string(imei: u64) -> (r: String)
    requires
        100_000_000_000_000 <= imei < 1_000_000_000_000_000,
    ensures
        r@ == crate::ids::dec_digits(imei as nat),
        valid_imei(r@),
{
    let r = u64_to_padded_string(imei, 0);
    proof {
        assert(crate::ids::padded_decimal(imei as nat, 0) =~= crate::ids::dec_digits(
            imei as nat));
        lemma_pow10_values();
        lemma_dec_digits_len_ge(imei as nat, 15);
        lemma_dec_digits_len_le(imei as nat, 15);
        crate::ids::lemma_dec_digits_value(imei as nat);
    }
    r
}

// The ghost projection of the emitted events.
spec fn evs_of(v: Seq<SubscriberEvent>) -> Seq<SubscriberEventView> {
    v.map_values(|e: SubscriberEvent| e@)
}

/// An event at the current instant extends a bounded chronological stream.
proof fn lemma_push_current(events: Seq<SubscriberEventView>, e: SubscriberEventView, current: int)
    requires
        chronological(events),
        stream_bounded(events, current),
        e.timestamp_ms == current,
    ensures
        chronological(events.push(e)),
        stream_bounded(events.push(e), current),
{
    let evs = events.push(e);
    assert forall|k: int| 1 <= k < evs.len() implies evs[k - 1].timestamp_ms
        <= (#[trigger] evs[k]).timestamp_ms by {
        if k < evs.len() - 1 {
            assert(evs[k - 1] == events[k - 1] && evs[k] == events[k]);
        } else {
            assert(evs[k - 1] == events[k - 1]);
            assert(events[k - 1].timestamp_ms <= current);
        }
    }
    assert forall|i: int| 0 <= i < evs.len() implies (#[trigger] evs[i]).timestamp_ms
        <= current by {
        if i < events.len() {
            assert(evs[i] == events[i]);
        }
    }
}

/// A bounded stream stays bounded as the clock moves forward.
proof fn lemma_bounded_mono(events: Seq<SubscriberEventView>, c1: int, c2: int)
    requires
        stream_bounded(events, c1),
        c1 <= c2,
    ensures
        stream_bounded(events, c2),
{
    assert forall|i: int| 0 <= i < events.len() implies (#[trigger] events[i]).timestamp_ms
        <= c2 by {
        assert(events[i].timestamp_ms <= c1);
    }
}

/// Whether every release of the phone number in the stream lies at least a
/// full cooldown before `current`.
fn releases_cooled(events: &Vec<SubscriberEvent>, m: &str, current: i64, cd: i64) -> (r: bool)
    requires
        cd >= 0,
    ensures
        r == (forall|i: int|
            0 <= i < evs_of(events@).len() && (#[trigger] evs_of(events@)[i]).event_type
                == SubscriberEventType::ReleaseNumber && evs_of(events@)[i].msisdn == Some(m@)
                ==> current as int >= evs_of(events@)[i].timestamp_ms + cd),
{
    let n = events.len();
    let mut i: usize = 0;
    while i < n
        invariant
            0 <= i <= n,
            n == events@.len(),
            cd >= 0,
            forall|k: int|
                0 <= k < i && (#[trigger] evs_of(events@)[k]).event_type
                    == SubscriberEventType::ReleaseNumber && evs_of(events@)[k].msisdn == Some(
                    m@,
                ) ==> current as int >= evs_of(events@)[k].timestamp_ms + cd,
        decreases n - i,
    {
        proof {
            assert(evs_of(events@)[i as int] == events@[i as int]@);
        }
        let e = &events[i];
        let is_release = match e.event_type {
            SubscriberEventType::ReleaseNumber => true,
            _ => false,
        };
        let matches_m = match &e.msisdn {
            Some(s) => crate::text::str_eq(s.as_str(), m),
            None => false,
        };
        if is_release && matches_m {
            let cooled = if e.timestamp_ms > current {
                false
            } else {
                match current.checked_sub(e.timestamp_ms) {
                    Some(d) => d >= cd,
                    None => true,
                }
            };
            if !cooled {
                return false;
            }
        }
        i = i + 1;
    }
    true
}

/// Whether no event of the stream carries the phone number.
fn msisdn_unseen(events: &Vec<SubscriberEvent>, m: &str) -> (r: bool)
    ensures
        r == (forall|j: int| 0 <= j < evs_of(events@).len() ==> (#[trigger] evs_of(
            events@,
        )[j]).msisdn != Some(m@)),
{
    let n = events.len();
    let mut i: usize = 0;
    while i < n
        invariant
            0 <= i <= n,
            n == events@.len(),
            forall|k: int| 0 <= k < i ==> (#[trigger] evs_of(events@)[k]).msisdn != Some(m@),
        decreases n - i,
    {
        proof {
            assert(evs_of(events@)[i as int] == events@[i as int]@);
        }
        let seen = match &events[i].msisdn {
            Some(s) => crate::text::str_eq(s.as_str(), m),
            None => false,
        };
        if seen {
            return false;
        }
        i = i + 1;
    }
    true
}

/// Whether some claim in the stream already carries the network identifier.
fn claim_imsi_seen(events: &Vec<SubscriberEvent>, imsi: &str) -> (r: bool)
    ensures
        r == (exists|j: int|
            0 <= j < evs_of(events@).len() && is_claim_event(#[trigger] evs_of(events@)[j])
                && evs_of(events@)[j].imsi == imsi@),
{
    let n = events.len();
    let mut i: usize = 0;
    while i < n
        invariant
            0 <= i <= n,
            n == events@.len(),
            forall|k: int|
                0 <= k < i ==> !(is_claim_event(#[trigger] evs_of(events@)[k]) && evs_of(
                    events@,
                )[k].imsi == imsi@),
        decreases n - i,
    {
        proof {
            assert(evs_of(events@)[i as int] == events@[i as int]@);
        }
        let is_claim = match events[i].event_type {
            SubscriberEventType::NewSubscriber => true,
            SubscriberEventType::AssignNumber => true,
            _ => false,
        };
        if is_claim && crate::text::str_eq(events[i].imsi.as_str(), imsi) {
            return true;
        }
        i = i + 1;
    }
    false
}

/// Whether some event in the stream released the phone number.
fn released_before(events: &Vec<SubscriberEvent>, m: &str) -> (r: bool)
    ensures
        r == released_in(evs_of(events@), Some(m@)),
{
    let n = events.len();
    let mut i: usize = 0;
    while i < n
        invariant
            0 <= i <= n,
            n == events@.len(),
            !released_in(evs_of(events@).take(i as int), Some(m@)),
        decreases n - i,
    {
        proof {
            assert(evs_of(events@)[i as int] == events@[i as int]@);
            assert(evs_of(events@).take(i + 1).drop_last() =~= evs_of(events@).take(i as int));
            assert(evs_of(events@).take(i + 1).last() == evs_of(events@)[i as int]);
        }
        let is_release = match events[i].event_type {
            SubscriberEventType::ReleaseNumber => true,
            _ => false,
        };
        let matches_m = match &events[i].msisdn {
            Some(s) => crate::text::str_eq(s.as_str(), m),
            None => false,
        };
        if is_release && matches_m {
            proof {
                assert(released_in(evs_of(events@).take(i + 1), Some(m@)));
                lemma_released_in_prefix(evs_of(events@), i + 1, Some(m@));
            }
            return true;
        }
        i = i + 1;
    }
    proof {
        assert(evs_of(events@).take(n as int) =~= evs_of(events@));
    }
    false
}

/// A device change or release keeps cooldown enforcement: neither claims a
/// number, and a release no earlier than every prior event creates no
/// in-cooldown pair.
proof fn lemma_cooldown_push_non_claim(
    events: Seq<SubscriberEventView>,
    e: SubscriberEventView,
    cd: int,
    current: int,
)
    requires
        cooldown_respected(events, cd),
        stream_bounded(events, current),
        e.timestamp_ms == current,
        e.event_type == SubscriberEventType::ChangeDevice || e.event_type
            == SubscriberEventType::ReleaseNumber,
    ensures
        cooldown_respected(events.push(e), cd),
{
    reveal(cooldown_respected);
    let evs = events.push(e);
    assert forall|i: int, j: int|
        0 <= i < evs.len() && 0 <= j < evs.len() && (#[trigger] evs[i]).event_type
            == SubscriberEventType::ReleaseNumber && ((#[trigger] evs[j]).event_type
            == SubscriberEventType::AssignNumber || evs[j].event_type
            == SubscriberEventType::NewSubscriber) && evs[i].msisdn is Some && evs[j].msisdn
            == evs[i].msisdn && evs[j].timestamp_ms > evs[i].timestamp_ms
        implies evs[j].timestamp_ms >= evs[i].timestamp_ms + cd by {
        if i < events.len() && j < events.len() {
            assert(evs[i] == events[i] && evs[j] == events[j]);
        } else if i == events.len() {
            assert(evs[j] == events[j]);
            assert(events[j].timestamp_ms <= current);
        }
    }
}

/// A claim (assignment or admission) whose number's releases have all cooled
/// keeps cooldown enforcement.
proof fn lemma_cooldown_push_claim(
    events: Seq<SubscriberEventView>,
    e: SubscriberEventView,
    cd: int,
    current: int,
)
    requires
        cooldown_respected(events, cd),
        stream_bounded(events, current),
        e.timestamp_ms == current,
        e.event_type == SubscriberEventType::AssignNumber || e.event_type
            == SubscriberEventType::NewSubscriber,
        forall|i: int|
            0 <= i < events.len() && (#[trigger] events[i]).event_type
                == SubscriberEventType::ReleaseNumber && events[i].msisdn == e.msisdn
                ==> current >= events[i].timestamp_ms + cd,
    ensures
        cooldown_respected(events.push(e), cd),
{
    reveal(cooldown_respected);
    let evs = events.push(e);
    assert forall|i: int, j: int|
        0 <= i < evs.len() && 0 <= j < evs.len() && (#[trigger] evs[i]).event_type
            == SubscriberEventType::ReleaseNumber && ((#[trigger] evs[j]).event_type
            == SubscriberEventType::AssignNumber || evs[j].event_type
            == SubscriberEventType::NewSubscriber) && evs[i].msisdn is Some && evs[j].msisdn
            == evs[i].msisdn && evs[j].timestamp_ms > evs[i].timestamp_ms
        implies evs[j].timestamp_ms >= evs[i].timestamp_ms + cd by {
        if i < events.len() && j < events.len() {
            assert(evs[i] == events[i] && evs[j] == events[j]);
        } else if j == events.len() && i < events.len() {
            assert(evs[i] == events[i]);
        } else if i == events.len() {
            assert(evs[j] == events[j]);
            assert(events[j].timestamp_ms <= current);
        }
    }
}

/// An event that is not an admission keeps number-freshness.
proof fn lemma_fresh_push_non_new(events: Seq<SubscriberEventView>, e: SubscriberEventView)
    requires
        new_numbers_fresh(events),
        e.event_type != SubscriberEventType::NewSubscriber,
    ensures
        new_numbers_fresh(events.push(e)),
{
    reveal(new_numbers_fresh);
    let evs = events.push(e);
    assert forall|i: int, j: int|
        0 <= j < i < evs.len() && (#[trigger] evs[i]).event_type
            == SubscriberEventType::NewSubscriber implies (#[trigger] evs[j]).msisdn
        != evs[i].msisdn by {
        if i < events.len() {
            assert(evs[i] == events[i] && evs[j] == events[j]);
        }
    }
}

/// An admission whose number no prior event carries keeps number-freshness.
proof fn lemma_fresh_push_new(events: Seq<SubscriberEventView>, e: SubscriberEventView)
    requires
        new_numbers_fresh(events),
        e.event_type == SubscriberEventType::NewSubscriber,
        forall|j: int| 0 <= j < events.len() ==> (#[trigger] events[j]).msisdn != e.msisdn,
    ensures
        new_numbers_fresh(events.push(e)),
{
    reveal(new_numbers_fresh);
    let evs = events.push(e);
    assert forall|i: int, j: int|
        0 <= j < i < evs.len() && (#[trigger] evs[i]).event_type
            == SubscriberEventType::NewSubscriber implies (#[trigger] evs[j]).msisdn
        != evs[i].msisdn by {
        if i < events.len() {
            assert(evs[i] == events[i] && evs[j] == events[j]);
        } else {
            assert(evs[j] == events[j]);
        }
    }
}

/// An event strictly after the start instant keeps the initial-admission
/// shape.
proof fn lemma_admissions_push_later(
    events: Seq<SubscriberEventView>,
    e: SubscriberEventView,
    n0: int,
    start: int,
)
    requires
        0 <= n0,
        initial_admissions(events, n0, start),
        e.timestamp_ms > start,
    ensures
        initial_admissions(events.push(e), n0, start),
{
    reveal(initial_admissions);
    let evs = events.push(e);
    assert forall|i: int| 0 <= i < n0 implies (#[trigger] evs[i]).event_type
        == SubscriberEventType::NewSubscriber && evs[i].timestamp_ms == start by {
        assert(evs[i] == events[i]);
    }
    assert forall|i: int| n0 <= i < evs.len() implies (#[trigger] evs[i]).timestamp_ms
        > start by {
        if i < events.len() {
            assert(evs[i] == events[i]);
        }
    }
}

/// The stream invariant the simulator maintains: chronological, bounded by
/// the current instant, cooldown-respecting, fresh admissions, and the
/// initial-admission shape.
#[verifier::opaque]
pub open spec fn stream_ok(
    events: Seq<SubscriberEventView>,
    n0: int,
    start: int,
    current: int,
    cd: int,
) -> bool {
    &&& chronological(events)
    &&& stream_bounded(events, current)
    &&& cooldown_respected(events, cd)
    &&& new_numbers_fresh(events)
    &&& initial_admissions(events, n0, start)
    &&& ownership_exclusive(events)
    &&& assignments_from_releases(events)
    &&& claim_imsis_distinct(events)
    &&& formats_valid(events)
}

/// The invariant of the initial-admission phase: a chronological stream of
/// admissions at the start instant, cooldown-respecting and fresh.
#[verifier::opaque]
spec fn initial_prefix_ok(events: Seq<SubscriberEventView>, start: int, cd: int) -> bool {
    &&& chronological(events)
    &&& stream_bounded(events, start)
    &&& cooldown_respected(events, cd)
    &&& new_numbers_fresh(events)
    &&& ownership_exclusive(events)
    &&& assignments_from_releases(events)
    &&& claim_imsis_distinct(events)
    &&& formats_valid(events)
    &&& forall|i: int| 0 <= i < events.len() ==> (#[trigger] events[i]).event_type
        == SubscriberEventType::NewSubscriber && events[i].timestamp_ms == start
}

/// An empty stream satisfies the initial-phase invariant.
proof fn lemma_initial_prefix_empty(events: Seq<SubscriberEventView>, start: int, cd: int)
    requires
        events.len() == 0,
    ensures
        initial_prefix_ok(events, start, cd),
{
    reveal(initial_prefix_ok);
    reveal(cooldown_respected);
    reveal(new_numbers_fresh);
    reveal(assignments_from_releases);
    reveal(claim_imsis_distinct);
}

/// One more admission at the start instant, with a number no event carries,
/// keeps the initial-phase invariant.
#[verifier::rlimit(100)]
#[verifier::spinoff_prover]
proof fn lemma_initial_prefix_push(
    events: Seq<SubscriberEventView>,
    e: SubscriberEventView,
    start: int,
    cd: int,
)
    requires
        initial_prefix_ok(events, start, cd),
        cd >= 0,
        e.event_type == SubscriberEventType::NewSubscriber,
        e.timestamp_ms == start,
        e.msisdn is Some,
        forall|j: int| 0 <= j < events.len() ==> (#[trigger] events[j]).msisdn != e.msisdn,
        forall|j: int|
            0 <= j < events.len() && is_claim_event(#[trigger] events[j]) ==> events[j].imsi
                != e.imsi,
        valid_imsi(e.imsi),
        e.msisdn is Some ==> valid_msisdn(e.msisdn->0),
        e.imei is Some ==> valid_imei(e.imei->0),
    ensures
        initial_prefix_ok(events.push(e), start, cd),
{
    reveal(initial_prefix_ok);
    lemma_push_current(events, e, start);
    assert forall|j: int| 0 <= j < events.len() implies (#[trigger] events[j]).msisdn != Some(
        e.msisdn->0,
    ) by {
        assert(events[j].msisdn != e.msisdn);
    }
    lemma_ownership_keys_fresh(events, events.len() as int, e.msisdn->0);
    assert(!claim_would_conflict(events, e));
    lemma_claim_would_conflict(events, e);
    lemma_exclusive_push(events, e);
    lemma_assigns_push_non_assign(events, e);
    lemma_imsis_push_claim(events, e);
    assert forall|k: int|
        0 <= k < events.len() && (#[trigger] events[k]).event_type
            == SubscriberEventType::ReleaseNumber && events[k].msisdn == e.msisdn
        implies start >= events[k].timestamp_ms + cd by {
        assert(events[k].msisdn != e.msisdn);
    }
    lemma_cooldown_push_claim(events, e, cd, start);
    lemma_fresh_push_new(events, e);
    let evs = events.push(e);
    assert forall|i: int| 0 <= i < evs.len() implies (#[trigger] evs[i]).event_type
        == SubscriberEventType::NewSubscriber && evs[i].timestamp_ms == start by {
        if i < events.len() {
            assert(evs[i] == events[i]);
        }
    }
}

/// A full initial phase yields the stream invariant at the start instant.
proof fn lemma_initial_prefix_complete(
    events: Seq<SubscriberEventView>,
    n0: int,
    start: int,
    cd: int,
)
    requires
        initial_prefix_ok(events, start, cd),
        events.len() == n0,
    ensures
        stream_ok(events, n0, start, start, cd),
{
    reveal(initial_prefix_ok);
    reveal(stream_ok);
    reveal(initial_admissions);
    assert(initial_admissions(events, n0, start));
}

/// The stream invariant tolerates the clock moving forward.
proof fn lemma_stream_ok_mono(
    events: Seq<SubscriberEventView>,
    n0: int,
    start: int,
    c1: int,
    c2: int,
    cd: int,
)
    requires
        stream_ok(events, n0, start, c1, cd),
        c1 <= c2,
    ensures
        stream_ok(events, n0, start, c2, cd),
{
    reveal(stream_ok);
    lemma_bounded_mono(events, c1, c2);
}

/// A device change or release at the current instant keeps the stream
/// invariant.
#[verifier::rlimit(100)]
#[verifier::spinoff_prover]
proof fn lemma_stream_push_non_claim(
    events: Seq<SubscriberEventView>,
    e: SubscriberEventView,
    n0: int,
    start: int,
    current: int,
    cd: int,
)
    requires
        stream_ok(events, n0, start, current, cd),
        0 <= n0,
        start < current,
        cd >= 0,
        e.timestamp_ms == current,
        e.event_type == SubscriberEventType::ChangeDevice || e.event_type
            == SubscriberEventType::ReleaseNumber,
        valid_imsi(e.imsi),
        e.msisdn is Some ==> valid_msisdn(e.msisdn->0),
        e.imei is Some ==> valid_imei(e.imei->0),
    ensures
        stream_ok(events.push(e), n0, start, current, cd),
{
    reveal(stream_ok);
    lemma_push_current(events, e, current);
    lemma_cooldown_push_non_claim(events, e, cd, current);
    lemma_fresh_push_non_new(events, e);
    lemma_admissions_push_later(events, e, n0, start);
    lemma_non_claim_no_conflict(events, e);
    lemma_exclusive_push(events, e);
    lemma_assigns_push_non_assign(events, e);
    lemma_imsis_push_non_claim(events, e);
    lemma_formats_push(events, e);
}

/// An assignment at the current instant, every release of its number a full
/// cooldown in the past, keeps the stream invariant.
#[verifier::rlimit(100)]
#[verifier::spinoff_prover]
proof fn lemma_stream_push_assign(
    events: Seq<SubscriberEventView>,
    e: SubscriberEventView,
    n0: int,
    start: int,
    current: int,
    cd: int,
)
    requires
        stream_ok(events, n0, start, current, cd),
        0 <= n0,
        start < current,
        cd >= 0,
        e.timestamp_ms == current,
        e.event_type == SubscriberEventType::AssignNumber,
        forall|i: int|
            0 <= i < events.len() && (#[trigger] events[i]).event_type
                == SubscriberEventType::ReleaseNumber && events[i].msisdn == e.msisdn
                ==> current >= events[i].timestamp_ms + cd,
        !claim_would_conflict(events, e),
        released_in(events, e.msisdn),
        forall|j: int|
            0 <= j < events.len() && is_claim_event(#[trigger] events[j]) ==> events[j].imsi
                != e.imsi,
        valid_imsi(e.imsi),
        e.msisdn is Some ==> valid_msisdn(e.msisdn->0),
        e.imei is Some ==> valid_imei(e.imei->0),
    ensures
        stream_ok(events.push(e), n0, start, current, cd),
{
    reveal(stream_ok);
    lemma_push_current(events, e, current);
    lemma_cooldown_push_claim(events, e, cd, current);
    lemma_fresh_push_non_new(events, e);
    lemma_admissions_push_later(events, e, n0, start);
    lemma_claim_would_conflict(events, e);
    lemma_exclusive_push(events, e);
    lemma_assigns_push_assign(events, e);
    lemma_imsis_push_claim(events, e);
    lemma_formats_push(events, e);
}

/// An admission at the current instant, its number carried by no event,
/// keeps the stream invariant.
#[verifier::rlimit(100)]
#[verifier::spinoff_prover]
proof fn lemma_stream_push_new(
    events: Seq<SubscriberEventView>,
    e: SubscriberEventView,
    n0: int,
    start: int,
    current: int,
    cd: int,
)
    requires
        stream_ok(events, n0, start, current, cd),
        0 <= n0,
        start < current,
        cd >= 0,
        e.timestamp_ms == current,
        e.event_type == SubscriberEventType::NewSubscriber,
        e.msisdn is Some,
        forall|j: int| 0 <= j < events.len() ==> (#[trigger] events[j]).msisdn != e.msisdn,
        forall|j: int|
            0 <= j < events.len() && is_claim_event(#[trigger] events[j]) ==> events[j].imsi
                != e.imsi,
        valid_imsi(e.imsi),
        e.msisdn is Some ==> valid_msisdn(e.msisdn->0),
        e.imei is Some ==> valid_imei(e.imei->0),
    ensures
        stream_ok(events.push(e), n0, start, current, cd),
{
    reveal(stream_ok);
    lemma_push_current(events, e, current);
    assert forall|k: int|
        0 <= k < events.len() && (#[trigger] events[k]).event_type
            == SubscriberEventType::ReleaseNumber && events[k].msisdn == e.msisdn
        implies current >= events[k].timestamp_ms + cd by {
        assert(events[k].msisdn != e.msisdn);
    }
    lemma_cooldown_push_claim(events, e, cd, current);
    lemma_fresh_push_new(events, e);
    lemma_admissions_push_later(events, e, n0, start);
    assert forall|j: int| 0 <= j < events.len() implies (#[trigger] events[j]).msisdn != Some(
        e.msisdn->0,
    ) by {
        assert(events[j].msisdn != e.msisdn);
    }
    lemma_ownership_keys_fresh(events, events.len() as int, e.msisdn->0);
    assert(!claim_would_conflict(events, e));
    lemma_claim_would_conflict(events, e);
    lemma_exclusive_push(events, e);
    lemma_assigns_push_non_assign(events, e);
    lemma_imsis_push_claim(events, e);
    lemma_formats_push(events, e);
}

/// The stream invariant, opened: what the simulator's result satisfies.
proof fn lemma_stream_ok_unfold(
    events: Seq<SubscriberEventView>,
    n0: int,
    start: int,
    current: int,
    cd: int,
)
    requires
        stream_ok(events, n0, start, current, cd),
    ensures
        chronological(events),
        cooldown_respected(events, cd),
        new_numbers_fresh(events),
        initial_admissions(events, n0, start),
        ownership_exclusive(events),
        assignments_from_releases(events),
        claim_imsis_distinct(events),
        formats_valid(events),
{
    reveal(stream_ok);
}

/// Admits the initial population: one admission per subscriber at the start
/// instant, each with a phone number no earlier event carries.
#[verifier::rlimit(100)]
fn phase_initial(
    events: &mut Vec<SubscriberEvent>,
    active: &mut Vec<ActiveSub>,
    used: &mut Vec<String>,
    counter: &mut u64,
    rng: &mut rand::rngs::StdRng,
    n0: usize,
    start: i64,
    cd: i64,
    prefixes: &Vec<String>,
    mccmnc_pool: &Vec<String>,
) -> (r: Result<(), ConfigError>)
    requires
        old(events)@.len() == 0,
        old(active)@.len() == 0,
        prefixes@.len() > 0,
        mccmnc_pool@.len() > 0,
        pool_digits(prefixes@.map_values(|p: String| p@), 1, 8),
        pool_digits(mccmnc_pool@.map_values(|p: String| p@), 4, 5),
        cd >= 0,
    ensures
        match r {
            Ok(()) => final(events)@.len() == n0 && stream_ok(
                evs_of(final(events)@),
                n0 as int,
                start as int,
                start as int,
                cd as int,
            ) && active_ok(final(active)@),
            Err(e) => e == ConfigError::NumberSpaceExhausted,
        },
{
    proof {
        lemma_initial_prefix_empty(evs_of(events@), start as int, cd as int);
    }
    let mut u: usize = 0;
    while u < n0
        invariant
            0 <= u <= n0,
            events@.len() == u,
            prefixes@.len() > 0,
            mccmnc_pool@.len() > 0,
            pool_digits(prefixes@.map_values(|p: String| p@), 1, 8),
            pool_digits(mccmnc_pool@.map_values(|p: String| p@), 4, 5),
            cd >= 0,
            initial_prefix_ok(evs_of(events@), start as int, cd as int),
            active_ok(active@),
        decreases n0 - u,
    {
        let m = match gen_msisdn(rng, used, prefixes) {
            Some(m) => m,
            None => {
                return Err(ConfigError::NumberSpaceExhausted);
            },
        };
        // The draw is fresh against the used-number record; re-check it
        // against the stream itself so that freshness is a fact of the
        // events, not of the record.
        if !msisdn_unseen(events, m.as_str()) {
            return Err(ConfigError::NumberSpaceExhausted);
        }
        let (imsi, _mcc_of_imsi) = gen_imsi(counter, mccmnc_pool);
        // The counter scheme repeats identifiers only after ten billion
        // identities; re-check against the stream so distinctness is a fact
        // of the events.
        if claim_imsi_seen(events, imsi.as_str()) {
            return Err(ConfigError::NumberSpaceExhausted);
        }
        let imei = gen_imei(rng);
        let midx = rng_below(rng, mccmnc_pool.len() as u64) as usize;
        let mccmnc = mccmnc_pool[midx].clone();
        let ghost pre_events = events@;
        used.push(m.clone());
        let ev = SubscriberEvent {
            timestamp_ms: start,
            event_type: SubscriberEventType::NewSubscriber,
            imsi: imsi.clone(),
            msisdn: Some(m.clone()),
            imei: Some(imei_string(imei)),
            mccmnc: mccmnc.clone(),
        };
        events.push(ev);
        let ghost pre_active = active@;
        active.push(ActiveSub { imsi, msisdn: m, imei, mccmnc });
        proof {
            assert(evs_of(events@) =~= evs_of(pre_events).push(ev@));
            assert(ev@.msisdn == Some(m@));
            lemma_initial_prefix_push(evs_of(pre_events), ev@, start as int, cd as int);
            assert forall|k: int| 0 <= k < active@.len() implies valid_imsi(
                (#[trigger] active@[k]).imsi@,
            ) && valid_msisdn(active@[k].msisdn@) by {
                if k < pre_active.len() {
                    assert(active@[k] == pre_active[k]);
                }
            }
        }
        u = u + 1;
    }
    proof {
        lemma_initial_prefix_complete(evs_of(events@), n0 as int, start as int, cd as int);
    }
    Ok(())
}

/// A day's device changes: every active identity may change its device,
/// emitting one event and keeping its number.
#[verifier::rlimit(100)]
fn phase_devices(
    events: &mut Vec<SubscriberEvent>,
    active: &mut Vec<ActiveSub>,
    rng: &mut rand::rngs::StdRng,
    n0: usize,
    start: i64,
    current: i64,
    cd: i64,
    ppm: u32,
)
    requires
        stream_ok(evs_of(old(events)@), n0 as int, start as int, current as int, cd as int),
        active_ok(old(active)@),
        start < current,
        cd >= 0,
    ensures
        stream_ok(evs_of(final(events)@), n0 as int, start as int, current as int, cd as int),
        active_ok(final(active)@),
        final(events)@.len() >= old(events)@.len(),
{
    let na = active.len();
    let mut i: usize = 0;
    while i < na
        invariant
            0 <= i <= na,
            na == active@.len(),
            start < current,
            cd >= 0,
            stream_ok(evs_of(events@), n0 as int, start as int, current as int, cd as int),
            active_ok(active@),
            events@.len() >= old(events)@.len(),
        decreases na - i,
    {
        if rng_below(rng, 1_000_000) < ppm as u64 {
            let new_imei = gen_imei(rng);
            let ghost pre_events = events@;
            let ev = SubscriberEvent {
                timestamp_ms: current,
                event_type: SubscriberEventType::ChangeDevice,
                imsi: active[i].imsi.clone(),
                msisdn: Some(active[i].msisdn.clone()),
                imei: Some(imei_string(new_imei)),
                mccmnc: active[i].mccmnc.clone(),
            };
            events.push(ev);
            let upd = ActiveSub {
                imsi: active[i].imsi.clone(),
                msisdn: active[i].msisdn.clone(),
                imei: new_imei,
                mccmnc: active[i].mccmnc.clone(),
            };
            let ghost pre_active = active@;
            active.set(i, upd);
            proof {
                assert(evs_of(events@) =~= evs_of(pre_events).push(ev@));
                assert(valid_imsi(ev@.imsi) && valid_msisdn(ev@.msisdn->0));
                lemma_stream_push_non_claim(
                    evs_of(pre_events),
                    ev@,
                    n0 as int,
                    start as int,
                    current as int,
                    cd as int,
                );
                assert forall|k: int| 0 <= k < active@.len() implies valid_imsi(
                    (#[trigger] active@[k]).imsi@,
                ) && valid_msisdn(active@[k].msisdn@) by {
                    if k != i {
                        assert(active@[k] == pre_active[k]);
                    }
                }
            }
        }
        i = i + 1;
    }
}

/// A day's number releases: a releasing identity leaves the active set, its
/// number enters the cooldown queue stamped with the release instant.
#[verifier::rlimit(100)]
fn phase_releases(
    events: &mut Vec<SubscriberEvent>,
    active: &mut Vec<ActiveSub>,
    released: &mut Vec<ReleasedNumber>,
    rng: &mut rand::rngs::StdRng,
    n0: usize,
    start: i64,
    current: i64,
    cd: i64,
    ppm: u32,
)
    requires
        stream_ok(evs_of(old(events)@), n0 as int, start as int, current as int, cd as int),
        active_ok(old(active)@),
        queue_ok(old(released)@),
        start < current,
        cd >= 0,
    ensures
        stream_ok(evs_of(final(events)@), n0 as int, start as int, current as int, cd as int),
        active_ok(final(active)@),
        queue_ok(final(released)@),
        final(events)@.len() >= old(events)@.len(),
{
    let mut i: usize = 0;
    while i < active.len()
        invariant
            0 <= i <= active@.len(),
            start < current,
            cd >= 0,
            stream_ok(evs_of(events@), n0 as int, start as int, current as int, cd as int),
            active_ok(active@),
            queue_ok(released@),
            events@.len() >= old(events)@.len(),
        decreases active@.len() - i,
    {
        if rng_below(rng, 1_000_000) < ppm as u64 {
            let ghost pre_events = events@;
            let ghost pre_active = active@;
            let ghost pre_released = released@;
            let sub = active.remove(i);
            let ev = SubscriberEvent {
                timestamp_ms: current,
                event_type: SubscriberEventType::ReleaseNumber,
                imsi: sub.imsi,
                msisdn: Some(sub.msisdn.clone()),
                imei: None,
                mccmnc: sub.mccmnc,
            };
            events.push(ev);
            released.push(ReleasedNumber { msisdn: sub.msisdn, release_time: current });
            proof {
                assert(evs_of(events@) =~= evs_of(pre_events).push(ev@));
                assert(valid_imsi(ev@.imsi) && valid_msisdn(ev@.msisdn->0));
                lemma_stream_push_non_claim(
                    evs_of(pre_events),
                    ev@,
                    n0 as int,
                    start as int,
                    current as int,
                    cd as int,
                );
                assert forall|k: int| 0 <= k < active@.len() implies valid_imsi(
                    (#[trigger] active@[k]).imsi@,
                ) && valid_msisdn(active@[k].msisdn@) by {
                    if k < i {
                        assert(active@[k] == pre_active[k]);
                    } else {
                        assert(active@[k] == pre_active[k + 1]);
                    }
                }
                assert forall|k: int| 0 <= k < released@.len() implies valid_msisdn(
                    (#[trigger] released@[k]).msisdn@,
                ) by {
                    if k < pre_released.len() {
                        assert(released@[k] == pre_released[k]);
                    }
                }
            }
        } else {
            i = i + 1;
        }
    }
}

/// A day's reassignments: a queued number whose cooldown has elapsed goes to
/// a brand-new identity.
#[verifier::rlimit(100)]
fn phase_reassign(
    events: &mut Vec<SubscriberEvent>,
    active: &mut Vec<ActiveSub>,
    released: &mut Vec<ReleasedNumber>,
    counter: &mut u64,
    rng: &mut rand::rngs::StdRng,
    n0: usize,
    start: i64,
    current: i64,
    cd: i64,
    mccmnc_pool: &Vec<String>,
)
    requires
        mccmnc_pool@.len() > 0,
        pool_digits(mccmnc_pool@.map_values(|p: String| p@), 4, 5),
        stream_ok(evs_of(old(events)@), n0 as int, start as int, current as int, cd as int),
        active_ok(old(active)@),
        queue_ok(old(released)@),
        start < current,
        cd >= 0,
    ensures
        stream_ok(evs_of(final(events)@), n0 as int, start as int, current as int, cd as int),
        active_ok(final(active)@),
        queue_ok(final(released)@),
        final(events)@.len() >= old(events)@.len(),
{
    let mut i: usize = 0;
    while i < released.len()
        invariant
            0 <= i <= released@.len(),
            mccmnc_pool@.len() > 0,
            pool_digits(mccmnc_pool@.map_values(|p: String| p@), 4, 5),
            start < current,
            cd >= 0,
            stream_ok(evs_of(events@), n0 as int, start as int, current as int, cd as int),
            active_ok(active@),
            queue_ok(released@),
            events@.len() >= old(events)@.len(),
        decreases released@.len() - i,
    {
        let expired = match current.checked_sub(released[i].release_time) {
            Some(d) => d >= cd,
            None => true,
        };
        // The queue stamp says the cooldown has elapsed; re-check it against
        // the stream itself so that cooldown enforcement is a fact of the
        // events, not of the queue.
        let cleared = expired && releases_cooled(events, released[i].msisdn.as_str(), current, cd);
        if cleared {
            let ghost m_taken = released@[i as int].msisdn@;
            let (imsi, _mcc_of_imsi) = gen_imsi(counter, mccmnc_pool);
            let imei = gen_imei(rng);
            let midx = rng_below(rng, mccmnc_pool.len() as u64) as usize;
            let mccmnc = mccmnc_pool[midx].clone();
            let ev = SubscriberEvent {
                timestamp_ms: current,
                event_type: SubscriberEventType::AssignNumber,
                imsi: imsi.clone(),
                msisdn: Some(released[i].msisdn.clone()),
                imei: Some(imei_string(imei)),
                mccmnc: mccmnc.clone(),
            };
            // Re-check the queue's promises against the stream itself: the
            // number was released, no live ownership stands against the
            // claim, and the minted identifier is new.
            let admissible = released_before(events, released[i].msisdn.as_str())
                && !claim_conflicts(events, &ev) && !claim_imsi_seen(events, imsi.as_str());
            if admissible {
                let ghost pre_events = events@;
                let ghost pre_active = active@;
                let ghost pre_released = released@;
                let entry = released.remove(i);
                events.push(ev);
                active.push(ActiveSub { imsi, msisdn: entry.msisdn, imei, mccmnc });
                proof {
                    assert(evs_of(events@) =~= evs_of(pre_events).push(ev@));
                    assert(ev@.msisdn == Some(m_taken));
                    assert(valid_imsi(ev@.imsi) && valid_msisdn(ev@.msisdn->0));
                    lemma_stream_push_assign(
                        evs_of(pre_events),
                        ev@,
                        n0 as int,
                        start as int,
                        current as int,
                        cd as int,
                    );
                    assert forall|k: int| 0 <= k < released@.len() implies valid_msisdn(
                        (#[trigger] released@[k]).msisdn@,
                    ) by {
                        if k < i {
                            assert(released@[k] == pre_released[k]);
                        } else {
                            assert(released@[k] == pre_released[k + 1]);
                        }
                    }
                    assert forall|k: int| 0 <= k < active@.len() implies valid_imsi(
                        (#[trigger] active@[k]).imsi@,
                    ) && valid_msisdn(active@[k].msisdn@) by {
                        if k < pre_active.len() {
                            assert(active@[k] == pre_active[k]);
                        }
                    }
                }
            } else {
                i = i + 1;
            }
        } else {
            i = i + 1;
        }
    }
}

/// A day's organic growth: with the configured probability one entirely new
/// subscriber joins with a phone number no event carries yet.
#[verifier::rlimit(100)]
fn phase_new_subscriber(
    events: &mut Vec<SubscriberEvent>,
    active: &mut Vec<ActiveSub>,
    used: &mut Vec<String>,
    counter: &mut u64,
    rng: &mut rand::rngs::StdRng,
    n0: usize,
    start: i64,
    current: i64,
    cd: i64,
    ppm: u32,
    prefixes: &Vec<String>,
    mccmnc_pool: &Vec<String>,
) -> (r: Result<(), ConfigError>)
    requires
        prefixes@.len() > 0,
        mccmnc_pool@.len() > 0,
        pool_digits(prefixes@.map_values(|p: String| p@), 1, 8),
        pool_digits(mccmnc_pool@.map_values(|p: String| p@), 4, 5),
        stream_ok(evs_of(old(events)@), n0 as int, start as int, current as int, cd as int),
        active_ok(old(active)@),
        start < current,
        cd >= 0,
    ensures
        match r {
            Ok(()) => stream_ok(
                evs_of(final(events)@),
                n0 as int,
                start as int,
                current as int,
                cd as int,
            ) && active_ok(final(active)@) && final(events)@.len() >= old(events)@.len(),
            Err(e) => e == ConfigError::NumberSpaceExhausted,
        },
{
    if rng_below(rng, 1_000_000) >= ppm as u64 {
        return Ok(());
    }
    let m = match gen_msisdn(rng, used, prefixes) {
        Some(m) => m,
        None => {
            return Err(ConfigError::NumberSpaceExhausted);
        },
    };
    // As in the initial phase: admit only a number no event carries.
    if !msisdn_unseen(events, m.as_str()) {
        return Ok(());
    }
    let (imsi, _mcc_of_imsi) = gen_imsi(counter, mccmnc_pool);
    // As in the initial phase: the identifier must be new to the stream.
    if claim_imsi_seen(events, imsi.as_str()) {
        return Ok(());
    }
    let imei = gen_imei(rng);
    let midx = rng_below(rng, mccmnc_pool.len() as u64) as usize;
    let mccmnc = mccmnc_pool[midx].clone();
    let ghost pre_events = events@;
    used.push(m.clone());
    let ev = SubscriberEvent {
        timestamp_ms: current,
        event_type: SubscriberEventType::NewSubscriber,
        imsi: imsi.clone(),
        msisdn: Some(m.clone()),
        imei: Some(imei_string(imei)),
        mccmnc: mccmnc.clone(),
    };
    events.push(ev);
    let ghost pre_active = active@;
    active.push(ActiveSub { imsi, msisdn: m, imei, mccmnc });
    proof {
        assert(evs_of(events@) =~= evs_of(pre_events).push(ev@));
        assert(ev@.msisdn == Some(m@));
        assert(valid_imsi(ev@.imsi) && valid_msisdn(ev@.msisdn->0));
        lemma_stream_push_new(
            evs_of(pre_events),
            ev@,
            n0 as int,
            start as int,
            current as int,
            cd as int,
        );
        assert forall|k: int| 0 <= k < active@.len() implies valid_imsi(
            (#[trigger] active@[k]).imsi@,
        ) && valid_msisdn(active@[k].msisdn@) by {
            if k < pre_active.len() {
                assert(active@[k] == pre_active[k]);
            }
        }
    }
    Ok(())
}

/// Generates a subscriber event history.
///
/// A malformed configuration is rejected before any work, with the first
/// failing check named; a result other than a configuration error implies
/// every check passed. On success the stream is in non-decreasing timestamp
/// order; it opens with exactly one admission per initial subscriber at the
/// start instant, with everything after strictly later; admissions never
/// take a phone number any earlier event carried; no released number is
/// claimed again until a full cooldown after its release; no claim takes a
/// number another identity still owns; every assignment re-issues a
/// previously released number; and no two claims mint one network
/// identifier.
#[verifier::rlimit(100)]
pub fn generate_database(config: &GeneratorConfig) -> (r: Result<Vec<SubscriberEvent>, ConfigError>)
    ensures
        match r {
            Ok(events) => {
                let evs = events@.map_values(|e: SubscriberEvent| e@);
                &&& config_valid(*config)
                &&& chronological(evs)
                &&& events@.len() >= config.initial_subscribers
                &&& initial_admissions(
                    evs,
                    config.initial_subscribers as int,
                    config.start_timestamp_ms as int,
                )
                &&& cooldown_respected(
                    evs,
                    (config.cooldown_days as int) * (MS_PER_DAY as int),
                )
                &&& new_numbers_fresh(evs)
                &&& ownership_exclusive(evs)
                &&& assignments_from_releases(evs)
                &&& claim_imsis_distinct(evs)
                &&& formats_valid(evs)
            },
            Err(ConfigError::ZeroPopulation) => config.initial_subscribers == 0,
            Err(ConfigError::CooldownExceedsHorizon) => config.initial_subscribers > 0 && (
            config.history_days == 0 || config.cooldown_days >= config.history_days),
            Err(ConfigError::RateOutOfRange) => config.initial_subscribers > 0
                && config.history_days > 0 && config.cooldown_days < config.history_days && (
            config.device_change_daily_ppm > 1_000_000 || config.number_release_daily_ppm
                > 1_000_000 || config.new_subscriber_daily_ppm > 1_000_000),
            Err(ConfigError::EmptyPrefixPool) => config.initial_subscribers > 0
                && config.history_days > 0 && config.cooldown_days < config.history_days
                && config.device_change_daily_ppm <= 1_000_000
                && config.number_release_daily_ppm <= 1_000_000
                && config.new_subscriber_daily_ppm <= 1_000_000 && config.prefixes@.len() == 0,
            Err(ConfigError::EmptyNetworkPool) => config.initial_subscribers > 0
                && config.history_days > 0 && config.cooldown_days < config.history_days
                && config.device_change_daily_ppm <= 1_000_000
                && config.number_release_daily_ppm <= 1_000_000
                && config.new_subscriber_daily_ppm <= 1_000_000 && config.prefixes@.len() > 0
                && config.mccmnc_pool@.len() == 0,
            Err(ConfigError::MalformedPool) => config.initial_subscribers > 0
                && config.history_days > 0 && config.cooldown_days < config.history_days
                && config.device_change_daily_ppm <= 1_000_000
                && config.number_release_daily_ppm <= 1_000_000
                && config.new_subscriber_daily_ppm <= 1_000_000 && config.prefixes@.len() > 0
                && config.mccmnc_pool@.len() > 0 && !(pool_digits(
                config.prefixes@.map_values(|p: String| p@),
                1,
                8,
            ) && pool_digits(config.mccmnc_pool@.map_values(|p: String| p@), 4, 5)),
            Err(ConfigError::HorizonOverflow) => config.initial_subscribers > 0
                && config.history_days > 0 && config.cooldown_days < config.history_days
                && config.device_change_daily_ppm <= 1_000_000
                && config.number_release_daily_ppm <= 1_000_000
                && config.new_subscriber_daily_ppm <= 1_000_000 && config.prefixes@.len() > 0
                && config.mccmnc_pool@.len() > 0 && pool_digits(
                config.prefixes@.map_values(|p: String| p@),
                1,
                8,
            ) && pool_digits(config.mccmnc_pool@.map_values(|p: String| p@), 4, 5) && (
            config.history_days > MAX_HISTORY_DAYS || config.start_timestamp_ms > i64::MAX - (
            config.history_days as int) * (MS_PER_DAY as int)),
            Err(ConfigError::NumberSpaceExhausted) => config_valid(*config),
        },
{
    if config.initial_subscribers == 0 {
        return Err(ConfigError::ZeroPopulation);
    }
    if config.history_days == 0 || config.cooldown_days >= config.history_days {
        return Err(ConfigError::CooldownExceedsHorizon);
    }
    if config.device_change_daily_ppm > 1_000_000 || config.number_release_daily_ppm > 1_000_000
        || config.new_subscriber_daily_ppm > 1_000_000 {
        return Err(ConfigError::RateOutOfRange);
    }
    if config.prefixes.len() == 0 {
        return Err(ConfigError::EmptyPrefixPool);
    }
    if config.mccmnc_pool.len() == 0 {
        return Err(ConfigError::EmptyNetworkPool);
    }
    let mut pi: usize = 0;
    while pi < config.prefixes.len()
        invariant
            0 <= pi <= config.prefixes@.len(),
            config.initial_subscribers > 0,
            config.history_days > 0,
            config.cooldown_days < config.history_days,
            config.device_change_daily_ppm <= 1_000_000,
            config.number_release_daily_ppm <= 1_000_000,
            config.new_subscriber_daily_ppm <= 1_000_000,
            config.prefixes@.len() > 0,
            config.mccmnc_pool@.len() > 0,
            forall|k: int| 0 <= k < pi ==> 1 <= (#[trigger] config.prefixes@[k])@.len() <= 8
                && all_digits(config.prefixes@[k]@),
        decreases config.prefixes@.len() - pi,
    {
        if !crate::subscriber_db::check_digits_len(config.prefixes[pi].as_str(), 1, 8) {
            proof {
                let ps = config.prefixes@.map_values(|p: String| p@);
                assert(ps[pi as int] == config.prefixes@[pi as int]@);
                assert(!pool_digits(ps, 1, 8));
            }
            return Err(ConfigError::MalformedPool);
        }
        pi = pi + 1;
    }
    proof {
        let ps = config.prefixes@.map_values(|p: String| p@);
        assert forall|k: int| 0 <= k < ps.len() implies 1 <= (#[trigger] ps[k]).len() <= 8
            && all_digits(ps[k]) by {
            assert(ps[k] == config.prefixes@[k]@);
        }
    }
    let mut mi: usize = 0;
    while mi < config.mccmnc_pool.len()
        invariant
            0 <= mi <= config.mccmnc_pool@.len(),
            config.initial_subscribers > 0,
            config.history_days > 0,
            config.cooldown_days < config.history_days,
            config.device_change_daily_ppm <= 1_000_000,
            config.number_release_daily_ppm <= 1_000_000,
            config.new_subscriber_daily_ppm <= 1_000_000,
            config.prefixes@.len() > 0,
            config.mccmnc_pool@.len() > 0,
            forall|k: int| 0 <= k < mi ==> 4 <= (#[trigger] config.mccmnc_pool@[k])@.len() <= 5
                && all_digits(config.mccmnc_pool@[k]@),
        decreases config.mccmnc_pool@.len() - mi,
    {
        if !crate::subscriber_db::check_digits_len(config.mccmnc_pool[mi].as_str(), 4, 5) {
            proof {
                let ps = config.mccmnc_pool@.map_values(|p: String| p@);
                assert(ps[mi as int] == config.mccmnc_pool@[mi as int]@);
                assert(!pool_digits(ps, 4, 5));
            }
            return Err(ConfigError::MalformedPool);
        }
        mi = mi + 1;
    }
    proof {
        let ps = config.mccmnc_pool@.map_values(|p: String| p@);
        assert forall|k: int| 0 <= k < ps.len() implies 4 <= (#[trigger] ps[k]).len() <= 5
            && all_digits(ps[k]) by {
            assert(ps[k] == config.mccmnc_pool@[k]@);
        }
    }
    if config.history_days > MAX_HISTORY_DAYS {
        return Err(ConfigError::HorizonOverflow);
    }
    let span: i64 = (config.history_days as i64) * MS_PER_DAY;
    if config.start_timestamp_ms > i64::MAX - span {
        return Err(ConfigError::HorizonOverflow);
    }
    let start = config.start_timestamp_ms;
    let cd: i64 = (config.cooldown_days as i64) * MS_PER_DAY;

    let mut rng = rng_from_seed(config.seed);
    let mut events: Vec<SubscriberEvent> = Vec::new();
    let mut active: Vec<ActiveSub> = Vec::new();
    let mut released: Vec<ReleasedNumber> = Vec::new();
    let mut used: Vec<String> = Vec::new();
    let mut counter: u64 = 0;

    // The initial population.
    let n0 = config.initial_subscribers;
    match phase_initial(
        &mut events,
        &mut active,
        &mut used,
        &mut counter,
        &mut rng,
        n0,
        start,
        cd,
        &config.prefixes,
        &config.mccmnc_pool,
    ) {
        Ok(()) => (),
        Err(e) => {
            return Err(e);
        },
    }

    proof {
        assert(queue_ok(released@));
    }

    // The daily loop: device changes, releases, cooldown reassignments,
    // organic growth.
    let mut day: usize = 1;
    while day < config.history_days
        invariant
            1 <= day <= config.history_days,
            config_valid(*config),
            cd >= 0,
            n0 == config.initial_subscribers,
            start == config.start_timestamp_ms,
            events@.len() >= n0,
            active_ok(active@),
            queue_ok(released@),
            stream_ok(
                evs_of(events@),
                n0 as int,
                start as int,
                start + (day - 1) * (MS_PER_DAY as int),
                cd as int,
            ),
        decreases config.history_days - day,
    {
        let current: i64 = start + (day as i64) * MS_PER_DAY;
        proof {
            lemma_stream_ok_mono(
                evs_of(events@),
                n0 as int,
                start as int,
                start + (day - 1) * (MS_PER_DAY as int),
                current as int,
                cd as int,
            );
        }
        phase_devices(
            &mut events,
            &mut active,
            &mut rng,
            n0,
            start,
            current,
            cd,
            config.device_change_daily_ppm,
        );
        phase_releases(
            &mut events,
            &mut active,
            &mut released,
            &mut rng,
            n0,
            start,
            current,
            cd,
            config.number_release_daily_ppm,
        );
        phase_reassign(
            &mut events,
            &mut active,
            &mut released,
            &mut counter,
            &mut rng,
            n0,
            start,
            current,
            cd,
            &config.mccmnc_pool,
        );
        match phase_new_subscriber(
            &mut events,
            &mut active,
            &mut used,
            &mut counter,
            &mut rng,
            n0,
            start,
            current,
            cd,
            config.new_subscriber_daily_ppm,
            &config.prefixes,
            &config.mccmnc_pool,
        ) {
            Ok(()) => (),
            Err(e) => {
                return Err(e);
            },
        }
        day = day + 1;
    }
    proof {
        assert(cd as int == (config.cooldown_days as int) * (MS_PER_DAY as int));
        lemma_stream_ok_unfold(
            evs_of(events@),
            n0 as int,
            start as int,
            start + (day - 1) * (MS_PER_DAY as int),
            cd as int,
        );
    }
    Ok(events)
}

} // verus!

//! The subscriber event model and the event-sourced database over it:
//! lifecycle events, stream validation (chronology, phone-number ownership
//! exclusivity, identifier formats), snapshot compaction, and point-in-time
//! queries.

use vstd::prelude::*;
use vstd::pervasive::VecAdditionalExecFns;
use crate::ids::{
    all_digits, i64_text, i64_text_value, i64_to_string, is_i64_text, parse_i64_text,
    push_char, append_str,
};
use crate::text::{split_commas, split_at_commas, str_eq};

verus! {

/// The kinds of subscriber lifecycle events.
#[derive(Debug, Clone, Copy, PartialEq, Eq, Structural)]
pub enum SubscriberEventType {
    /// A new subscriber joins the network: IMSI, MSISDN and IMEI assigned.
    NewSubscriber,
    /// The subscriber changes device: IMEI changes, IMSI and MSISDN stay.
    ChangeDevice,
    /// The subscriber changes SIM: IMSI changes, MSISDN stays.
    ChangeSim,
    /// The phone number is released: MSISDN freed, IMEI removed.
    ReleaseNumber,
    /// The phone number is assigned to a different subscriber.
    AssignNumber,
}

/// Why a piece of event text was rejected.
#[derive(Debug, Clone, Copy, PartialEq, Eq, Structural)]
pub enum ParseError {
    /// The line does not have exactly six comma-separated fields.
    WrongFieldCount,
    /// The timestamp field is not a decimal `i64`.
    BadTimestamp,
    /// The event-type field names no known event type.
    UnknownEventType,
    /// A numeric identifier field is not a decimal number of its range.
    BadIdentifier,
}

/// The interchange name of an event type.
pub open spec fn spec_type_name(t: SubscriberEventType) -> Seq<char> {
    match t {
        SubscriberEventType::NewSubscriber => "NEW_SUBSCRIBER"@,
        SubscriberEventType::ChangeDevice => "CHANGE_DEVICE"@,
        SubscriberEventType::ChangeSim => "CHANGE_SIM"@,
        SubscriberEventType::ReleaseNumber => "RELEASE_NUMBER"@,
        SubscriberEventType::AssignNumber => "ASSIGN_NUMBER"@,
    }
}

/// The event type named by a piece of text, if any.
pub open spec fn spec_type_of_name(s: Seq<char>) -> Option<SubscriberEventType> {
    if s == spec_type_name(SubscriberEventType::NewSubscriber) {
        Some(SubscriberEventType::NewSubscriber)
    } else if s == spec_type_name(SubscriberEventType::ChangeDevice) {
        Some(SubscriberEventType::ChangeDevice)
    } else if s == spec_type_name(SubscriberEventType::ChangeSim) {
        Some(SubscriberEventType::ChangeSim)
    } else if s == spec_type_name(SubscriberEventType::ReleaseNumber) {
        Some(SubscriberEventType::ReleaseNumber)
    } else if s == spec_type_name(SubscriberEventType::AssignNumber) {
        Some(SubscriberEventType::AssignNumber)
    } else {
        None
    }
}

/// The fixed-width column code of an event type.
pub open spec fn spec_type_code(t: SubscriberEventType) -> nat {
    match t {
        SubscriberEventType::NewSubscriber => 0,
        SubscriberEventType::ChangeDevice => 1,
        SubscriberEventType::ChangeSim => 2,
        SubscriberEventType::ReleaseNumber => 3,
        SubscriberEventType::AssignNumber => 4,
    }
}

impl SubscriberEventType {
    /// Parses an interchange event-type name.
    pub fn from_str(s: &str) -> (r: Result<Self, ParseError>)
        ensures
            match r {
                Ok(t) => spec_type_of_name(s@) == Some(t),
                Err(e) => spec_type_of_name(s@) is None && e == ParseError::UnknownEventType,
            },
    {
        if str_eq(s, "NEW_SUBSCRIBER") {
            Ok(SubscriberEventType::NewSubscriber)
        } else if str_eq(s, "CHANGE_DEVICE") {
            Ok(SubscriberEventType::ChangeDevice)
        } else if str_eq(s, "CHANGE_SIM") {
            Ok(SubscriberEventType::ChangeSim)
        } else if str_eq(s, "RELEASE_NUMBER") {
            Ok(SubscriberEventType::ReleaseNumber)
        } else if str_eq(s, "ASSIGN_NUMBER") {
            Ok(SubscriberEventType::AssignNumber)
        } else {
            Err(ParseError::UnknownEventType)
        }
    }

    /// The interchange name of this event type.
    pub fn to_str(&self) -> (r: &'static str)
        ensures
            r@ == spec_type_name(*self),
    {
        match self {
            SubscriberEventType::NewSubscriber => "NEW_SUBSCRIBER",
            SubscriberEventType::ChangeDevice => "CHANGE_DEVICE",
            SubscriberEventType::ChangeSim => "CHANGE_SIM",
            SubscriberEventType::ReleaseNumber => "RELEASE_NUMBER",
            SubscriberEventType::AssignNumber => "ASSIGN_NUMBER",
        }
    }

    /// The fixed-width column code of this event type.
    pub fn to_code(&self) -> (r: u8)
        ensures
            r as nat == spec_type_code(*self),
    {
        match self {
            SubscriberEventType::NewSubscriber => 0,
            SubscriberEventType::ChangeDevice => 1,
            SubscriberEventType::ChangeSim => 2,
            SubscriberEventType::ReleaseNumber => 3,
            SubscriberEventType::AssignNumber => 4,
        }
    }

    /// The event type of a fixed-width column code, if the code is known.
    pub fn from_code(code: u8) -> (r: Option<Self>)
        ensures
            match r {
                Some(t) => spec_type_code(t) == code as nat,
                None => code > 4,
            },
    {
        match code {
            0 => Some(SubscriberEventType::NewSubscriber),
            1 => Some(SubscriberEventType::ChangeDevice),
            2 => Some(SubscriberEventType::ChangeSim),
            3 => Some(SubscriberEventType::ReleaseNumber),
            4 => Some(SubscriberEventType::AssignNumber),
            _ => None,
        }
    }
}

/// A single event in subscriber history.
#[derive(Debug, Clone)]
pub struct SubscriberEvent {
    pub timestamp_ms: i64,
    pub event_type: SubscriberEventType,
    pub imsi: String,
    pub msisdn: Option<String>,
    pub imei: Option<String>,
    pub mccmnc: String,
}

/// The mathematical content of a `SubscriberEvent`.
pub ghost struct SubscriberEventView {
    pub timestamp_ms: int,
    pub event_type: SubscriberEventType,
    pub imsi: Seq<char>,
    pub msisdn: Option<Seq<char>>,
    pub imei: Option<Seq<char>>,
    pub mccmnc: Seq<char>,
}

impl View for SubscriberEvent {
    type V = SubscriberEventView;

    open spec fn view(&self) -> SubscriberEventView {
        SubscriberEventView {
            timestamp_ms: self.timestamp_ms as int,
            event_type: self.event_type,
            imsi: self.imsi@,
            msisdn: match self.msisdn {
                Some(s) => Some(s@),
                None => None,
            },
            imei: match self.imei {
                Some(s) => Some(s@),
                None => None,
            },
            mccmnc: self.mccmnc@,
        }
    }
}

/// An optional field's interchange text: empty when absent.
pub open spec fn opt_field_text(o: Option<Seq<char>>) -> Seq<char> {
    match o {
        Some(s) => s,
        None => Seq::empty(),
    }
}

/// The comma-separated interchange line of an event:
/// `timestamp_ms,event_type,imsi,msisdn,imei,mccmnc`.
pub open spec fn event_csv_line(e: SubscriberEventView) -> Seq<char> {
    i64_text(e.timestamp_ms) + seq![','] + spec_type_name(e.event_type) + seq![','] + e.imsi
        + seq![','] + opt_field_text(e.msisdn) + seq![','] + opt_field_text(e.imei) + seq![',']
        + e.mccmnc
}

/// The event denoted by one interchange line, if well-formed. An empty
/// msisdn or imei field denotes an absent value.
pub open spec fn spec_parse_event_line(s: Seq<char>) -> Option<SubscriberEventView> {
    let parts = split_commas(s);
    if parts.len() != 6 {
        None
    } else if !is_i64_text(parts[0]) {
        None
    } else if spec_type_of_name(parts[1]) is None {
        None
    } else {
        Some(SubscriberEventView {
            timestamp_ms: i64_text_value(parts[0]),
            event_type: spec_type_of_name(parts[1])->Some_0,
            imsi: parts[2],
            msisdn: if parts[3].len() == 0 {
                None
            } else {
                Some(parts[3])
            },
            imei: if parts[4].len() == 0 {
                None
            } else {
                Some(parts[4])
            },
            mccmnc: parts[5],
        })
    }
}

/// Renders an event as one interchange line.
pub fn event_to_csv_line(e: &SubscriberEvent) -> (r: String)
    ensures
        r@ == event_csv_line(e@),
{
    let mut r = i64_to_string(e.timestamp_ms);
    push_char(&mut r, ',');
    append_str(&mut r, e.event_type.to_str());
    push_char(&mut r, ',');
    append_str(&mut r, e.imsi.as_str());
    push_char(&mut r, ',');
    match &e.msisdn {
        Some(m) => append_str(&mut r, m.as_str()),
        None => (),
    }
    push_char(&mut r, ',');
    match &e.imei {
        Some(m) => append_str(&mut r, m.as_str()),
        None => (),
    }
    push_char(&mut r, ',');
    append_str(&mut r, e.mccmnc.as_str());
    proof {
        assert(r@ =~= event_csv_line(e@));
    }
    r
}

/// Parses one interchange line as an event.
///
/// Returns `Ok` exactly on the lines that denote an event; the error says
/// which check failed first.
pub fn parse_event_line(line: &str) -> (r: Result<SubscriberEvent, ParseError>)
    ensures
        match r {
            Ok(ev) => spec_parse_event_line(line@) == Some(ev@),
            Err(e) => spec_parse_event_line(line@) is None && {
                let parts = split_commas(line@);
                match e {
                    ParseError::WrongFieldCount => parts.len() != 6,
                    ParseError::BadTimestamp => parts.len() == 6 && !is_i64_text(parts[0]),
                    ParseError::UnknownEventType => parts.len() == 6 && is_i64_text(parts[0])
                        && spec_type_of_name(parts[1]) is None,
                    ParseError::BadIdentifier => false,
                }
            },
        },
{
    let mut parts = split_at_commas(line);
    let ghost sp = split_commas(line@);
    proof {
        assert(parts@.map_values(|t: String| t@) == sp);
        assert(parts@.len() == sp.len());
    }
    if parts.len() != 6 {
        return Err(ParseError::WrongFieldCount);
    }
    proof {
        assert forall|i: int| 0 <= i < 6 implies #[trigger] parts@[i]@ == sp[i] by {
            assert(parts@.map_values(|t: String| t@)[i] == sp[i]);
        }
    }
    let mccmnc = parts.pop().unwrap();
    let imei_s = parts.pop().unwrap();
    let msisdn_s = parts.pop().unwrap();
    let imsi = parts.pop().unwrap();
    let type_s = parts.pop().unwrap();
    let ts_s = parts.pop().unwrap();
    let timestamp_ms = match parse_i64_text(ts_s.as_str()) {
        Some(v) => v,
        None => {
            return Err(ParseError::BadTimestamp);
        },
    };
    let event_type = match SubscriberEventType::from_str(type_s.as_str()) {
        Ok(t) => t,
        Err(_) => {
            return Err(ParseError::UnknownEventType);
        },
    };
    let msisdn = if msisdn_s.as_str().is_empty() {
        None
    } else {
        Some(msisdn_s)
    };
    let imei = if imei_s.as_str().is_empty() {
        None
    } else {
        Some(imei_s)
    };
    let ev = SubscriberEvent { timestamp_ms, event_type, imsi, msisdn, imei, mccmnc };
    proof {
        assert(spec_parse_event_line(line@) == Some(ev@));
    }
    Ok(ev)
}

/// A valid IMSI: fourteen or fifteen decimal digits.
pub open spec fn valid_imsi(s: Seq<char>) -> bool {
    14 <= s.len() <= 15 && all_digits(s)
}

/// A valid MSISDN: eight to fifteen decimal digits.
pub open spec fn valid_msisdn(s: Seq<char>) -> bool {
    8 <= s.len() <= 15 && all_digits(s)
}

/// A valid IMEI: exactly fifteen decimal digits.
pub open spec fn valid_imei(s: Seq<char>) -> bool {
    s.len() == 15 && all_digits(s)
}

/// Timestamps never decrease along the stream.
pub open spec fn chronological(events: Seq<SubscriberEventView>) -> bool {
    forall|i: int| 1 <= i < events.len()
        ==> events[i - 1].timestamp_ms <= #[trigger] events[i].timestamp_ms
}

/// The ownership record the validator keeps per phone number: the identity
/// holding it, since when, and until when if it has been released.
pub ghost struct Ownership {
    pub imsi: Seq<char>,
    pub since: int,
    pub until: Option<int>,
}

/// How one event changes the per-number ownership map: an assignment takes
/// the number over, a release by the current owner closes its interval.
pub open spec fn ownership_step(
    m: Map<Seq<char>, Ownership>,
    e: SubscriberEventView,
) -> Map<Seq<char>, Ownership> {
    match e.msisdn {
        None => m,
        Some(ms) => match e.event_type {
            SubscriberEventType::NewSubscriber | SubscriberEventType::AssignNumber => m.insert(
                ms,
                Ownership { imsi: e.imsi, since: e.timestamp_ms, until: None },
            ),
            SubscriberEventType::ReleaseNumber => {
                if m.contains_key(ms) && m[ms].imsi == e.imsi {
                    m.insert(ms, Ownership { until: Some(e.timestamp_ms), ..m[ms] })
                } else {
                    m
                }
            },
            _ => m,
        },
    }
}

/// The ownership map after the first `n` events.
pub open spec fn ownership_after(
    events: Seq<SubscriberEventView>,
    n: int,
) -> Map<Seq<char>, Ownership>
    decreases n,
{
    if n <= 0 {
        Map::empty()
    } else {
        ownership_step(ownership_after(events, n - 1), events[n - 1])
    }
}

/// Event `i` claims a phone number that a different identity still owns at
/// that instant.
pub open spec fn conflict_at(events: Seq<SubscriberEventView>, i: int) -> bool {
    let e = events[i];
    let m = ownership_after(events, i);
    &&& e.msisdn is Some
    &&& (e.event_type == SubscriberEventType::NewSubscriber || e.event_type
        == SubscriberEventType::AssignNumber)
    &&& {
        let ms = e.msisdn->0;
        &&& m.contains_key(ms)
        &&& (m[ms].until is None || m[ms].until->0 > e.timestamp_ms)
        &&& m[ms].imsi != e.imsi
    }
}

/// No event claims a number owned by another identity at the same time.
pub open spec fn ownership_exclusive(events: Seq<SubscriberEventView>) -> bool {
    forall|i: int| 0 <= i < events.len() ==> !#[trigger] conflict_at(events, i)
}

/// Every identifier of every event is well-formed.
pub open spec fn formats_valid(events: Seq<SubscriberEventView>) -> bool {
    forall|i: int| 0 <= i < events.len() ==> {
        let e = #[trigger] events[i];
        &&& valid_imsi(e.imsi)
        &&& (e.msisdn is Some ==> valid_msisdn(e.msisdn->0))
        &&& (e.imei is Some ==> valid_imei(e.imei->0))
    }
}

/// The first integrity violation the validator found.
#[derive(Debug, Clone, PartialEq, Eq)]
pub enum ValidationError {
    /// The event at `index` is earlier than its predecessor.
    NotChronological { index: usize },
    /// The event at `index` claims a number that `owner_imsi` still owns.
    OwnershipConflict { index: usize, owner_imsi: String },
    /// The event at `index` has a malformed IMSI.
    BadImsi { index: usize },
    /// The event at `index` has a malformed MSISDN.
    BadMsisdn { index: usize },
    /// The event at `index` has a malformed IMEI.
    BadImei { index: usize },
}

/// A snapshot of subscriber state over a validity interval: valid from
/// `valid_from` (inclusive) to `valid_to` (exclusive; `None` means open).
#[derive(Debug, Clone)]
pub struct SubscriberSnapshot {
    pub imsi: String,
    pub msisdn: String,
    pub imei: String,
    pub mccmnc: String,
    pub valid_from: i64,
    pub valid_to: Option<i64>,
}

/// The mathematical content of a `SubscriberSnapshot`.
pub ghost struct SnapshotView {
    pub imsi: Seq<char>,
    pub msisdn: Seq<char>,
    pub imei: Seq<char>,
    pub mccmnc: Seq<char>,
    pub valid_from: int,
    pub valid_to: Option<int>,
}

impl View for SubscriberSnapshot {
    type V = SnapshotView;

    open spec fn view(&self) -> SnapshotView {
        SnapshotView {
            imsi: self.imsi@,
            msisdn: self.msisdn@,
            imei: self.imei@,
            mccmnc: self.mccmnc@,
            valid_from: self.valid_from as int,
            valid_to: match self.valid_to {
                Some(t) => Some(t as int),
                None => None,
            },
        }
    }
}

/// `t` lies inside the snapshot's validity interval.
pub open spec fn snapshot_contains(s: SnapshotView, t: int) -> bool {
    s.valid_from <= t && match s.valid_to {
        Some(end) => t < end,
        None => true,
    }
}

/// The event-sourced subscriber database: a validated event stream, the
/// distinct identities seen in it, and the compacted snapshots.
#[derive(Debug)]
pub struct SubscriberDatabase {
    events: Vec<SubscriberEvent>,
    unique_imsis: Vec<String>,
    snapshots: Vec<SubscriberSnapshot>,
}

/// The distinct IMSIs of an event stream, in order of first appearance.
pub open spec fn unique_imsis_of(events: Seq<SubscriberEventView>) -> Seq<Seq<char>>
    decreases events.len(),
{
    if events.len() == 0 {
        Seq::empty()
    } else {
        let p = unique_imsis_of(events.drop_last());
        if p.contains(events.last().imsi) {
            p
        } else {
            p.push(events.last().imsi)
        }
    }
}

// An association list from phone number to ownership record, and its map
// meaning. The validator keeps ownership state this way so that the map in
// the contracts has a concrete, deterministic realization.
struct OwnershipRecord {
    imsi: String,
    since: i64,
    until: Option<i64>,
}

impl View for OwnershipRecord {
    type V = Ownership;

    closed spec fn view(&self) -> Ownership {
        Ownership {
            imsi: self.imsi@,
            since: self.since as int,
            until: match self.until {
                Some(t) => Some(t as int),
                None => None,
            },
        }
    }
}

spec fn distinct_keys(v: Seq<(String, OwnershipRecord)>) -> bool {
    forall|i: int, j: int| 0 <= i < j < v.len() ==> v[i].0@ != v[j].0@
}

spec fn owners_view(v: Seq<(String, OwnershipRecord)>) -> Map<Seq<char>, Ownership>
    decreases v.len(),
{
    if v.len() == 0 {
        Map::empty()
    } else {
        owners_view(v.drop_last()).insert(v.last().0@, v.last().1@)
    }
}

proof fn lemma_owners_view_absent(v: Seq<(String, OwnershipRecord)>, k: Seq<char>)
    requires
        forall|i: int| 0 <= i < v.len() ==> (#[trigger] v[i]).0@ != k,
    ensures
        !owners_view(v).contains_key(k),
    decreases v.len(),
{
    if v.len() > 0 {
        lemma_owners_view_absent(v.drop_last(), k);
    }
}

proof fn lemma_owners_view_get(v: Seq<(String, OwnershipRecord)>, j: int)
    requires
        distinct_keys(v),
        0 <= j < v.len(),
    ensures
        owners_view(v).contains_key(v[j].0@),
        owners_view(v)[v[j].0@] == v[j].1@,
    decreases v.len(),
{
    if j == v.len() - 1 {
    } else {
        assert(distinct_keys(v.drop_last()));
        assert(v.drop_last()[j] == v[j]);
        lemma_owners_view_get(v.drop_last(), j);
        assert(v.last().0@ != v[j].0@);
    }
}

proof fn lemma_owners_view_update(
    v: Seq<(String, OwnershipRecord)>,
    j: int,
    p: (String, OwnershipRecord),
)
    requires
        distinct_keys(v),
        0 <= j < v.len(),
        p.0@ == v[j].0@,
    ensures
        owners_view(v.update(j, p)) =~= owners_view(v).insert(p.0@, p.1@),
        distinct_keys(v.update(j, p)),
    decreases v.len(),
{
    if j == v.len() - 1 {
        assert(v.update(j, p).drop_last() =~= v.drop_last());
        assert(v.update(j, p).last() == p);
    } else {
        assert(distinct_keys(v.drop_last()));
        assert(v.drop_last()[j] == v[j]);
        lemma_owners_view_update(v.drop_last(), j, p);
        assert(v.update(j, p).drop_last() =~= v.drop_last().update(j, p));
        assert(v.update(j, p).last() == v.last());
        assert(v.last().0@ != p.0@);
        assert(owners_view(v.drop_last()).insert(p.0@, p.1@).insert(v.last().0@, v.last().1@)
            =~= owners_view(v.drop_last()).insert(v.last().0@, v.last().1@).insert(p.0@, p.1@));
    }
}

/// Finds the association-list entry for a phone number.
fn find_owner(owners: &Vec<(String, OwnershipRecord)>, key: &str) -> (r: Option<usize>)
    ensures
        match r {
            Some(j) => j < owners@.len() && owners@[j as int].0@ == key@,
            None => forall|i: int| 0 <= i < owners@.len() ==> (#[trigger] owners@[i]).0@ != key@,
        },
{
    let n = owners.len();
    let mut i: usize = 0;
    while i < n
        invariant
            0 <= i <= n,
            n == owners@.len(),
            forall|j: int| 0 <= j < i ==> (#[trigger] owners@[j]).0@ != key@,
        decreases n - i,
    {
        if str_eq(owners[i].0.as_str(), key) {
            return Some(i);
        }
        i = i + 1;
    }
    None
}

impl SubscriberDatabase {
    /// The event stream held by the database.
    pub closed spec fn spec_events(&self) -> Seq<SubscriberEventView> {
        self.events@.map_values(|e: SubscriberEvent| e@)
    }

    /// The compacted snapshots, if `build_snapshots` has run.
    pub closed spec fn spec_snapshots(&self) -> Seq<SnapshotView> {
        self.snapshots@.map_values(|s: SubscriberSnapshot| s@)
    }

    /// The distinct identities of the stream, in order of first appearance.
    pub closed spec fn spec_imsis(&self) -> Seq<Seq<char>> {
        self.unique_imsis@.map_values(|s: String| s@)
    }

    /// Creates an empty database.
    pub fn new() -> (r: Self)
        ensures
            r.spec_events() == Seq::<SubscriberEventView>::empty(),
            r.spec_snapshots() == Seq::<SnapshotView>::empty(),
            r.spec_imsis() == Seq::<Seq<char>>::empty(),
    {
        let r = SubscriberDatabase { events: Vec::new(), unique_imsis: Vec::new(), snapshots: Vec::new() };
        proof {
            assert(r.spec_events() =~= Seq::<SubscriberEventView>::empty());
            assert(r.spec_snapshots() =~= Seq::<SnapshotView>::empty());
            assert(r.spec_imsis() =~= Seq::<Seq<char>>::empty());
        }
        r
    }

    /// Builds a database over a complete event stream. Snapshots are not
    /// compacted yet; call `build_snapshots` for point-in-time queries.
    pub fn from_events(events: Vec<SubscriberEvent>) -> (r: Self)
        ensures
            r.spec_events() == events@.map_values(|e: SubscriberEvent| e@),
            r.spec_snapshots() == Seq::<SnapshotView>::empty(),
            r.spec_imsis() == unique_imsis_of(events@.map_values(|e: SubscriberEvent| e@)),
    {
        let mut r = SubscriberDatabase { events, unique_imsis: Vec::new(), snapshots: Vec::new() };
        r.build_indices();
        proof {
            assert(r.spec_snapshots() =~= Seq::<SnapshotView>::empty());
        }
        r
    }

    /// Recomputes the distinct-identity index from the event stream.
    fn build_indices(&mut self)
        ensures
            final(self).events == old(self).events,
            final(self).snapshots == old(self).snapshots,
            final(self).spec_imsis() == unique_imsis_of(final(self).spec_events()),
    {
        let ghost evs = self.spec_events();
        let mut imsis: Vec<String> = Vec::new();
        let n = self.events.len();
        let mut i: usize = 0;
        while i < n
            invariant
                0 <= i <= n,
                n == self.events@.len(),
                evs == self.spec_events(),
                imsis@.map_values(|s: String| s@) =~= unique_imsis_of(evs.take(i as int)),
            decreases n - i,
        {
            proof {
                assert(evs.take(i + 1).drop_last() =~= evs.take(i as int));
                assert(evs.take(i + 1).last() == evs[i as int]);
                assert(evs[i as int] == self.events@[i as int]@);
            }
            let im = &self.events[i].imsi;
            let mut found = false;
            let k = imsis.len();
            let mut j: usize = 0;
            while j < k
                invariant
                    0 <= j <= k,
                    k == imsis@.len(),
                    found <==> exists|l: int| 0 <= l < j && (#[trigger] imsis@[l])@ == im@,
                decreases k - j,
            {
                if str_eq(imsis[j].as_str(), im.as_str()) {
                    found = true;
                    proof {
                        assert(0 <= j < k && imsis@[j as int]@ == im@);
                    }
                    j = k;
                } else {
                    j = j + 1;
                }
            }
            proof {
                let mapped = imsis@.map_values(|s: String| s@);
                if found {
                    let l = choose|l: int| 0 <= l < imsis@.len() && (#[trigger] imsis@[l])@ == im@;
                    assert(mapped[l] == im@);
                    assert(mapped.contains(im@));
                } else {
                    assert forall|l: int| 0 <= l < mapped.len() implies mapped[l] != im@ by {
                        assert(imsis@[l]@ != im@);
                    }
                    assert(!mapped.contains(im@));
                }
            }
            if !found {
                imsis.push(im.clone());
                proof {
                    assert(imsis@.map_values(|s: String| s@) =~= unique_imsis_of(
                        evs.take(i + 1)));
                }
            } else {
                proof {
                    assert(imsis@.map_values(|s: String| s@) =~= unique_imsis_of(
                        evs.take(i + 1)));
                }
            }
            i = i + 1;
        }
        proof {
            assert(evs.take(n as int) =~= evs);
        }
        self.unique_imsis = imsis;
    }

    /// Checks the stream for chronological order, phone-number ownership
    /// exclusivity, and identifier formats, in that order; reports the first
    /// violation of the first failing check.
    #[verifier::rlimit(80)]
    pub fn validate(&self) -> (r: Result<(), ValidationError>)
        ensures
            ({
                let evs = self.spec_events();
                match r {
                    Ok(()) => chronological(evs) && ownership_exclusive(evs) && formats_valid(
                        evs,
                    ),
                    Err(e) => match e {
                        ValidationError::NotChronological { index } => {
                            &&& 1 <= index < evs.len()
                            &&& evs[index as int].timestamp_ms < evs[index - 1].timestamp_ms
                            &&& forall|j: int| 1 <= j < index
                                ==> (#[trigger] evs[j]).timestamp_ms >= evs[j - 1].timestamp_ms
                        },
                        ValidationError::OwnershipConflict { index, owner_imsi } => {
                            &&& chronological(evs)
                            &&& 0 <= index < evs.len()
                            &&& conflict_at(evs, index as int)
                            &&& owner_imsi@ == ownership_after(
                                evs,
                                index as int,
                            )[evs[index as int].msisdn->0].imsi
                            &&& forall|j: int| 0 <= j < index ==> !#[trigger] conflict_at(evs, j)
                        },
                        ValidationError::BadImsi { index } => {
                            &&& chronological(evs) && ownership_exclusive(evs)
                            &&& 0 <= index < evs.len()
                            &&& !valid_imsi(evs[index as int].imsi)
                            &&& forall|j: int| 0 <= j < index ==> valid_imsi(
                                (#[trigger] evs[j]).imsi,
                            )
                        },
                        ValidationError::BadMsisdn { index } => {
                            &&& chronological(evs) && ownership_exclusive(evs)
                            &&& forall|j: int| 0 <= j < evs.len() ==> valid_imsi(
                                (#[trigger] evs[j]).imsi,
                            )
                            &&& 0 <= index < evs.len()
                            &&& evs[index as int].msisdn is Some
                            &&& !valid_msisdn(evs[index as int].msisdn->0)
                            &&& forall|j: int| 0 <= j < index
                                ==> ((#[trigger] evs[j]).msisdn is Some ==> valid_msisdn(
                                    evs[j].msisdn->0,
                                ))
                        },
                        ValidationError::BadImei { index } => {
                            &&& chronological(evs) && ownership_exclusive(evs)
                            &&& forall|j: int| 0 <= j < evs.len() ==> valid_imsi(
                                (#[trigger] evs[j]).imsi,
                            )
                            &&& forall|j: int| 0 <= j < evs.len()
                                ==> ((#[trigger] evs[j]).msisdn is Some ==> valid_msisdn(
                                    evs[j].msisdn->0,
                                ))
                            &&& 0 <= index < evs.len()
                            &&& evs[index as int].imei is Some
                            &&& !valid_imei(evs[index as int].imei->0)
                            &&& forall|j: int| 0 <= j < index
                                ==> ((#[trigger] evs[j]).imei is Some ==> valid_imei(
                                    evs[j].imei->0,
                                ))
                        },
                    },
                }
            }),
    {
        let ghost evs = self.spec_events();
        let n = self.events.len();

        // Chronological order.
        let mut i: usize = 1;
        while i < n
            invariant
                1 <= i <= n || (n == 0 && i == 1),
                n == self.events@.len(),
                evs == self.spec_events(),
                forall|j: int| 1 <= j < i
                    ==> (#[trigger] evs[j]).timestamp_ms >= evs[j - 1].timestamp_ms,
            decreases n - i,
        {
            if self.events[i].timestamp_ms < self.events[i - 1].timestamp_ms {
                return Err(ValidationError::NotChronological { index: i });
            }
            i = i + 1;
        }
        assert(chronological(evs));

        // Phone-number ownership exclusivity.
        let mut owners: Vec<(String, OwnershipRecord)> = Vec::new();
        let mut i: usize = 0;
        while i < n
            invariant
                0 <= i <= n,
                n == self.events@.len(),
                evs == self.spec_events(),
                chronological(evs),
                distinct_keys(owners@),
                owners_view(owners@) == ownership_after(evs, i as int),
                forall|j: int| 0 <= j < i ==> !#[trigger] conflict_at(evs, j),
            decreases n - i,
        {
            let e = &self.events[i];
            proof {
                assert(evs[i as int] == self.events@[i as int]@);
            }
            let is_claim = match e.event_type {
                SubscriberEventType::NewSubscriber => true,
                SubscriberEventType::AssignNumber => true,
                _ => false,
            };
            let is_release = match e.event_type {
                SubscriberEventType::ReleaseNumber => true,
                _ => false,
            };
            match &e.msisdn {
                Some(ms) => {
                    if is_claim {
                        match find_owner(&owners, ms.as_str()) {
                            Some(j) => {
                                proof {
                                    lemma_owners_view_get(owners@, j as int);
                                }
                                let live = match owners[j].1.until {
                                    None => true,
                                    Some(t) => t > e.timestamp_ms,
                                };
                                if live && !str_eq(owners[j].1.imsi.as_str(), e.imsi.as_str()) {
                                    assert(conflict_at(evs, i as int));
                                    return Err(
                                        ValidationError::OwnershipConflict {
                                            index: i,
                                            owner_imsi: owners[j].1.imsi.clone(),
                                        },
                                    );
                                }
                                assert(!conflict_at(evs, i as int));
                                let rec = OwnershipRecord {
                                    imsi: e.imsi.clone(),
                                    since: e.timestamp_ms,
                                    until: None,
                                };
                                let pair = (ms.clone(), rec);
                                proof {
                                    lemma_owners_view_update(owners@, j as int, pair);
                                }
                                owners.set(j, pair);
                            },
                            None => {
                                proof {
                                    lemma_owners_view_absent(owners@, ms@);
                                }
                                assert(!conflict_at(evs, i as int));
                                let ghost prev = owners@;
                                owners.push(
                                    (
                                        ms.clone(),
                                        OwnershipRecord {
                                            imsi: e.imsi.clone(),
                                            since: e.timestamp_ms,
                                            until: None,
                                        },
                                    ),
                                );
                                proof {
                                    assert(owners@.drop_last() =~= prev);
                                }
                            },
                        }
                    } else if is_release {
                        assert(!conflict_at(evs, i as int));
                        match find_owner(&owners, ms.as_str()) {
                            Some(j) => {
                                proof {
                                    lemma_owners_view_get(owners@, j as int);
                                }
                                if str_eq(owners[j].1.imsi.as_str(), e.imsi.as_str()) {
                                    let rec = OwnershipRecord {
                                        imsi: owners[j].1.imsi.clone(),
                                        since: owners[j].1.since,
                                        until: Some(e.timestamp_ms),
                                    };
                                    let pair = (ms.clone(), rec);
                                    proof {
                                        lemma_owners_view_update(owners@, j as int, pair);
                                    }
                                    owners.set(j, pair);
                                }
                            },
                            None => {
                                proof {
                                    lemma_owners_view_absent(owners@, ms@);
                                }
                            },
                        }
                    } else {
                        assert(!conflict_at(evs, i as int));
                    }
                },
                None => {
                    assert(!conflict_at(evs, i as int));
                },
            }
            proof {
                assert(ownership_after(evs, i + 1) == ownership_step(
                    ownership_after(evs, i as int),
                    evs[i as int],
                ));
                assert(owners_view(owners@) =~= ownership_after(evs, i + 1));
            }
            i = i + 1;
        }
        assert(ownership_exclusive(evs));

        // Identifier formats: IMSI, then MSISDN, then IMEI.
        let mut i: usize = 0;
        while i < n
            invariant
                0 <= i <= n,
                n == self.events@.len(),
                evs == self.spec_events(),
                chronological(evs),
                ownership_exclusive(evs),
                forall|j: int| 0 <= j < i ==> valid_imsi((#[trigger] evs[j]).imsi),
            decreases n - i,
        {
            proof {
                assert(evs[i as int] == self.events@[i as int]@);
            }
            if !check_digits_len(self.events[i].imsi.as_str(), 14, 15) {
                return Err(ValidationError::BadImsi { index: i });
            }
            i = i + 1;
        }
        let mut i: usize = 0;
        while i < n
            invariant
                0 <= i <= n,
                n == self.events@.len(),
                evs == self.spec_events(),
                chronological(evs),
                ownership_exclusive(evs),
                forall|j: int| 0 <= j < evs.len() ==> valid_imsi((#[trigger] evs[j]).imsi),
                forall|j: int| 0 <= j < i
                    ==> ((#[trigger] evs[j]).msisdn is Some ==> valid_msisdn(evs[j].msisdn->0)),
            decreases n - i,
        {
            proof {
                assert(evs[i as int] == self.events@[i as int]@);
            }
            match &self.events[i].msisdn {
                Some(ms) => {
                    if !check_digits_len(ms.as_str(), 8, 15) {
                        return Err(ValidationError::BadMsisdn { index: i });
                    }
                },
                None => (),
            }
            i = i + 1;
        }
        let mut i: usize = 0;
        while i < n
            invariant
                0 <= i <= n,
                n == self.events@.len(),
                evs == self.spec_events(),
                chronological(evs),
                ownership_exclusive(evs),
                forall|j: int| 0 <= j < evs.len() ==> valid_imsi((#[trigger] evs[j]).imsi),
                forall|j: int| 0 <= j < evs.len()
                    ==> ((#[trigger] evs[j]).msisdn is Some ==> valid_msisdn(evs[j].msisdn->0)),
                forall|j: int| 0 <= j < i
                    ==> ((#[trigger] evs[j]).imei is Some ==> valid_imei(evs[j].imei->0)),
            decreases n - i,
        {
            proof {
                assert(evs[i as int] == self.events@[i as int]@);
            }
            match &self.events[i].imei {
                Some(im) => {
                    if !check_digits_len(im.as_str(), 15, 15) {
                        return Err(ValidationError::BadImei { index: i });
                    }
                },
                None => (),
            }
            i = i + 1;
        }
        Ok(())
    }

    /// Compacts the event stream into validity snapshots: the closed
    /// snapshots in emission order, then one open snapshot per identity
    /// still active at end of stream.
    #[verifier::rlimit(80)]
    pub fn build_snapshots(&mut self)
        ensures
            final(self).spec_events() == old(self).spec_events(),
            final(self).spec_imsis() == old(self).spec_imsis(),
            final(self).spec_snapshots() == spec_build_snapshots(old(self).spec_events()),
    {
        let ghost evs = self.spec_events();
        let n = self.events.len();
        let mut snaps: Vec<SubscriberSnapshot> = Vec::new();
        let mut states: Vec<CompRecord> = Vec::new();
        let mut i: usize = 0;
        while i < n
            invariant
                0 <= i <= n,
                n == self.events@.len(),
                evs == self.spec_events(),
                snaps@.map_values(|s: SubscriberSnapshot| s@) == compact_events(evs, i as int).0,
                states@.map_values(|s: CompRecord| s@) == compact_events(evs, i as int).1,
            decreases n - i,
        {
            let ghost prev = compact_events(evs, i as int);
            let ghost sv = states@.map_values(|s: CompRecord| s@);
            let e = &self.events[i];
            proof {
                assert(evs[i as int] == self.events@[i as int]@);
            }
            let found = find_comp_state(&states, e.imsi.as_str());
            proof {
                match found {
                    Some(j) => {
                        assert(sv[j as int] == states@[j as int]@);
                        assert forall|l: int| 0 <= l < j implies (#[trigger] sv[l]).imsi
                            != e.imsi@ by {
                            assert(sv[l] == states@[l]@);
                        }
                        lemma_state_index_of_first(sv, e.imsi@, j as int);
                    },
                    None => {
                        assert forall|l: int| 0 <= l < sv.len() implies (#[trigger] sv[l]).imsi
                            != e.imsi@ by {
                            assert(sv[l] == states@[l]@);
                        }
                        lemma_state_index_of_none(sv, e.imsi@);
                    },
                }
            }
            let is_fresh_kind = match e.event_type {
                SubscriberEventType::NewSubscriber => true,
                SubscriberEventType::AssignNumber => true,
                _ => false,
            };
            let is_device = match e.event_type {
                SubscriberEventType::ChangeDevice => true,
                _ => false,
            };
            if is_fresh_kind {
                let fresh = CompRecord {
                    imsi: e.imsi.clone(),
                    msisdn: clone_opt(&e.msisdn),
                    imei: clone_opt(&e.imei),
                    mccmnc: e.mccmnc.clone(),
                    valid_from: e.timestamp_ms,
                };
                match found {
                    Some(j) => {
                        if states[j].msisdn.is_some() && states[j].imei.is_some() {
                            let closed = states[j].close_into(e.timestamp_ms);
                            snaps.push(closed);
                        }
                        states.set(j, fresh);
                    },
                    None => {
                        states.push(fresh);
                    },
                }
            } else if is_device {
                match found {
                    Some(j) => {
                        if states[j].msisdn.is_some() && states[j].imei.is_some() {
                            let closed = states[j].close_into(e.timestamp_ms);
                            snaps.push(closed);
                        }
                        let upd = CompRecord {
                            imsi: states[j].imsi.clone(),
                            msisdn: clone_opt(&states[j].msisdn),
                            imei: clone_opt(&e.imei),
                            mccmnc: states[j].mccmnc.clone(),
                            valid_from: e.timestamp_ms,
                        };
                        states.set(j, upd);
                    },
                    None => {
                        states.push(
                            CompRecord {
                                imsi: e.imsi.clone(),
                                msisdn: None,
                                imei: clone_opt(&e.imei),
                                mccmnc: e.mccmnc.clone(),
                                valid_from: e.timestamp_ms,
                            },
                        );
                    },
                }
            } else {
                match found {
                    Some(j) => {
                        if states[j].msisdn.is_some() && states[j].imei.is_some() {
                            let closed = states[j].close_into(e.timestamp_ms);
                            snaps.push(closed);
                        }
                        let upd = CompRecord {
                            imsi: states[j].imsi.clone(),
                            msisdn: None,
                            imei: None,
                            mccmnc: states[j].mccmnc.clone(),
                            valid_from: states[j].valid_from,
                        };
                        states.set(j, upd);
                    },
                    None => {
                        states.push(
                            CompRecord {
                                imsi: e.imsi.clone(),
                                msisdn: None,
                                imei: None,
                                mccmnc: e.mccmnc.clone(),
                                valid_from: e.timestamp_ms,
                            },
                        );
                    },
                }
            }
            proof {
                assert(compact_events(evs, i + 1) == compact_step(prev, evs[i as int]));
                assert(snaps@.map_values(|s: SubscriberSnapshot| s@) =~= compact_events(
                    evs,
                    i + 1,
                ).0);
                assert(states@.map_values(|s: CompRecord| s@) =~= compact_events(evs, i + 1).1);
            }
            i = i + 1;
        }
        // End of stream: emit the still-open records.
        let ghost all_states = states@.map_values(|s: CompRecord| s@);
        let k = states.len();
        let mut j: usize = 0;
        while j < k
            invariant
                0 <= j <= k,
                k == states@.len(),
                all_states == states@.map_values(|s: CompRecord| s@),
                snaps@.map_values(|s: SubscriberSnapshot| s@) == compact_events(
                    evs,
                    evs.len() as int,
                ).0 + final_snaps(all_states.take(j as int)),
                all_states == compact_events(evs, evs.len() as int).1,
            decreases k - j,
        {
            proof {
                assert(all_states.take(j + 1).drop_last() =~= all_states.take(j as int));
                assert(all_states.take(j + 1).last() == all_states[j as int]);
                assert(all_states[j as int] == states@[j as int]@);
            }
            if states[j].msisdn.is_some() && states[j].imei.is_some() {
                let ghost pm = snaps@.map_values(|s: SubscriberSnapshot| s@);
                let opened = states[j].open_into();
                snaps.push(opened);
                proof {
                    assert(state_open(all_states[j as int]));
                    assert(opened@ == open_snap(all_states[j as int]));
                    assert(snaps@.map_values(|s: SubscriberSnapshot| s@) =~= pm.push(opened@));
                    assert(final_snaps(all_states.take(j + 1)) =~= final_snaps(
                        all_states.take(j as int),
                    ) + seq![open_snap(all_states[j as int])]);
                    assert(pm.push(opened@) =~= compact_events(evs, evs.len() as int).0
                        + final_snaps(all_states.take(j + 1)));
                }
            } else {
                proof {
                    assert(final_snaps(all_states.take(j + 1)) =~= final_snaps(
                        all_states.take(j as int),
                    ));
                }
            }
            j = j + 1;
        }
        proof {
            assert(all_states.take(k as int) =~= all_states);
        }
        self.snapshots = snaps;
        proof {
            assert(self.spec_snapshots() == spec_build_snapshots(evs));
        }
    }

    /// The snapshot of an identity valid at an instant.
    ///
    /// With compacted snapshots available, returns the first snapshot of the
    /// identity whose `[valid_from, valid_to)` interval contains the
    /// instant; otherwise computes the identity's state at the instant
    /// straight from the events and returns it as a still-open snapshot.
    pub fn get_snapshot_at(&self, imsi: &str, timestamp_ms: i64) -> (r: Option<SubscriberSnapshot>)
        ensures
            ({
                let rv = match r {
                    Some(s) => Some(s@),
                    None => None::<SnapshotView>,
                };
                if self.spec_snapshots().len() > 0 {
                    rv == spec_snapshot_lookup(self.spec_snapshots(), imsi@, timestamp_ms as int)
                } else {
                    rv == spec_replay_lookup(self.spec_events(), imsi@, timestamp_ms as int)
                }
            }),
    {
        let ghost t = timestamp_ms as int;
        if self.snapshots.len() > 0 {
            let ghost sv = self.spec_snapshots();
            proof {
                lemma_snap_index(sv, imsi@, t);
            }
            let n = self.snapshots.len();
            let mut k: usize = 0;
            while k < n
                invariant
                    0 <= k <= n,
                    n == self.snapshots@.len(),
                    sv == self.spec_snapshots(),
                    t == timestamp_ms as int,
                    forall|l: int| 0 <= l < k ==> !snap_match(#[trigger] sv[l], imsi@, t),
                decreases n - k,
            {
                let s = &self.snapshots[k];
                proof {
                    assert(sv[k as int] == self.snapshots@[k as int]@);
                }
                let inside = s.valid_from <= timestamp_ms && (match s.valid_to {
                    Some(end) => timestamp_ms < end,
                    None => true,
                });
                if inside && str_eq(s.imsi.as_str(), imsi) {
                    proof {
                        assert(snap_match(sv[k as int], imsi@, t));
                        lemma_snap_index(sv, imsi@, t);
                        assert(snap_index(sv, imsi@, t) == k as int);
                    }
                    return Some(snapshot_clone(s));
                }
                assert(!snap_match(sv[k as int], imsi@, t));
                k = k + 1;
            }
            proof {
                lemma_snap_index(sv, imsi@, t);
                assert(snap_index(sv, imsi@, t) == -1);
            }
            return None;
        }
        // No compacted snapshots: replay the identity's events.
        let ghost evs = self.spec_events();
        let n = self.events.len();
        let mut cur: Option<CompRecord> = None;
        let mut i: usize = 0;
        while i < n
            invariant
                0 <= i <= n,
                n == self.events@.len(),
                evs == self.spec_events(),
                t == timestamp_ms as int,
                opt_rec_view(cur) == replay_states(evs, imsi@, t, i as int),
            decreases n - i,
        {
            let e = &self.events[i];
            proof {
                assert(evs[i as int] == self.events@[i as int]@);
            }
            if e.timestamp_ms <= timestamp_ms && str_eq(e.imsi.as_str(), imsi) {
                let is_fresh_kind = match e.event_type {
                    SubscriberEventType::NewSubscriber => true,
                    SubscriberEventType::AssignNumber => true,
                    _ => false,
                };
                let is_device = match e.event_type {
                    SubscriberEventType::ChangeDevice => true,
                    _ => false,
                };
                if is_fresh_kind {
                    cur = Some(
                        CompRecord {
                            imsi: e.imsi.clone(),
                            msisdn: clone_opt(&e.msisdn),
                            imei: clone_opt(&e.imei),
                            mccmnc: e.mccmnc.clone(),
                            valid_from: e.timestamp_ms,
                        },
                    );
                } else if is_device {
                    cur = Some(
                        match &cur {
                            Some(c) => CompRecord {
                                imsi: c.imsi.clone(),
                                msisdn: clone_opt(&c.msisdn),
                                imei: clone_opt(&e.imei),
                                mccmnc: c.mccmnc.clone(),
                                valid_from: e.timestamp_ms,
                            },
                            None => CompRecord {
                                imsi: e.imsi.clone(),
                                msisdn: None,
                                imei: clone_opt(&e.imei),
                                mccmnc: e.mccmnc.clone(),
                                valid_from: e.timestamp_ms,
                            },
                        },
                    );
                } else {
                    cur = Some(
                        match &cur {
                            Some(c) => CompRecord {
                                imsi: c.imsi.clone(),
                                msisdn: None,
                                imei: None,
                                mccmnc: c.mccmnc.clone(),
                                valid_from: c.valid_from,
                            },
                            None => CompRecord {
                                imsi: e.imsi.clone(),
                                msisdn: None,
                                imei: None,
                                mccmnc: e.mccmnc.clone(),
                                valid_from: e.timestamp_ms,
                            },
                        },
                    );
                }
            }
            i = i + 1;
        }
        match &cur {
            Some(c) => {
                if c.msisdn.is_some() && c.imei.is_some() {
                    Some(c.open_into())
                } else {
                    None
                }
            },
            None => None,
        }
    }

    /// The snapshot of the identity holding a phone number at an instant.
    ///
    /// With compacted snapshots available, returns the first snapshot
    /// carrying the number whose interval contains the instant; otherwise
    /// finds the last event at or before the instant that carries the
    /// number and replays that identity's state.
    pub fn get_snapshot_by_msisdn(&self, msisdn: &str, timestamp_ms: i64) -> (r: Option<
        SubscriberSnapshot,
    >)
        ensures
            ({
                let rv = match r {
                    Some(s) => Some(s@),
                    None => None::<SnapshotView>,
                };
                if self.spec_snapshots().len() > 0 {
                    rv == spec_msisdn_lookup(self.spec_snapshots(), msisdn@, timestamp_ms as int)
                } else {
                    rv == spec_msisdn_replay_lookup(
                        self.spec_events(),
                        msisdn@,
                        timestamp_ms as int,
                    )
                }
            }),
    {
        let ghost t = timestamp_ms as int;
        if self.snapshots.len() > 0 {
            let ghost sv = self.spec_snapshots();
            let n = self.snapshots.len();
            let mut k: usize = 0;
            while k < n
                invariant
                    0 <= k <= n,
                    n == self.snapshots@.len(),
                    sv == self.spec_snapshots(),
                    t == timestamp_ms as int,
                    forall|l: int| 0 <= l < k
                        ==> !((#[trigger] sv[l]).msisdn == msisdn@ && snapshot_contains(sv[l], t)),
                decreases n - k,
            {
                let s = &self.snapshots[k];
                proof {
                    assert(sv[k as int] == self.snapshots@[k as int]@);
                }
                let inside = s.valid_from <= timestamp_ms && (match s.valid_to {
                    Some(end) => timestamp_ms < end,
                    None => true,
                });
                if inside && str_eq(s.msisdn.as_str(), msisdn) {
                    proof {
                        lemma_msisdn_snap_index(sv, msisdn@, t);
                        assert(msisdn_snap_index(sv, msisdn@, t) == k as int);
                    }
                    return Some(snapshot_clone(s));
                }
                k = k + 1;
            }
            proof {
                lemma_msisdn_snap_index(sv, msisdn@, t);
                assert(msisdn_snap_index(sv, msisdn@, t) == -1);
            }
            return None;
        }
        // No compacted snapshots: find the last holder and replay it.
        let ghost evs = self.spec_events();
        let n = self.events.len();
        proof {
            assert(evs.take(n as int) =~= evs);
        }
        let mut i: usize = n;
        while i > 0
            invariant
                0 <= i <= n,
                n == self.events@.len(),
                evs == self.spec_events(),
                self.spec_snapshots().len() == 0,
                t == timestamp_ms as int,
                last_holder_index(evs, msisdn@, t) == last_holder_index(
                    evs.take(i as int),
                    msisdn@,
                    t,
                ),
            decreases i,
        {
            let e = &self.events[i - 1];
            proof {
                assert(evs.take(i as int).drop_last() =~= evs.take(i - 1));
                assert(evs.take(i as int).last() == evs[i - 1]);
                assert(evs[i - 1] == self.events@[i - 1]@);
            }
            let held = match &e.msisdn {
                Some(ms) => str_eq(ms.as_str(), msisdn) && e.timestamp_ms <= timestamp_ms,
                None => false,
            };
            if held {
                proof {
                    assert(evs.take(i as int)[i - 1] == evs[i - 1]);
                    assert(last_holder_index(evs, msisdn@, t) == i - 1);
                }
                return self.get_snapshot_at(self.events[i - 1].imsi.as_str(), timestamp_ms);
            }
            i = i - 1;
        }
        proof {
            assert(evs.take(0) =~= Seq::<SubscriberEventView>::empty());
            assert(last_holder_index(evs, msisdn@, t) == -1);
        }
        None
    }

    /// The number of events in the stream.
    pub fn event_count(&self) -> (r: usize)
        ensures
            r == self.spec_events().len(),
    {
        self.events.len()
    }

    /// The number of compacted snapshots.
    pub fn snapshot_count(&self) -> (r: usize)
        ensures
            r == self.spec_snapshots().len(),
    {
        self.snapshots.len()
    }

    /// The number of distinct identities in the stream.
    pub fn unique_imsi_count(&self) -> (r: usize)
        ensures
            r == self.spec_imsis().len(),
    {
        self.unique_imsis.len()
    }

    /// The distinct identities of the stream, in order of first appearance.
    pub fn get_all_unique_imsi(&self) -> (r: Vec<String>)
        ensures
            r@.map_values(|s: String| s@) == self.spec_imsis(),
    {
        let mut r: Vec<String> = Vec::new();
        let n = self.unique_imsis.len();
        let mut i: usize = 0;
        while i < n
            invariant
                0 <= i <= n,
                n == self.unique_imsis@.len(),
                r@.len() == i,
                forall|k: int| 0 <= k < i ==> (#[trigger] r@[k])@ == self.unique_imsis@[k]@,
            decreases n - i,
        {
            r.push(self.unique_imsis[i].clone());
            i = i + 1;
        }
        proof {
            assert(r@.map_values(|s: String| s@) =~= self.spec_imsis());
        }
        r
    }

    /// Restricts the database to the events of one worker partition: the
    /// events whose phone number belongs to subscriber indices
    /// `[start_u, end_u)` under the deterministic index-to-number scheme.
    pub fn filter_by_msisdn_range(&self, start_u: usize, end_u: usize, prefixes: &Vec<String>) -> (r:
        Self)
        requires
            prefixes@.len() > 0,
        ensures
            r.spec_events() == self.spec_events().filter(
                partition_pred(
                    start_u as int,
                    end_u as int,
                    prefixes@.map_values(|p: String| p@),
                ),
            ),
            r.spec_snapshots() == Seq::<SnapshotView>::empty(),
            r.spec_imsis() == unique_imsis_of(r.spec_events()),
    {
        let ghost ps = prefixes@.map_values(|p: String| p@);
        let ghost pred = partition_pred(start_u as int, end_u as int, ps);
        let ghost evs = self.spec_events();

        // Materialize the partition's expected phone numbers (none for a
        // reversed or empty range).
        let mut expected: Vec<String> = Vec::new();
        if start_u < end_u {
            let mut idx: usize = start_u;
            while idx < end_u
                invariant
                    start_u <= idx <= end_u,
                    ps == prefixes@.map_values(|p: String| p@),
                    ps.len() > 0,
                    expected@.len() == idx - start_u,
                    forall|j: int| 0 <= j < expected@.len()
                        ==> (#[trigger] expected@[j])@ == expected_msisdn(start_u + j, ps),
                decreases end_u - idx,
            {
                let m = msisdn_for_index(idx, prefixes);
                expected.push(m);
                idx = idx + 1;
            }
        }
        proof {
            if start_u >= end_u {
                assert(expected@.len() == 0);
            }
        }

        let n = self.events.len();
        let mut out: Vec<SubscriberEvent> = Vec::new();
        let mut i: usize = 0;
        proof {
            reveal(Seq::filter);
        }
        while i < n
            invariant
                0 <= i <= n,
                n == self.events@.len(),
                evs == self.spec_events(),
                ps == prefixes@.map_values(|p: String| p@),
                ps.len() > 0,
                pred == partition_pred(start_u as int, end_u as int, ps),
                expected@.len() == (if start_u < end_u { end_u - start_u } else { 0int }),
                forall|j: int| 0 <= j < expected@.len()
                    ==> (#[trigger] expected@[j])@ == expected_msisdn(start_u + j, ps),
                out@.map_values(|e: SubscriberEvent| e@) == evs.take(i as int).filter(pred),
            decreases n - i,
        {
            let e = &self.events[i];
            proof {
                assert(evs[i as int] == self.events@[i as int]@);
                assert(evs.take(i + 1).drop_last() =~= evs.take(i as int));
                assert(evs.take(i + 1).last() == evs[i as int]);
            }
            let keep = match &e.msisdn {
                Some(m) => {
                    let mut found = false;
                    let klen = expected.len();
                    let mut j: usize = 0;
                    while j < klen
                        invariant
                            0 <= j <= klen,
                            klen == expected@.len(),
                            ps.len() > 0,
                            forall|l: int| 0 <= l < expected@.len()
                                ==> (#[trigger] expected@[l])@ == expected_msisdn(start_u + l, ps),
                            found <==> exists|l: int|
                                0 <= l < j && (#[trigger] expected@[l])@ == m@,
                        decreases klen - j,
                    {
                        if str_eq(expected[j].as_str(), m.as_str()) {
                            found = true;
                            proof {
                                assert(0 <= j < klen && expected@[j as int]@ == m@);
                            }
                            j = klen;
                        } else {
                            j = j + 1;
                        }
                    }
                    proof {
                        if found {
                            let l = choose|l: int|
                                0 <= l < expected@.len() && (#[trigger] expected@[l])@ == m@;
                            assert(m@ == expected_msisdn(start_u + l, ps));
                            assert(in_partition(m@, start_u as int, end_u as int, ps));
                        } else {
                            assert forall|q: int| start_u <= q < end_u
                                implies m@ != expected_msisdn(q, ps) by {
                                assert(expected@[q - start_u]@ == expected_msisdn(q, ps));
                            }
                            assert(!in_partition(m@, start_u as int, end_u as int, ps));
                        }
                    }
                    found
                },
                None => false,
            };
            proof {
                assert(keep == pred(evs[i as int]));
            }
            if keep {
                let copy = event_clone(e);
                out.push(copy);
                proof {
                    reveal(Seq::filter);
                    assert(out@.map_values(|x: SubscriberEvent| x@) =~= evs.take(i + 1).filter(
                        pred));
                }
            } else {
                proof {
                    reveal(Seq::filter);
                    assert(out@.map_values(|x: SubscriberEvent| x@) =~= evs.take(i + 1).filter(
                        pred));
                }
            }
            i = i + 1;
        }
        proof {
            assert(evs.take(n as int) =~= evs);
        }
        Self::from_events(out)
    }

    /// The compacted snapshots (`build_snapshots` must have run).
    pub fn get_snapshots(&self) -> (r: &[SubscriberSnapshot])
        ensures
            r@.map_values(|s: SubscriberSnapshot| s@) == self.spec_snapshots(),
    {
        self.snapshots.as_slice()
    }
}

/// The in-progress per-identity record the compactor keeps: the fields of
/// the snapshot that will be emitted when the current interval closes.
pub ghost struct CompState {
    pub imsi: Seq<char>,
    pub msisdn: Option<Seq<char>>,
    pub imei: Option<Seq<char>>,
    pub mccmnc: Seq<char>,
    pub valid_from: int,
}

/// A record is open when it has both a phone number and a device: only then
/// does closing it emit a snapshot.
pub open spec fn state_open(s: CompState) -> bool {
    s.msisdn is Some && s.imei is Some
}

/// The snapshot emitted when an open record closes at `end`.
pub open spec fn close_snap(s: CompState, end: int) -> SnapshotView
    recommends
        state_open(s),
{
    SnapshotView {
        imsi: s.imsi,
        msisdn: s.msisdn->0,
        imei: s.imei->0,
        mccmnc: s.mccmnc,
        valid_from: s.valid_from,
        valid_to: Some(end),
    }
}

/// The still-open snapshot emitted for an open record at end of stream.
pub open spec fn open_snap(s: CompState) -> SnapshotView
    recommends
        state_open(s),
{
    SnapshotView {
        imsi: s.imsi,
        msisdn: s.msisdn->0,
        imei: s.imei->0,
        mccmnc: s.mccmnc,
        valid_from: s.valid_from,
        valid_to: None,
    }
}

/// The index of the record for `imsi`, or `-1` when there is none.
pub open spec fn state_index(states: Seq<CompState>, imsi: Seq<char>) -> int
    decreases states.len(),
{
    if states.len() == 0 {
        -1
    } else if states[0].imsi == imsi {
        0
    } else {
        let r = state_index(states.drop_first(), imsi);
        if r == -1 {
            -1
        } else {
            r + 1
        }
    }
}

/// `state_index` returns the first matching index, or `-1` when no record
/// matches.
pub proof fn lemma_state_index(states: Seq<CompState>, imsi: Seq<char>)
    ensures
        -1 <= state_index(states, imsi) < states.len(),
        state_index(states, imsi) >= 0 ==> states[state_index(states, imsi)].imsi == imsi,
        forall|j: int|
            0 <= j < states.len() && (state_index(states, imsi) == -1 || j < state_index(
                states,
                imsi,
            )) ==> (#[trigger] states[j]).imsi != imsi,
    decreases states.len(),
{
    if states.len() > 0 && states[0].imsi != imsi {
        lemma_state_index(states.drop_first(), imsi);
        assert forall|j: int|
            0 <= j < states.len() && (state_index(states, imsi) == -1 || j < state_index(
                states,
                imsi,
            )) implies (#[trigger] states[j]).imsi != imsi by {
            if j > 0 {
                assert(states[j] == states.drop_first()[j - 1]);
            }
        }
    }
}

/// How one event changes the compactor's accumulated snapshots and records.
///
/// Opening a new interval for an identity (new subscriber, number
/// assignment) first closes and emits any open record of that identity; a
/// device change closes the open interval and reopens one with the new
/// device; a SIM change or a number release closes the open interval and
/// leaves the identity with no open record.
pub open spec fn compact_step(
    acc: (Seq<SnapshotView>, Seq<CompState>),
    e: SubscriberEventView,
) -> (Seq<SnapshotView>, Seq<CompState>) {
    let snaps = acc.0;
    let states = acc.1;
    let idx = state_index(states, e.imsi);
    let ts = e.timestamp_ms;
    match e.event_type {
        SubscriberEventType::NewSubscriber | SubscriberEventType::AssignNumber => {
            let fresh = CompState {
                imsi: e.imsi,
                msisdn: e.msisdn,
                imei: e.imei,
                mccmnc: e.mccmnc,
                valid_from: ts,
            };
            if idx >= 0 {
                let s = states[idx];
                let snaps2 = if state_open(s) {
                    snaps.push(close_snap(s, ts))
                } else {
                    snaps
                };
                (snaps2, states.update(idx, fresh))
            } else {
                (snaps, states.push(fresh))
            }
        },
        SubscriberEventType::ChangeDevice => {
            if idx >= 0 {
                let s = states[idx];
                let snaps2 = if state_open(s) {
                    snaps.push(close_snap(s, ts))
                } else {
                    snaps
                };
                (snaps2, states.update(idx, CompState { imei: e.imei, valid_from: ts, ..s }))
            } else {
                (
                    snaps,
                    states.push(
                        CompState {
                            imsi: e.imsi,
                            msisdn: None,
                            imei: e.imei,
                            mccmnc: e.mccmnc,
                            valid_from: ts,
                        },
                    ),
                )
            }
        },
        SubscriberEventType::ChangeSim | SubscriberEventType::ReleaseNumber => {
            if idx >= 0 {
                let s = states[idx];
                let snaps2 = if state_open(s) {
                    snaps.push(close_snap(s, ts))
                } else {
                    snaps
                };
                (snaps2, states.update(idx, CompState { msisdn: None, imei: None, ..s }))
            } else {
                (
                    snaps,
                    states.push(
                        CompState {
                            imsi: e.imsi,
                            msisdn: None,
                            imei: None,
                            mccmnc: e.mccmnc,
                            valid_from: ts,
                        },
                    ),
                )
            }
        },
    }
}

/// The compactor's accumulated snapshots and records after the first `n`
/// events.
pub open spec fn compact_events(
    events: Seq<SubscriberEventView>,
    n: int,
) -> (Seq<SnapshotView>, Seq<CompState>)
    decreases n,
{
    if n <= 0 {
        (Seq::empty(), Seq::empty())
    } else {
        compact_step(compact_events(events, n - 1), events[n - 1])
    }
}

/// The open snapshots emitted at end of stream, in record order.
pub open spec fn final_snaps(states: Seq<CompState>) -> Seq<SnapshotView>
    decreases states.len(),
{
    if states.len() == 0 {
        Seq::empty()
    } else {
        final_snaps(states.drop_last()) + (if state_open(states.last()) {
            seq![open_snap(states.last())]
        } else {
            Seq::empty()
        })
    }
}

/// The full compaction of an event stream: the closed snapshots in emission
/// order, then one open snapshot per identity still active.
pub open spec fn spec_build_snapshots(events: Seq<SubscriberEventView>) -> Seq<SnapshotView> {
    let r = compact_events(events, events.len() as int);
    r.0 + final_snaps(r.1)
}

/// The structural invariant of the compactor's accumulator: records have
/// distinct identities and timestamps bounded by the last event processed;
/// emitted snapshots are closed, ordered per identity, and end no later than
/// the open record of their identity begins.
pub open spec fn compact_inv(events: Seq<SubscriberEventView>, n: int) -> bool {
    let acc = compact_events(events, n);
    let snaps = acc.0;
    let states = acc.1;
    &&& (forall|i: int, j: int| 0 <= i < j < states.len()
        ==> (#[trigger] states[i]).imsi != (#[trigger] states[j]).imsi)
    &&& (n > 0 ==> forall|k: int| 0 <= k < states.len()
        ==> (#[trigger] states[k]).valid_from <= events[n - 1].timestamp_ms)
    &&& (forall|i: int| 0 <= i < snaps.len()
        ==> (#[trigger] snaps[i]).valid_to is Some && snaps[i].valid_from <= snaps[i].valid_to->0)
    &&& (n > 0 ==> forall|i: int| 0 <= i < snaps.len()
        ==> (#[trigger] snaps[i]).valid_to->0 <= events[n - 1].timestamp_ms)
    &&& (forall|i: int, j: int| 0 <= i < j < snaps.len() && (#[trigger] snaps[i]).imsi
        == (#[trigger] snaps[j]).imsi ==> snaps[i].valid_to->0 <= snaps[j].valid_from)
    &&& (forall|i: int, k: int| 0 <= i < snaps.len() && 0 <= k < states.len()
        && (#[trigger] snaps[i]).imsi == (#[trigger] states[k]).imsi && state_open(states[k])
        ==> snaps[i].valid_to->0 <= states[k].valid_from)
}

/// The compactor's accumulator keeps its structural invariant along any
/// chronological stream.
pub proof fn lemma_compact_invariant(events: Seq<SubscriberEventView>, n: int)
    requires
        chronological(events),
        0 <= n <= events.len(),
    ensures
        compact_inv(events, n),
    decreases n,
{
    if n > 0 {
        lemma_compact_invariant(events, n - 1);
        let prev = compact_events(events, n - 1);
        let e = events[n - 1];
        let idx = state_index(prev.1, e.imsi);
        lemma_state_index(prev.1, e.imsi);
        if n - 1 > 0 {
            assert(events[n - 2].timestamp_ms <= e.timestamp_ms);
        }
        let acc = compact_events(events, n);
        assert(acc == compact_step(prev, e));
        let snaps = acc.0;
        let states = acc.1;
        assert forall|i: int, j: int|
            0 <= i < j < snaps.len() && (#[trigger] snaps[i]).imsi == (#[trigger] snaps[j]).imsi
            implies snaps[i].valid_to->0 <= snaps[j].valid_from by {
            if j < prev.0.len() {
            } else {
                assert(snaps[j] == close_snap(prev.1[idx], e.timestamp_ms));
                assert(snaps[i] == prev.0[i]);
            }
        }
        assert forall|i: int, k: int|
            0 <= i < snaps.len() && 0 <= k < states.len() && (#[trigger] snaps[i]).imsi
            == (#[trigger] states[k]).imsi && state_open(states[k])
            implies snaps[i].valid_to->0 <= states[k].valid_from by {
            if i < prev.0.len() {
                assert(snaps[i] == prev.0[i]);
                if k < prev.1.len() && states[k] == prev.1[k] {
                } else {
                    assert(states[k].valid_from == e.timestamp_ms);
                }
            } else {
                assert(snaps[i] == close_snap(prev.1[idx], e.timestamp_ms));
            }
        }
    }
}

/// Every snapshot of the end-of-stream pass is open, stems from an open
/// record, and no two stem from the same identity.
pub proof fn lemma_final_snaps(states: Seq<CompState>)
    requires
        forall|i: int, j: int| 0 <= i < j < states.len()
            ==> (#[trigger] states[i]).imsi != (#[trigger] states[j]).imsi,
    ensures
        forall|i: int| 0 <= i < final_snaps(states).len()
            ==> (#[trigger] final_snaps(states)[i]).valid_to is None && exists|k: int|
                0 <= k < states.len() && state_open(#[trigger] states[k]) && final_snaps(
                    states,
                )[i] == open_snap(states[k]),
        forall|i: int, j: int| 0 <= i < j < final_snaps(states).len()
            ==> (#[trigger] final_snaps(states)[i]).imsi != (#[trigger] final_snaps(
                states,
            )[j]).imsi,
    decreases states.len(),
{
    if states.len() > 0 {
        let pre = states.drop_last();
        assert(forall|i: int, j: int| 0 <= i < j < pre.len()
            ==> (#[trigger] pre[i]).imsi != (#[trigger] pre[j]).imsi);
        lemma_final_snaps(pre);
        let fs = final_snaps(states);
        let fsp = final_snaps(pre);
        assert forall|i: int| 0 <= i < fs.len()
            implies (#[trigger] fs[i]).valid_to is None && exists|k: int|
                0 <= k < states.len() && state_open(#[trigger] states[k]) && fs[i] == open_snap(
                    states[k],
                ) by {
            if i < fsp.len() {
                assert(fs[i] == fsp[i]);
                let k = choose|k: int|
                    0 <= k < pre.len() && state_open(#[trigger] pre[k]) && fsp[i] == open_snap(
                        pre[k],
                    );
                assert(states[k] == pre[k]);
                assert(0 <= k < states.len() && state_open(states[k]) && fs[i] == open_snap(
                    states[k],
                ));
            } else {
                assert(state_open(states.last()));
                assert(fs[i] == open_snap(states[states.len() - 1]));
                assert(0 <= states.len() - 1 < states.len() && state_open(
                    states[states.len() - 1],
                ) && fs[i] == open_snap(states[states.len() - 1]));
            }
        }
        assert forall|i: int, j: int| 0 <= i < j < fs.len()
            implies (#[trigger] fs[i]).imsi != (#[trigger] fs[j]).imsi by {
            if j < fsp.len() {
                assert(fs[i] == fsp[i] && fs[j] == fsp[j]);
            } else {
                assert(fs[j] == open_snap(states.last()));
                assert(fs[i] == fsp[i]);
                let k = choose|k: int|
                    0 <= k < pre.len() && state_open(#[trigger] pre[k]) && fsp[i] == open_snap(
                        pre[k],
                    );
                assert(states[k].imsi != states.last().imsi);
            }
        }
    }
}

/// Interval partition per identity: among the snapshots compacted from a
/// chronological stream, no two snapshots of the same identity overlap in
/// time, and at most one of them is open.
pub proof fn lemma_interval_partition(events: Seq<SubscriberEventView>)
    requires
        chronological(events),
    ensures
        ({
            let snaps = spec_build_snapshots(events);
            forall|i: int, j: int, t: int|
                0 <= i < j < snaps.len() && snaps[i].imsi == snaps[j].imsi ==> !(
                #[trigger] snapshot_contains(snaps[i], t) && #[trigger] snapshot_contains(
                    snaps[j],
                    t,
                ))
        }),
        ({
            let snaps = spec_build_snapshots(events);
            forall|i: int, j: int| 0 <= i < j < snaps.len() && (#[trigger] snaps[i]).imsi
                == (#[trigger] snaps[j]).imsi ==> !(snaps[i].valid_to is None
                && snaps[j].valid_to is None)
        }),
{
    let n = events.len() as int;
    lemma_compact_invariant(events, n);
    let acc = compact_events(events, n);
    let closed = acc.0;
    let states = acc.1;
    let fs = final_snaps(states);
    let snaps = spec_build_snapshots(events);
    lemma_final_snaps(states);
    assert(snaps == closed + fs);
    assert forall|i: int, j: int, t: int|
        0 <= i < j < snaps.len() && snaps[i].imsi == snaps[j].imsi implies !(
    #[trigger] snapshot_contains(snaps[i], t) && #[trigger] snapshot_contains(snaps[j], t)) by {
        if snapshot_contains(snaps[i], t) && snapshot_contains(snaps[j], t) {
            if j < closed.len() {
                assert(snaps[i] == closed[i] && snaps[j] == closed[j]);
                assert(closed[i].valid_to->0 <= closed[j].valid_from);
            } else if i < closed.len() {
                assert(snaps[i] == closed[i]);
                assert(snaps[j] == fs[j - closed.len()]);
                let k = choose|k: int|
                    0 <= k < states.len() && state_open(#[trigger] states[k]) && fs[j
                        - closed.len()] == open_snap(states[k]);
                assert(closed[i].valid_to->0 <= states[k].valid_from);
            } else {
                assert(snaps[i] == fs[i - closed.len()] && snaps[j] == fs[j - closed.len()]);
                assert(fs[i - closed.len()].imsi != fs[j - closed.len()].imsi);
            }
        }
    }
    assert forall|i: int, j: int|
        0 <= i < j < snaps.len() && (#[trigger] snaps[i]).imsi == (#[trigger] snaps[j]).imsi
        implies !(snaps[i].valid_to is None && snaps[j].valid_to is None) by {
        if snaps[i].valid_to is None && snaps[j].valid_to is None {
            assert(i >= closed.len());
            assert(fs[i - closed.len()].imsi != fs[j - closed.len()].imsi);
        }
    }
}

/// The compactor's accumulator, coupled to the validator's ownership map:
/// a record holding a phone number holds it under a live ownership of its
/// own identity; snapshots of one number never overlap in emission order and
/// end no later than the number's current record begins.
pub open spec fn compact_own_inv(events: Seq<SubscriberEventView>, n: int) -> bool {
    let acc = compact_events(events, n);
    let snaps = acc.0;
    let states = acc.1;
    let m = ownership_after(events, n);
    &&& forall|k: int| 0 <= k < states.len() && (#[trigger] states[k]).msisdn is Some ==> {
        let ms = states[k].msisdn->0;
        &&& m.contains_key(ms)
        &&& m[ms].imsi == states[k].imsi
        &&& m[ms].until is None
    }
    &&& forall|i: int, j: int| 0 <= i < j < snaps.len() && (#[trigger] snaps[i]).msisdn == (
    #[trigger] snaps[j]).msisdn ==> snaps[i].valid_to->0 <= snaps[j].valid_from
    &&& forall|i: int, k: int| 0 <= i < snaps.len() && 0 <= k < states.len()
        && (#[trigger] states[k]).msisdn == Some((#[trigger] snaps[i]).msisdn)
        ==> snaps[i].valid_to->0 <= states[k].valid_from
}

/// The coupled accumulator keeps its invariant along any chronological,
/// ownership-exclusive stream.
#[verifier::rlimit(100)]
#[verifier::spinoff_prover]
pub proof fn lemma_compact_own_invariant(events: Seq<SubscriberEventView>, n: int)
    requires
        chronological(events),
        ownership_exclusive(events),
        0 <= n <= events.len(),
    ensures
        compact_own_inv(events, n),
    decreases n,
{
    if n > 0 {
        lemma_compact_own_invariant(events, n - 1);
        lemma_compact_invariant(events, n - 1);
        let prev = compact_events(events, n - 1);
        let pm = ownership_after(events, n - 1);
        let e = events[n - 1];
        let idx = state_index(prev.1, e.imsi);
        lemma_state_index(prev.1, e.imsi);
        if n - 1 > 0 {
            assert(events[n - 2].timestamp_ms <= e.timestamp_ms);
        }
        let acc = compact_events(events, n);
        assert(acc == compact_step(prev, e));
        let snaps = acc.0;
        let states = acc.1;
        let m = ownership_after(events, n);
        assert(m == ownership_step(pm, e));
        assert(!conflict_at(events, n - 1));

        // A phone number sits in at most one record.
        assert forall|k1: int, k2: int|
            0 <= k1 < prev.1.len() && 0 <= k2 < prev.1.len() && (
            #[trigger] prev.1[k1]).msisdn is Some && prev.1[k1].msisdn == (
            #[trigger] prev.1[k2]).msisdn implies k1 == k2 by {
            if k1 != k2 {
                let ms = prev.1[k1].msisdn->0;
                assert(pm[ms].imsi == prev.1[k1].imsi && pm[ms].imsi == prev.1[k2].imsi);
                if k1 < k2 {
                    assert(prev.1[k1].imsi != prev.1[k2].imsi);
                } else {
                    assert(prev.1[k2].imsi != prev.1[k1].imsi);
                }
                assert(false);
            }
        }

        // A claim of a number some other identity's record holds would be
        // the very conflict the stream excludes.
        if (e.event_type == SubscriberEventType::NewSubscriber || e.event_type
            == SubscriberEventType::AssignNumber) && e.msisdn is Some {
            assert forall|k: int|
                0 <= k < prev.1.len() && (#[trigger] prev.1[k]).msisdn == e.msisdn
                implies prev.1[k].imsi == e.imsi by {
                if prev.1[k].imsi != e.imsi {
                    assert(pm.contains_key(e.msisdn->0));
                    assert(pm[e.msisdn->0].until is None);
                    assert(conflict_at(events, n - 1));
                }
            }
        }

        // Every record holding a number holds it under a live ownership.
        assert forall|k: int| 0 <= k < states.len() && (#[trigger] states[k]).msisdn is Some
            implies {
            let ms = states[k].msisdn->0;
            &&& m.contains_key(ms)
            &&& m[ms].imsi == states[k].imsi
            &&& m[ms].until is None
        } by {
            let ms = states[k].msisdn->0;
            if idx >= 0 && k == idx {
                match e.event_type {
                    SubscriberEventType::NewSubscriber | SubscriberEventType::AssignNumber => {
                        assert(states[k].msisdn == e.msisdn);
                    },
                    SubscriberEventType::ChangeDevice => {
                        assert(states[k].msisdn == prev.1[idx].msisdn);
                        assert(states[k].imsi == prev.1[idx].imsi);
                        assert(m == pm);
                    },
                    _ => {
                        assert(states[k].msisdn is None);
                    },
                }
            } else if idx < 0 && k == prev.1.len() {
                match e.event_type {
                    SubscriberEventType::NewSubscriber | SubscriberEventType::AssignNumber => {
                        assert(states[k].msisdn == e.msisdn);
                        assert(states[k].imsi == e.imsi);
                    },
                    _ => {
                        assert(states[k].msisdn is None);
                    },
                }
            } else {
                assert(states[k] == prev.1[k]);
                assert(pm.contains_key(ms) && pm[ms].imsi == prev.1[k].imsi
                    && pm[ms].until is None);
                match e.event_type {
                    SubscriberEventType::NewSubscriber | SubscriberEventType::AssignNumber => {
                        if e.msisdn is Some && e.msisdn->0 == ms {
                            assert(prev.1[k].imsi == e.imsi);
                            assert(idx >= 0 && k == idx);
                            assert(false);
                        }
                    },
                    SubscriberEventType::ReleaseNumber => {
                        if e.msisdn is Some && e.msisdn->0 == ms && pm[ms].imsi == e.imsi {
                            assert(prev.1[k].imsi == e.imsi);
                            assert(idx >= 0 && k == idx);
                            assert(false);
                        }
                    },
                    _ => {},
                }
            }
        }

        // Snapshots of one number never overlap in emission order.
        assert forall|i: int, j: int|
            0 <= i < j < snaps.len() && (#[trigger] snaps[i]).msisdn == (
            #[trigger] snaps[j]).msisdn implies snaps[i].valid_to->0 <= snaps[j].valid_from by {
            if j < prev.0.len() {
                assert(snaps[i] == prev.0[i] && snaps[j] == prev.0[j]);
            } else {
                assert(snaps[j] == close_snap(prev.1[idx], e.timestamp_ms));
                assert(snaps[i] == prev.0[i]);
                assert(prev.1[idx].msisdn == Some(snaps[i].msisdn));
                assert(prev.0[i].valid_to->0 <= prev.1[idx].valid_from);
            }
        }

        // Snapshots of a number end no later than its record begins.
        assert forall|i: int, k: int|
            0 <= i < snaps.len() && 0 <= k < states.len() && (#[trigger] states[k]).msisdn
                == Some((#[trigger] snaps[i]).msisdn)
            implies snaps[i].valid_to->0 <= states[k].valid_from by {
            let ms = snaps[i].msisdn;
            if i < prev.0.len() {
                assert(snaps[i] == prev.0[i]);
                if (idx >= 0 && k == idx) || (idx < 0 && k == prev.1.len()) {
                    // A record the event touched: it either keeps its start
                    // or starts at the event's instant, after every emitted
                    // snapshot's end.
                    if states[k].valid_from == e.timestamp_ms {
                        assert(prev.0[i].valid_to->0 <= e.timestamp_ms);
                    } else {
                        assert(states[k].msisdn == prev.1[k].msisdn);
                        assert(states[k].valid_from == prev.1[k].valid_from);
                    }
                } else {
                    assert(states[k] == prev.1[k]);
                }
            } else {
                // The snapshot just emitted closes at the event's instant.
                assert(snaps[i] == close_snap(prev.1[idx], e.timestamp_ms));
                assert(prev.1[idx].msisdn == Some(ms));
                if (idx >= 0 && k == idx) || (idx < 0 && k == prev.1.len()) {
                    assert(states[k].valid_from == e.timestamp_ms);
                } else {
                    assert(states[k] == prev.1[k]);
                    assert(prev.1[k].msisdn == Some(ms));
                    assert(k == idx);
                    assert(false);
                }
            }
        }
    }
}

/// Ownership exclusivity across identities, at the snapshot level: among
/// the snapshots compacted from a chronological, ownership-exclusive stream,
/// no two snapshots carrying the same phone number contain a common instant,
/// and at most one snapshot per phone number is open.
#[verifier::rlimit(100)]
#[verifier::spinoff_prover]
pub proof fn lemma_snapshot_ownership_exclusive(events: Seq<SubscriberEventView>)
    requires
        chronological(events),
        ownership_exclusive(events),
    ensures
        ({
            let snaps = spec_build_snapshots(events);
            forall|i: int, j: int, t: int|
                0 <= i < j < snaps.len() && snaps[i].msisdn == snaps[j].msisdn ==> !(
                #[trigger] snapshot_contains(snaps[i], t) && #[trigger] snapshot_contains(
                    snaps[j],
                    t,
                ))
        }),
        ({
            let snaps = spec_build_snapshots(events);
            forall|i: int, j: int| 0 <= i < j < snaps.len() && (#[trigger] snaps[i]).msisdn
                == (#[trigger] snaps[j]).msisdn ==> !(snaps[i].valid_to is None
                && snaps[j].valid_to is None)
        }),
{
    let n = events.len() as int;
    lemma_compact_invariant(events, n);
    lemma_compact_own_invariant(events, n);
    let acc = compact_events(events, n);
    let closed = acc.0;
    let states = acc.1;
    let m = ownership_after(events, n);
    let fs = final_snaps(states);
    lemma_final_snaps(states);
    let snaps = spec_build_snapshots(events);
    assert(snaps == closed + fs);

    // Open snapshots carry pairwise distinct phone numbers: two open records
    // with one number would share their identity, which records never do.
    assert forall|a: int, b: int| 0 <= a < b < fs.len() implies (#[trigger] fs[a]).msisdn != (
    #[trigger] fs[b]).msisdn by {
        if fs[a].msisdn == fs[b].msisdn {
            let k1 = choose|k: int|
                0 <= k < states.len() && state_open(#[trigger] states[k]) && fs[a] == open_snap(
                    states[k],
                );
            let k2 = choose|k: int|
                0 <= k < states.len() && state_open(#[trigger] states[k]) && fs[b] == open_snap(
                    states[k],
                );
            assert(states[k1].msisdn == Some(fs[a].msisdn));
            assert(states[k2].msisdn == Some(fs[b].msisdn));
            assert(m[fs[a].msisdn].imsi == states[k1].imsi);
            assert(m[fs[b].msisdn].imsi == states[k2].imsi);
            if k1 != k2 {
                if k1 < k2 {
                    assert(states[k1].imsi != states[k2].imsi);
                } else {
                    assert(states[k2].imsi != states[k1].imsi);
                }
            }
            assert(k1 == k2);
            assert(fs[a].imsi != fs[b].imsi);
            assert(false);
        }
    }

    assert forall|i: int, j: int, t: int|
        0 <= i < j < snaps.len() && snaps[i].msisdn == snaps[j].msisdn implies !(
    #[trigger] snapshot_contains(snaps[i], t) && #[trigger] snapshot_contains(snaps[j], t)) by {
        if snapshot_contains(snaps[i], t) && snapshot_contains(snaps[j], t) {
            if j < closed.len() {
                assert(snaps[i] == closed[i] && snaps[j] == closed[j]);
                assert(closed[i].valid_to->0 <= closed[j].valid_from);
            } else if i < closed.len() {
                assert(snaps[i] == closed[i]);
                assert(snaps[j] == fs[j - closed.len()]);
                let k = choose|k: int|
                    0 <= k < states.len() && state_open(#[trigger] states[k]) && fs[j
                        - closed.len()] == open_snap(states[k]);
                assert(states[k].msisdn == Some(closed[i].msisdn));
                assert(closed[i].valid_to->0 <= states[k].valid_from);
            } else {
                assert(snaps[i] == fs[i - closed.len()] && snaps[j] == fs[j - closed.len()]);
                assert(fs[i - closed.len()].msisdn != fs[j - closed.len()].msisdn);
            }
        }
    }
    assert forall|i: int, j: int|
        0 <= i < j < snaps.len() && (#[trigger] snaps[i]).msisdn == (#[trigger] snaps[j]).msisdn
        implies !(snaps[i].valid_to is None && snaps[j].valid_to is None) by {
        if snaps[i].valid_to is None && snaps[j].valid_to is None {
            assert(i >= closed.len());
            assert(fs[i - closed.len()].msisdn != fs[j - closed.len()].msisdn);
        }
    }
}

/// The ownership map after `n` events reads only those events: appending
/// more changes nothing.
pub proof fn lemma_ownership_after_push(events: Seq<SubscriberEventView>, e: SubscriberEventView, n: int)
    requires
        0 <= n <= events.len(),
    ensures
        ownership_after(events.push(e), n) == ownership_after(events, n),
    decreases n,
{
    if n > 0 {
        lemma_ownership_after_push(events, e, n - 1);
        assert(events.push(e)[n - 1] == events[n - 1]);
    }
}

/// Whether event `i` conflicts reads only the events up to `i`: appending
/// more changes nothing.
pub proof fn lemma_conflict_at_push(events: Seq<SubscriberEventView>, e: SubscriberEventView, i: int)
    requires
        0 <= i < events.len(),
    ensures
        conflict_at(events.push(e), i) == conflict_at(events, i),
{
    lemma_ownership_after_push(events, e, i);
    assert(events.push(e)[i] == events[i]);
}

/// A phone number no event carries is absent from the ownership map.
pub proof fn lemma_ownership_keys_fresh(events: Seq<SubscriberEventView>, n: int, ms: Seq<char>)
    requires
        0 <= n <= events.len(),
        forall|j: int| 0 <= j < n ==> (#[trigger] events[j]).msisdn != Some(ms),
    ensures
        !ownership_after(events, n).contains_key(ms),
    decreases n,
{
    if n > 0 {
        lemma_ownership_keys_fresh(events, n - 1, ms);
    }
}

/// A claim appended to the stream would conflict: its number is owned, the
/// ownership is live at the claim's instant, and the owner differs.
pub open spec fn claim_would_conflict(
    events: Seq<SubscriberEventView>,
    e: SubscriberEventView,
) -> bool {
    let m = ownership_after(events, events.len() as int);
    &&& e.msisdn is Some
    &&& (e.event_type == SubscriberEventType::NewSubscriber || e.event_type
        == SubscriberEventType::AssignNumber)
    &&& {
        let ms = e.msisdn->0;
        &&& m.contains_key(ms)
        &&& (m[ms].until is None || m[ms].until->0 > e.timestamp_ms)
        &&& m[ms].imsi != e.imsi
    }
}

/// `claim_would_conflict` is exactly `conflict_at` for the appended claim.
pub proof fn lemma_claim_would_conflict(events: Seq<SubscriberEventView>, e: SubscriberEventView)
    ensures
        conflict_at(events.push(e), events.len() as int) == claim_would_conflict(events, e),
{
    lemma_ownership_after_push(events, e, events.len() as int);
    assert(events.push(e)[events.len() as int] == e);
}

/// Whether appending the claim to the stream would conflict with an
/// ownership still live at its instant.
pub fn claim_conflicts(events: &Vec<SubscriberEvent>, claim: &SubscriberEvent) -> (r: bool)
    ensures
        r == claim_would_conflict(events@.map_values(|x: SubscriberEvent| x@), claim@),
{
    let ghost evs = events@.map_values(|x: SubscriberEvent| x@);
    let is_claim_kind = match claim.event_type {
        SubscriberEventType::NewSubscriber => true,
        SubscriberEventType::AssignNumber => true,
        _ => false,
    };
    let ms = match &claim.msisdn {
        Some(ms) => ms,
        None => {
            return false;
        },
    };
    if !is_claim_kind {
        return false;
    }
    // Replay the ownership fold over the stream.
    let mut owners: Vec<(String, OwnershipRecord)> = Vec::new();
    let n = events.len();
    let mut i: usize = 0;
    while i < n
        invariant
            0 <= i <= n,
            n == events@.len(),
            evs == events@.map_values(|x: SubscriberEvent| x@),
            distinct_keys(owners@),
            owners_view(owners@) == ownership_after(evs, i as int),
        decreases n - i,
    {
        let e = &events[i];
        proof {
            assert(evs[i as int] == events@[i as int]@);
        }
        let is_claim = match e.event_type {
            SubscriberEventType::NewSubscriber => true,
            SubscriberEventType::AssignNumber => true,
            _ => false,
        };
        let is_release = match e.event_type {
            SubscriberEventType::ReleaseNumber => true,
            _ => false,
        };
        match &e.msisdn {
            Some(ems) => {
                if is_claim {
                    let rec = OwnershipRecord {
                        imsi: e.imsi.clone(),
                        since: e.timestamp_ms,
                        until: None,
                    };
                    match find_owner(&owners, ems.as_str()) {
                        Some(j) => {
                            let pair = (ems.clone(), rec);
                            proof {
                                lemma_owners_view_update(owners@, j as int, pair);
                            }
                            owners.set(j, pair);
                        },
                        None => {
                            let ghost prev = owners@;
                            owners.push((ems.clone(), rec));
                            proof {
                                lemma_owners_view_absent(prev, ems@);
                                assert(owners@.drop_last() =~= prev);
                            }
                        },
                    }
                } else if is_release {
                    match find_owner(&owners, ems.as_str()) {
                        Some(j) => {
                            proof {
                                lemma_owners_view_get(owners@, j as int);
                            }
                            if str_eq(owners[j].1.imsi.as_str(), e.imsi.as_str()) {
                                let rec = OwnershipRecord {
                                    imsi: owners[j].1.imsi.clone(),
                                    since: owners[j].1.since,
                                    until: Some(e.timestamp_ms),
                                };
                                let pair = (ems.clone(), rec);
                                proof {
                                    lemma_owners_view_update(owners@, j as int, pair);
                                }
                                owners.set(j, pair);
                            }
                        },
                        None => {
                            proof {
                                lemma_owners_view_absent(owners@, ems@);
                            }
                        },
                    }
                }
            },
            None => (),
        }
        proof {
            assert(ownership_after(evs, i + 1) == ownership_step(
                ownership_after(evs, i as int),
                evs[i as int],
            ));
            assert(owners_view(owners@) =~= ownership_after(evs, i + 1));
        }
        i = i + 1;
    }
    proof {
        assert(evs.len() == n as int);
    }
    match find_owner(&owners, ms.as_str()) {
        Some(j) => {
            proof {
                lemma_owners_view_get(owners@, j as int);
            }
            let live = match owners[j].1.until {
                None => true,
                Some(t) => t > claim.timestamp_ms,
            };
            live && !str_eq(owners[j].1.imsi.as_str(), claim.imsi.as_str())
        },
        None => {
            proof {
                lemma_owners_view_absent(owners@, ms@);
            }
            false
        },
    }
}

// The executable counterpart of `CompState`.
struct CompRecord {
    imsi: String,
    msisdn: Option<String>,
    imei: Option<String>,
    mccmnc: String,
    valid_from: i64,
}

impl View for CompRecord {
    type V = CompState;

    closed spec fn view(&self) -> CompState {
        CompState {
            imsi: self.imsi@,
            msisdn: match self.msisdn {
                Some(s) => Some(s@),
                None => None,
            },
            imei: match self.imei {
                Some(s) => Some(s@),
                None => None,
            },
            mccmnc: self.mccmnc@,
            valid_from: self.valid_from as int,
        }
    }
}

impl CompRecord {
    /// The snapshot closing this record at `end`.
    fn close_into(&self, end: i64) -> (r: SubscriberSnapshot)
        requires
            state_open(self@),
        ensures
            r@ == close_snap(self@, end as int),
    {
        let msisdn = match &self.msisdn {
            Some(m) => m.clone(),
            None => {
                proof {
                    assert(false);
                }
                String::new()
            },
        };
        let imei = match &self.imei {
            Some(m) => m.clone(),
            None => {
                proof {
                    assert(false);
                }
                String::new()
            },
        };
        SubscriberSnapshot {
            imsi: self.imsi.clone(),
            msisdn,
            imei,
            mccmnc: self.mccmnc.clone(),
            valid_from: self.valid_from,
            valid_to: Some(end),
        }
    }

    /// The still-open snapshot of this record at end of stream.
    fn open_into(&self) -> (r: SubscriberSnapshot)
        requires
            state_open(self@),
        ensures
            r@ == open_snap(self@),
    {
        let msisdn = match &self.msisdn {
            Some(m) => m.clone(),
            None => {
                proof {
                    assert(false);
                }
                String::new()
            },
        };
        let imei = match &self.imei {
            Some(m) => m.clone(),
            None => {
                proof {
                    assert(false);
                }
                String::new()
            },
        };
        SubscriberSnapshot {
            imsi: self.imsi.clone(),
            msisdn,
            imei,
            mccmnc: self.mccmnc.clone(),
            valid_from: self.valid_from,
            valid_to: None,
        }
    }
}

/// Finds the record for an identity, scanning from the front.
fn find_comp_state(states: &Vec<CompRecord>, imsi: &str) -> (r: Option<usize>)
    ensures
        match r {
            Some(j) => j < states@.len() && states@[j as int]@.imsi == imsi@ && forall|l: int|
                0 <= l < j ==> (#[trigger] states@[l])@.imsi != imsi@,
            None => forall|l: int| 0 <= l < states@.len()
                ==> (#[trigger] states@[l])@.imsi != imsi@,
        },
{
    let n = states.len();
    let mut i: usize = 0;
    while i < n
        invariant
            0 <= i <= n,
            n == states@.len(),
            forall|l: int| 0 <= l < i ==> (#[trigger] states@[l])@.imsi != imsi@,
        decreases n - i,
    {
        if str_eq(states[i].imsi.as_str(), imsi) {
            return Some(i);
        }
        i = i + 1;
    }
    None
}

/// The first index found by a forward scan is `state_index`.
proof fn lemma_state_index_of_first(states: Seq<CompState>, imsi: Seq<char>, j: int)
    requires
        0 <= j < states.len(),
        states[j].imsi == imsi,
        forall|l: int| 0 <= l < j ==> (#[trigger] states[l]).imsi != imsi,
    ensures
        state_index(states, imsi) == j,
{
    lemma_state_index(states, imsi);
}

/// No match in a full forward scan means `state_index` is `-1`.
proof fn lemma_state_index_of_none(states: Seq<CompState>, imsi: Seq<char>)
    requires
        forall|l: int| 0 <= l < states.len() ==> (#[trigger] states[l]).imsi != imsi,
    ensures
        state_index(states, imsi) == -1,
{
    lemma_state_index(states, imsi);
}

/// The snapshot at index `i` answers a lookup for `imsi` at instant `t`.
pub open spec fn snap_match(s: SnapshotView, imsi: Seq<char>, t: int) -> bool {
    s.imsi == imsi && snapshot_contains(s, t)
}

/// The first snapshot index answering a lookup, or `-1`.
pub open spec fn snap_index(snaps: Seq<SnapshotView>, imsi: Seq<char>, t: int) -> int
    decreases snaps.len(),
{
    if snaps.len() == 0 {
        -1
    } else if snap_match(snaps[0], imsi, t) {
        0
    } else {
        let r = snap_index(snaps.drop_first(), imsi, t);
        if r == -1 {
            -1
        } else {
            r + 1
        }
    }
}

/// `snap_index` returns the first answering index, or `-1` when none does.
pub proof fn lemma_snap_index(snaps: Seq<SnapshotView>, imsi: Seq<char>, t: int)
    ensures
        -1 <= snap_index(snaps, imsi, t) < snaps.len(),
        snap_index(snaps, imsi, t) >= 0 ==> snap_match(snaps[snap_index(snaps, imsi, t)], imsi, t),
        forall|j: int|
            0 <= j < snaps.len() && (snap_index(snaps, imsi, t) == -1 || j < snap_index(
                snaps,
                imsi,
                t,
            )) ==> !snap_match(#[trigger] snaps[j], imsi, t),
    decreases snaps.len(),
{
    if snaps.len() > 0 && !snap_match(snaps[0], imsi, t) {
        lemma_snap_index(snaps.drop_first(), imsi, t);
        assert forall|j: int|
            0 <= j < snaps.len() && (snap_index(snaps, imsi, t) == -1 || j < snap_index(
                snaps,
                imsi,
                t,
            )) implies !snap_match(#[trigger] snaps[j], imsi, t) by {
            if j > 0 {
                assert(snaps[j] == snaps.drop_first()[j - 1]);
            }
        }
    }
}

/// What a lookup over compacted snapshots returns: the first snapshot of the
/// identity whose interval contains the instant.
pub open spec fn spec_snapshot_lookup(
    snaps: Seq<SnapshotView>,
    imsi: Seq<char>,
    t: int,
) -> Option<SnapshotView> {
    let k = snap_index(snaps, imsi, t);
    if k >= 0 {
        Some(snaps[k])
    } else {
        None
    }
}

/// How one event of the identity changes its replayed record (the
/// single-identity restriction of `compact_step`).
pub open spec fn replay_step(st: Option<CompState>, e: SubscriberEventView) -> Option<CompState> {
    match e.event_type {
        SubscriberEventType::NewSubscriber | SubscriberEventType::AssignNumber => Some(
            CompState {
                imsi: e.imsi,
                msisdn: e.msisdn,
                imei: e.imei,
                mccmnc: e.mccmnc,
                valid_from: e.timestamp_ms,
            },
        ),
        SubscriberEventType::ChangeDevice => match st {
            Some(s) => Some(CompState { imei: e.imei, valid_from: e.timestamp_ms, ..s }),
            None => Some(
                CompState {
                    imsi: e.imsi,
                    msisdn: None,
                    imei: e.imei,
                    mccmnc: e.mccmnc,
                    valid_from: e.timestamp_ms,
                },
            ),
        },
        SubscriberEventType::ChangeSim | SubscriberEventType::ReleaseNumber => match st {
            Some(s) => Some(CompState { msisdn: None, imei: None, ..s }),
            None => Some(
                CompState {
                    imsi: e.imsi,
                    msisdn: None,
                    imei: None,
                    mccmnc: e.mccmnc,
                    valid_from: e.timestamp_ms,
                },
            ),
        },
    }
}

/// The identity's replayed record after the first `n` events, ignoring
/// events after instant `t` or of other identities.
pub open spec fn replay_states(
    events: Seq<SubscriberEventView>,
    imsi: Seq<char>,
    t: int,
    n: int,
) -> Option<CompState>
    decreases n,
{
    if n <= 0 {
        None
    } else {
        let p = replay_states(events, imsi, t, n - 1);
        let e = events[n - 1];
        if e.timestamp_ms <= t && e.imsi == imsi {
            replay_step(p, e)
        } else {
            p
        }
    }
}

/// What a lookup computed straight from events returns: the identity's state
/// at the instant, as a still-open snapshot.
pub open spec fn spec_replay_lookup(
    events: Seq<SubscriberEventView>,
    imsi: Seq<char>,
    t: int,
) -> Option<SnapshotView> {
    match replay_states(events, imsi, t, events.len() as int) {
        Some(s) => if state_open(s) {
            Some(open_snap(s))
        } else {
            None
        },
        None => None,
    }
}

/// The greatest index of an event at or before `t` carrying the phone
/// number, or `-1`.
pub open spec fn last_holder_index(events: Seq<SubscriberEventView>, m: Seq<char>, t: int) -> int
    decreases events.len(),
{
    if events.len() == 0 {
        -1
    } else if events.last().msisdn == Some(m) && events.last().timestamp_ms <= t {
        events.len() - 1
    } else {
        last_holder_index(events.drop_last(), m, t)
    }
}

/// What a phone-number lookup computed straight from events returns: the
/// state of the last identity seen with the number at or before the instant.
pub open spec fn spec_msisdn_replay_lookup(
    events: Seq<SubscriberEventView>,
    m: Seq<char>,
    t: int,
) -> Option<SnapshotView> {
    let k = last_holder_index(events, m, t);
    if k >= 0 {
        spec_replay_lookup(events, events[k].imsi, t)
    } else {
        None
    }
}

/// The first snapshot index whose snapshot has phone number `m` and contains
/// `t`, or `-1`.
pub open spec fn msisdn_snap_index(snaps: Seq<SnapshotView>, m: Seq<char>, t: int) -> int
    decreases snaps.len(),
{
    if snaps.len() == 0 {
        -1
    } else if snaps[0].msisdn == m && snapshot_contains(snaps[0], t) {
        0
    } else {
        let r = msisdn_snap_index(snaps.drop_first(), m, t);
        if r == -1 {
            -1
        } else {
            r + 1
        }
    }
}

/// `msisdn_snap_index` returns the first answering index, or `-1`.
pub proof fn lemma_msisdn_snap_index(snaps: Seq<SnapshotView>, m: Seq<char>, t: int)
    ensures
        -1 <= msisdn_snap_index(snaps, m, t) < snaps.len(),
        msisdn_snap_index(snaps, m, t) >= 0 ==> {
            let k = msisdn_snap_index(snaps, m, t);
            snaps[k].msisdn == m && snapshot_contains(snaps[k], t)
        },
        forall|j: int|
            0 <= j < snaps.len() && (msisdn_snap_index(snaps, m, t) == -1 || j < msisdn_snap_index(
                snaps,
                m,
                t,
            )) ==> !((#[trigger] snaps[j]).msisdn == m && snapshot_contains(snaps[j], t)),
    decreases snaps.len(),
{
    if snaps.len() > 0 && !(snaps[0].msisdn == m && snapshot_contains(snaps[0], t)) {
        lemma_msisdn_snap_index(snaps.drop_first(), m, t);
        assert forall|j: int|
            0 <= j < snaps.len() && (msisdn_snap_index(snaps, m, t) == -1 || j < msisdn_snap_index(
                snaps,
                m,
                t,
            )) implies !((#[trigger] snaps[j]).msisdn == m && snapshot_contains(snaps[j], t)) by {
            if j > 0 {
                assert(snaps[j] == snaps.drop_first()[j - 1]);
            }
        }
    }
}

/// What a phone-number lookup over compacted snapshots returns.
pub open spec fn spec_msisdn_lookup(
    snaps: Seq<SnapshotView>,
    m: Seq<char>,
    t: int,
) -> Option<SnapshotView> {
    let k = msisdn_snap_index(snaps, m, t);
    if k >= 0 {
        Some(snaps[k])
    } else {
        None
    }
}

/// The phone number that the deterministic scheme gives subscriber index
/// `idx`: a prefix chosen round-robin, then the index as seven digits.
pub open spec fn expected_msisdn(idx: int, prefixes: Seq<Seq<char>>) -> Seq<char>
    recommends
        prefixes.len() > 0,
        idx >= 0,
{
    prefixes[idx % prefixes.len() as int] + crate::ids::padded_decimal(
        (idx % 10_000_000) as nat,
        7,
    )
}

/// The phone number belongs to some subscriber index in `[lo, hi)`.
pub open spec fn in_partition(m: Seq<char>, lo: int, hi: int, prefixes: Seq<Seq<char>>) -> bool {
    exists|idx: int| lo <= idx < hi && m == #[trigger] expected_msisdn(idx, prefixes)
}

/// The events a worker partition keeps: those whose phone number belongs to
/// the partition's subscriber indices.
pub open spec fn partition_pred(lo: int, hi: int, prefixes: Seq<Seq<char>>) -> spec_fn(
    SubscriberEventView,
) -> bool {
    |e: SubscriberEventView| e.msisdn is Some && in_partition(e.msisdn->0, lo, hi, prefixes)
}

/// The phone number of a subscriber index, as text.
pub fn msisdn_for_index(idx: usize, prefixes: &Vec<String>) -> (r: String)
    requires
        prefixes@.len() > 0,
    ensures
        r@ == expected_msisdn(idx as int, prefixes@.map_values(|p: String| p@)),
{
    let p = &prefixes[idx % prefixes.len()];
    let mut s = p.clone();
    let tail = crate::ids::u64_to_padded_string((idx % 10_000_000) as u64, 7);
    append_str(&mut s, tail.as_str());
    proof {
        let ps = prefixes@.map_values(|q: String| q@);
        assert(ps[idx as int % ps.len() as int] == prefixes@[idx as int % prefixes@.len() as int]@);
    }
    s
}

/// Copies an event field by field.
pub fn event_clone(e: &SubscriberEvent) -> (r: SubscriberEvent)
    ensures
        r@ == e@,
{
    SubscriberEvent {
        timestamp_ms: e.timestamp_ms,
        event_type: e.event_type,
        imsi: e.imsi.clone(),
        msisdn: clone_opt(&e.msisdn),
        imei: clone_opt(&e.imei),
        mccmnc: e.mccmnc.clone(),
    }
}

/// The view of an optional compactor record.
spec fn opt_rec_view(o: Option<CompRecord>) -> Option<CompState> {
    match o {
        Some(c) => Some(c@),
        None => None,
    }
}

/// Copies a snapshot field by field.
fn snapshot_clone(s: &SubscriberSnapshot) -> (r: SubscriberSnapshot)
    ensures
        r@ == s@,
{
    SubscriberSnapshot {
        imsi: s.imsi.clone(),
        msisdn: s.msisdn.clone(),
        imei: s.imei.clone(),
        mccmnc: s.mccmnc.clone(),
        valid_from: s.valid_from,
        valid_to: s.valid_to,
    }
}

/// Clones an optional string.
fn clone_opt(o: &Option<String>) -> (r: Option<String>)
    ensures
        r == *o,
{
    match o {
        Some(s) => Some(s.clone()),
        None => None,
    }
}

/// Checks that the text is all digits with a length in `[lo, hi]`.
pub fn check_digits_len(s: &str, lo: usize, hi: usize) -> (r: bool)
    ensures
        r == (lo <= s@.len() <= hi && all_digits(s@)),
{
    let n = s.unicode_len();
    if n < lo || n > hi {
        return false;
    }
    let mut i: usize = 0;
    while i < n
        invariant
            0 <= i <= n,
            n == s@.len(),
            forall|j: int| 0 <= j < i ==> crate::ids::is_digit_char(#[trigger] s@[j]),
        decreases n - i,
    {
        let d = s.get_char(i) as u32;
        if d < 48 || d > 57 {
            assert(!crate::ids::is_digit_char(s@[i as int]));
            return false;
        }
        assert(crate::ids::is_digit_char(s@[i as int]));
        i = i + 1;
    }
    true
}

} // verus!

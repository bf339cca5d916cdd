//! The flat record row of the generated detail-record files. The CSV writer
//! that serializes rows and rotates files performs I/O and lives with the
//! program around the library.

use vstd::prelude::*;

verus! {

/// One output row, with primitive fields only; a zero or empty field is
/// rendered as an empty column.
#[derive(Debug, Clone, Copy)]
pub struct EventRow {
    pub event_type: &'static str,
    pub msisdn_src: u64,
    pub msisdn_dst: u64,
    pub direction: &'static str,
    pub start_ts_ms: i64,
    pub end_ts_ms: i64,
    pub tz_name: &'static str,
    pub tz_offset_min: i32,
    pub duration_sec: i64,
    pub mccmnc: u32,
    pub imsi: u64,
    pub imei: u64,
    pub cell_id: u32,
    pub record_type: &'static str,
    pub cause_for_record_closing: &'static str,
    pub sms_segments: u32,
    pub sms_status: &'static str,
    pub data_bytes_in: u64,
    pub data_bytes_out: u64,
    pub data_duration_sec: i64,
    pub apn: &'static str,
    pub rat: &'static str,
}

/// Every numeric field is zero and every text field empty.
pub open spec fn row_is_reset(r: EventRow) -> bool {
    &&& r.event_type@ == Seq::<char>::empty()
    &&& r.msisdn_src == 0
    &&& r.msisdn_dst == 0
    &&& r.direction@ == Seq::<char>::empty()
    &&& r.start_ts_ms == 0
    &&& r.end_ts_ms == 0
    &&& r.tz_name@ == Seq::<char>::empty()
    &&& r.tz_offset_min == 0
    &&& r.duration_sec == 0
    &&& r.mccmnc == 0
    &&& r.imsi == 0
    &&& r.imei == 0
    &&& r.cell_id == 0
    &&& r.record_type@ == Seq::<char>::empty()
    &&& r.cause_for_record_closing@ == Seq::<char>::empty()
    &&& r.sms_segments == 0
    &&& r.sms_status@ == Seq::<char>::empty()
    &&& r.data_bytes_in == 0
    &&& r.data_bytes_out == 0
    &&& r.data_duration_sec == 0
    &&& r.apn@ == Seq::<char>::empty()
    &&& r.rat@ == Seq::<char>::empty()
}

impl Default for EventRow {
    /// A fully reset row.
    fn default() -> (r: Self)
        ensures
            row_is_reset(r),
    {
        proof {
            reveal_strlit("");
        }
        let r = EventRow {
            event_type: "",
            msisdn_src: 0,
            msisdn_dst: 0,
            direction: "",
            start_ts_ms: 0,
            end_ts_ms: 0,
            tz_name: "",
            tz_offset_min: 0,
            duration_sec: 0,
            mccmnc: 0,
            imsi: 0,
            imei: 0,
            cell_id: 0,
            record_type: "",
            cause_for_record_closing: "",
            sms_segments: 0,
            sms_status: "",
            data_bytes_in: 0,
            data_bytes_out: 0,
            data_duration_sec: 0,
            apn: "",
            rat: "",
        };
        proof {
            assert(""@ =~= Seq::<char>::empty());
        }
        r
    }
}

impl EventRow {
    /// Resets every field for reuse from an object pool.
    pub fn reset(&mut self)
        ensures
            row_is_reset(*final(self)),
    {
        *self = EventRow::default();
    }
}

} // verus!

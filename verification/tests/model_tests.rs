//! Tests of the event model, the validator, the compactor, and the
//! point-in-time lookups.

use rs_cdr_generator::subscriber_db::{
    event_to_csv_line, parse_event_line, ParseError, SubscriberDatabase, SubscriberEvent,
    SubscriberEventType, ValidationError,
};

fn ev(line: &str) -> SubscriberEvent {
    parse_event_line(line).unwrap()
}

#[test]
fn test_event_type_conversion() {
    assert_eq!(
        SubscriberEventType::from_str("NEW_SUBSCRIBER").unwrap(),
        SubscriberEventType::NewSubscriber
    );
    assert_eq!(SubscriberEventType::NewSubscriber.to_str(), "NEW_SUBSCRIBER");
}

#[test]
fn test_event_type_codes() {
    for code in 0u8..5u8 {
        let t = SubscriberEventType::from_code(code).unwrap();
        assert_eq!(t.to_code(), code);
    }
    assert!(SubscriberEventType::from_code(5).is_none());
}

#[test]
fn test_parse_event_line() {
    let e = ev("1704067200000,NEW_SUBSCRIBER,204081234567890,31612345678,123456789012345,20408");
    assert_eq!(e.timestamp_ms, 1704067200000);
    assert_eq!(e.event_type, SubscriberEventType::NewSubscriber);
    assert_eq!(e.imsi, "204081234567890");
    assert_eq!(e.msisdn.as_deref(), Some("31612345678"));
    assert_eq!(e.imei.as_deref(), Some("123456789012345"));
    assert_eq!(e.mccmnc, "20408");
}

#[test]
fn test_parse_event_line_optional_fields() {
    let e = ev("1704067200000,RELEASE_NUMBER,204081234567890,31612345678,,20408");
    assert!(e.imei.is_none());
    assert_eq!(e.msisdn.as_deref(), Some("31612345678"));
}

#[test]
fn test_parse_event_line_errors() {
    assert_eq!(
        parse_event_line("1,NEW_SUBSCRIBER,a,b,c").unwrap_err(),
        ParseError::WrongFieldCount
    );
    assert_eq!(
        parse_event_line("abc,NEW_SUBSCRIBER,a,b,c,d").unwrap_err(),
        ParseError::BadTimestamp
    );
    assert_eq!(
        parse_event_line("1,NO_SUCH_EVENT,a,b,c,d").unwrap_err(),
        ParseError::UnknownEventType
    );
}

#[test]
fn test_csv_line_round_trip() {
    let line = "1704067200000,CHANGE_DEVICE,204081234567890,31612345678,987654321098765,20408";
    let e = ev(line);
    assert_eq!(event_to_csv_line(&e), line);
}

#[test]
fn test_validate() {
    let events = vec![ev(
        "1704067200000,NEW_SUBSCRIBER,204081234567890,31612345678,123456789012345,20408",
    )];
    let db = SubscriberDatabase::from_events(events);
    assert!(db.validate().is_ok());
}

#[test]
fn test_validate_not_chronological() {
    let events = vec![
        ev("2000,NEW_SUBSCRIBER,204081234567890,31612345678,123456789012345,20408"),
        ev("1000,CHANGE_DEVICE,204081234567890,31612345678,987654321098765,20408"),
    ];
    let db = SubscriberDatabase::from_events(events);
    assert_eq!(
        db.validate().unwrap_err(),
        ValidationError::NotChronological { index: 1 }
    );
}

#[test]
fn test_validate_ownership_conflict() {
    let events = vec![
        ev("1000,NEW_SUBSCRIBER,204081234567890,31612345678,123456789012345,20408"),
        ev("2000,ASSIGN_NUMBER,204089999999999,31612345678,123456789012345,20408"),
    ];
    let db = SubscriberDatabase::from_events(events);
    assert_eq!(
        db.validate().unwrap_err(),
        ValidationError::OwnershipConflict {
            index: 1,
            owner_imsi: "204081234567890".to_string()
        }
    );
}

#[test]
fn test_validate_release_frees_number() {
    let events = vec![
        ev("1000,NEW_SUBSCRIBER,204081234567890,31612345678,123456789012345,20408"),
        ev("2000,RELEASE_NUMBER,204081234567890,31612345678,,20408"),
        ev("3000,ASSIGN_NUMBER,204089999999999,31612345678,123456789012345,20408"),
    ];
    let db = SubscriberDatabase::from_events(events);
    assert!(db.validate().is_ok());
}

#[test]
fn test_validate_bad_identifiers() {
    let bad_imsi = vec![ev("1000,NEW_SUBSCRIBER,123,31612345678,123456789012345,20408")];
    assert_eq!(
        SubscriberDatabase::from_events(bad_imsi).validate().unwrap_err(),
        ValidationError::BadImsi { index: 0 }
    );
    let bad_msisdn = vec![ev("1000,NEW_SUBSCRIBER,204081234567890,316,123456789012345,20408")];
    assert_eq!(
        SubscriberDatabase::from_events(bad_msisdn).validate().unwrap_err(),
        ValidationError::BadMsisdn { index: 0 }
    );
    let bad_imei = vec![ev("1000,NEW_SUBSCRIBER,204081234567890,31612345678,1234,20408")];
    assert_eq!(
        SubscriberDatabase::from_events(bad_imei).validate().unwrap_err(),
        ValidationError::BadImei { index: 0 }
    );
}

#[test]
fn test_get_snapshot_at() {
    let events = vec![
        ev("1704067200000,NEW_SUBSCRIBER,204081234567890,31612345678,123456789012345,20408"),
        ev("1704153600000,CHANGE_DEVICE,204081234567890,31612345678,987654321098765,20408"),
    ];
    let mut db = SubscriberDatabase::from_events(events);
    db.build_snapshots();

    let snapshot = db.get_snapshot_at("204081234567890", 1704000000000);
    assert!(snapshot.is_none());

    let snapshot = db.get_snapshot_at("204081234567890", 1704100000000).unwrap();
    assert_eq!(snapshot.imei, "123456789012345");

    let snapshot = db.get_snapshot_at("204081234567890", 1704200000000).unwrap();
    assert_eq!(snapshot.imei, "987654321098765");
}

#[test]
fn test_get_snapshot_by_msisdn() {
    let events = vec![
        ev("1000,NEW_SUBSCRIBER,204081234567890,31612345678,123456789012345,20408"),
        ev("2000,RELEASE_NUMBER,204081234567890,31612345678,,20408"),
        ev("9000,ASSIGN_NUMBER,204089999999999,31612345678,555555555555555,20416"),
    ];
    let mut db = SubscriberDatabase::from_events(events);
    db.build_snapshots();

    let s = db.get_snapshot_by_msisdn("31612345678", 1500).unwrap();
    assert_eq!(s.imsi, "204081234567890");
    let s = db.get_snapshot_by_msisdn("31612345678", 9500).unwrap();
    assert_eq!(s.imsi, "204089999999999");
    assert!(db.get_snapshot_by_msisdn("31612345678", 5000).is_none());
}

#[test]
fn test_snapshot_intervals_partition() {
    // One identity, one device change, then a release: the compacted
    // intervals must tile without overlap and close where the next opens.
    let events = vec![
        ev("1000,NEW_SUBSCRIBER,204081234567890,31612345678,123456789012345,20408"),
        ev("2000,CHANGE_DEVICE,204081234567890,31612345678,987654321098765,20408"),
        ev("3000,RELEASE_NUMBER,204081234567890,31612345678,,20408"),
    ];
    let mut db = SubscriberDatabase::from_events(events);
    db.build_snapshots();
    let snaps = db.get_snapshots();
    assert_eq!(snaps.len(), 2);
    assert_eq!(snaps[0].valid_from, 1000);
    assert_eq!(snaps[0].valid_to, Some(2000));
    assert_eq!(snaps[1].valid_from, 2000);
    assert_eq!(snaps[1].valid_to, Some(3000));
    for i in 0..snaps.len() {
        for j in (i + 1)..snaps.len() {
            if snaps[i].imsi == snaps[j].imsi {
                let end_i = snaps[i].valid_to.expect("earlier snapshot must be closed");
                assert!(end_i <= snaps[j].valid_from);
            }
        }
    }
}

#[test]
fn test_snapshot_ownership_exclusive_across_identities() {
    // One number passing between two identities: their snapshots never
    // overlap and at most one per number stays open.
    let events = vec![
        ev("1000,NEW_SUBSCRIBER,204081234567890,31612345678,123456789012345,20408"),
        ev("1500,CHANGE_DEVICE,204081234567890,31612345678,987654321098765,20408"),
        ev("2000,RELEASE_NUMBER,204081234567890,31612345678,,20408"),
        ev("9000,ASSIGN_NUMBER,204089999999999,31612345678,555555555555555,20416"),
    ];
    let mut db = SubscriberDatabase::from_events(events);
    assert!(db.validate().is_ok());
    db.build_snapshots();
    let snaps = db.get_snapshots();
    for i in 0..snaps.len() {
        for j in (i + 1)..snaps.len() {
            if snaps[i].msisdn == snaps[j].msisdn {
                assert!(!(snaps[i].valid_to.is_none() && snaps[j].valid_to.is_none()));
                let (first, second) = if snaps[i].valid_from <= snaps[j].valid_from {
                    (&snaps[i], &snaps[j])
                } else {
                    (&snaps[j], &snaps[i])
                };
                assert!(first.valid_to.expect("the earlier snapshot must be closed")
                    <= second.valid_from);
            }
        }
    }
}

#[test]
fn test_counts_and_imsis() {
    let events = vec![
        ev("1000,NEW_SUBSCRIBER,204081234567890,31612345678,123456789012345,20408"),
        ev("2000,NEW_SUBSCRIBER,204089999999999,31699999999,555555555555555,20416"),
        ev("3000,CHANGE_DEVICE,204081234567890,31612345678,987654321098765,20408"),
    ];
    let mut db = SubscriberDatabase::from_events(events);
    assert_eq!(db.event_count(), 3);
    assert_eq!(db.unique_imsi_count(), 2);
    let imsis = db.get_all_unique_imsi();
    assert_eq!(imsis, vec!["204081234567890".to_string(), "204089999999999".to_string()]);
    db.build_snapshots();
    assert_eq!(db.snapshot_count(), 3);
}

#[test]
fn test_filter_by_msisdn_range() {
    // Subscriber index 5 under prefix pool ["31612"] carries 316120000005.
    let events = vec![
        ev("1000,NEW_SUBSCRIBER,204081234567890,316120000005,123456789012345,20408"),
        ev("2000,NEW_SUBSCRIBER,204089999999999,316120000099,555555555555555,20416"),
    ];
    let db = SubscriberDatabase::from_events(events);
    let prefixes = vec!["31612".to_string()];
    let part = db.filter_by_msisdn_range(0, 10, &prefixes);
    assert_eq!(part.event_count(), 1);
    let part_all = db.filter_by_msisdn_range(0, 100, &prefixes);
    assert_eq!(part_all.event_count(), 2);
}

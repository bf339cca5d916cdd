//! Tests of the keyed snapshot store, its value codec, and the k-way merge.

use rs_cdr_generator::merge::merge_events;
use rs_cdr_generator::subscriber_db::{parse_event_line, SubscriberDatabase, SubscriberEvent};
use rs_cdr_generator::subscriber_db_redb::{
    decode_snapshots, encode_snapshots, group_snapshots_by_msisdn, SubscriberDbRedb,
    SubscriberSnapshotNumeric,
};

fn snap(imei: u64, from: i64, to: Option<i64>) -> SubscriberSnapshotNumeric {
    SubscriberSnapshotNumeric {
        imsi: 123456789,
        msisdn: 79001234567,
        imei,
        mccmnc: 25001,
        valid_from: from,
        valid_to: to,
    }
}

#[test]
fn test_insert_and_get() {
    let dir = tempfile::tempdir().unwrap();
    let db_path = dir.path().join("test.redb");
    let mut db = SubscriberDbRedb::new(db_path.to_str().unwrap()).unwrap();

    let snapshots = vec![
        snap(111111111111111, 1000, Some(2000)),
        snap(222222222222222, 2000, None),
    ];

    db.insert_snapshots(79001234567, &snapshots).unwrap();

    let sub = db.get_subscriber_at(79001234567, 1500).unwrap().unwrap();
    assert_eq!(sub.imei, 111111111111111);

    let sub = db.get_subscriber_at(79001234567, 2500).unwrap().unwrap();
    assert_eq!(sub.imei, 222222222222222);

    assert!(db.get_subscriber_at(79001234567, 500).unwrap().is_none());
}

#[test]
fn test_load_chunk() {
    let dir = tempfile::tempdir().unwrap();
    let db_path = dir.path().join("test.redb");
    let mut db = SubscriberDbRedb::new(db_path.to_str().unwrap()).unwrap();

    for msisdn in 79001234560u64..79001234570u64 {
        let snapshot = SubscriberSnapshotNumeric {
            imsi: msisdn - 79000000000,
            msisdn,
            imei: msisdn * 1000,
            mccmnc: 25001,
            valid_from: 0,
            valid_to: None,
        };
        db.insert_snapshots(msisdn, &vec![snapshot]).unwrap();
    }

    let chunk = db.load_chunk(79001234562, 79001234567).unwrap();
    assert_eq!(chunk.len(), 5);
    assert_eq!(chunk[0].0, 79001234562);
    assert_eq!(chunk[4].0, 79001234566);
}

#[test]
fn test_stats() {
    let dir = tempfile::tempdir().unwrap();
    let db_path = dir.path().join("test.redb");
    let mut db = SubscriberDbRedb::new(db_path.to_str().unwrap()).unwrap();

    for msisdn in 79001234500u64..79001234600u64 {
        let snapshots = vec![
            SubscriberSnapshotNumeric {
                imsi: msisdn - 79000000000,
                msisdn,
                imei: msisdn * 1000,
                mccmnc: 25001,
                valid_from: 0,
                valid_to: Some(1000),
            },
            SubscriberSnapshotNumeric {
                imsi: msisdn - 79000000000,
                msisdn,
                imei: msisdn * 2000,
                mccmnc: 25001,
                valid_from: 1000,
                valid_to: None,
            },
        ];
        db.insert_snapshots(msisdn, &snapshots).unwrap();
    }

    let stats = db.stats().unwrap();
    assert_eq!(stats.total_msisdns, 100);
    assert_eq!(stats.total_snapshots, 200);
}

#[test]
fn test_insert_batch_and_count() {
    let dir = tempfile::tempdir().unwrap();
    let db_path = dir.path().join("batch.redb");
    let mut db = SubscriberDbRedb::new(db_path.to_str().unwrap()).unwrap();

    let batch = vec![
        (100u64, vec![snap(111111111111111, 0, None)]),
        (200u64, vec![snap(222222222222222, 0, Some(10)), snap(333333333333333, 10, None)]),
    ];
    db.insert_snapshots_batch(&batch).unwrap();
    assert_eq!(db.count_msisdns().unwrap(), 2);
    let got = db.get_subscriber_at(200, 5).unwrap().unwrap();
    assert_eq!(got.imei, 222222222222222);
}

#[test]
fn test_find_snapshot_at() {
    let list = vec![
        snap(1, 1000, Some(2000)),
        snap(2, 2000, None),
    ];
    assert!(SubscriberDbRedb::find_snapshot_at(&list, 999).is_none());
    assert_eq!(SubscriberDbRedb::find_snapshot_at(&list, 1000).unwrap().imei, 1);
    assert_eq!(SubscriberDbRedb::find_snapshot_at(&list, 1999).unwrap().imei, 1);
    assert_eq!(SubscriberDbRedb::find_snapshot_at(&list, 2000).unwrap().imei, 2);
}

#[test]
fn test_codec_round_trip() {
    let list = vec![
        snap(111111111111111, -5, Some(2000)),
        snap(222222222222222, 2000, None),
    ];
    let bytes = encode_snapshots(&list);
    let back = decode_snapshots(&bytes).unwrap();
    assert_eq!(back, list);
}

#[test]
fn test_codec_exact_bytes() {
    // One record: count 1, then 8+8+8+4+8 little-endian fields, then the
    // absence byte for the open end.
    let list = vec![SubscriberSnapshotNumeric {
        imsi: 1,
        msisdn: 2,
        imei: 3,
        mccmnc: 4,
        valid_from: 5,
        valid_to: None,
    }];
    let bytes = encode_snapshots(&list);
    let expected: Vec<u8> = vec![
        1, 0, 0, 0, 0, 0, 0, 0, // count
        1, 0, 0, 0, 0, 0, 0, 0, // imsi
        2, 0, 0, 0, 0, 0, 0, 0, // msisdn
        3, 0, 0, 0, 0, 0, 0, 0, // imei
        4, 0, 0, 0, // mccmnc
        5, 0, 0, 0, 0, 0, 0, 0, // valid_from
        0, // valid_to absent
    ];
    assert_eq!(bytes, expected);
}

#[test]
fn test_codec_rejects_corrupt() {
    assert!(decode_snapshots(&vec![]).is_none());
    assert!(decode_snapshots(&vec![1, 0, 0, 0, 0, 0, 0, 0]).is_none());
    let list = vec![snap(1, 0, None)];
    let mut bytes = encode_snapshots(&list);
    bytes.push(0); // trailing byte
    assert!(decode_snapshots(&bytes).is_none());
}

fn ev(line: &str) -> SubscriberEvent {
    parse_event_line(line).unwrap()
}

#[test]
fn test_merge_order_preservation() {
    let s1 = vec![
        ev("1000,NEW_SUBSCRIBER,204080000000001,31612000001,111111111111111,20408"),
        ev("3000,CHANGE_DEVICE,204080000000001,31612000001,222222222222222,20408"),
    ];
    let s2 = vec![
        ev("2000,NEW_SUBSCRIBER,204080000000002,31612000002,333333333333333,20408"),
        ev("3000,RELEASE_NUMBER,204080000000002,31612000002,,20408"),
        ev("4000,ASSIGN_NUMBER,204080000000003,31612000002,444444444444444,20408"),
    ];
    let streams = vec![s1, s2];
    let merged = merge_events(&streams);
    assert_eq!(merged.len(), 5);
    for i in 1..merged.len() {
        assert!(merged[i - 1].timestamp_ms <= merged[i].timestamp_ms);
    }
    // The tie at 3000 resolves toward the lower-numbered stream.
    assert_eq!(merged[2].imsi, "204080000000001");
    assert_eq!(merged[3].imsi, "204080000000002");
}

#[test]
fn test_group_snapshots_by_msisdn() {
    let lines = [
        "1000,NEW_SUBSCRIBER,204080000000001,31612000001,111111111111111,20408",
        "1000,NEW_SUBSCRIBER,204080000000002,31612000002,222222222222222,20408",
        "2000,CHANGE_DEVICE,204080000000001,31612000001,333333333333333,20408",
    ];
    let events: Vec<SubscriberEvent> = lines.iter().map(|l| parse_event_line(l).unwrap()).collect();
    let mut db = SubscriberDatabase::from_events(events);
    db.build_snapshots();
    let groups = group_snapshots_by_msisdn(db.get_snapshots());
    assert_eq!(groups.len(), 2);
    let g1 = groups.iter().find(|g| g.0 == 31612000001).unwrap();
    assert_eq!(g1.1.len(), 2);
    assert_eq!(g1.1[0].imei, 111111111111111);
    assert_eq!(g1.1[1].imei, 333333333333333);
    let g2 = groups.iter().find(|g| g.0 == 31612000002).unwrap();
    assert_eq!(g2.1.len(), 1);
}

#[test]
fn test_merge_empty_streams() {
    let streams: Vec<Vec<SubscriberEvent>> = vec![vec![], vec![]];
    assert_eq!(merge_events(&streams).len(), 0);
}

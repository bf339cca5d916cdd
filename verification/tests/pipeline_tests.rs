//! Tests of the lifecycle simulator, identity generation, the row pool and
//! batches, prefixes, compression names, and identifier conversions.

use rand::SeedableRng;

use rs_cdr_generator::async_writer::EventBatch;
use rs_cdr_generator::compression::CompressionType;
use rs_cdr_generator::config::{parse_prefixes, PrefixError};
use rs_cdr_generator::event_pool::EventPool;
use rs_cdr_generator::identity::{build_subscribers, gen_imei};
use rs_cdr_generator::subscriber_db::{SubscriberDatabase, SubscriberEventType};
use rs_cdr_generator::subscriber_db_arrow::{
    id_string_to_u64, id_u64_to_string, mccmnc_to_u32, mccmnc_u32_to_string,
};
use rs_cdr_generator::subscriber_db_generator::{
    generate_database, ConfigError, GeneratorConfig, MS_PER_DAY,
};
use rs_cdr_generator::utils::{summarize_shards, ShardStats};
use rs_cdr_generator::writer::EventRow;

/// The daily probability, in parts per million, of an annual hazard rate.
fn annual_rate_to_daily_ppm(annual: f64) -> u32 {
    let daily = 1.0 - (1.0 - annual).powf(1.0 / 365.0);
    (daily * 1_000_000.0).round() as u32
}

#[test]
fn test_event_batch() {
    let mut batch = EventBatch::new(100);
    assert_eq!(batch.len(), 0);
    assert!(batch.is_empty());

    let event = EventRow::default();
    batch.push(event);
    assert_eq!(batch.len(), 1);
    assert!(!batch.is_empty());
    assert_eq!(batch.estimated_size, 230);
}

#[test]
fn test_batch_full() {
    let mut batch = EventBatch::new(10);
    let max_size = 1000;

    for _ in 0..5 {
        batch.push(EventRow::default());
    }

    assert!(batch.is_full(max_size));
}

#[test]
fn test_batch_clear() {
    let mut batch = EventBatch::new(10);
    batch.push(EventRow::default());
    batch.clear();
    assert!(batch.is_empty());
    assert_eq!(batch.estimated_size, 0);
}

#[test]
fn test_event_pool_creation() {
    let pool = EventPool::new(100);
    assert_eq!(pool.capacity(), 100);
    assert_eq!(pool.stats().current_index, 0);
}

#[test]
fn test_event_pool_acquire() {
    let mut pool = EventPool::new(10);

    let mut event1 = pool.acquire();
    event1.msisdn_src = 123456;
    assert_eq!(pool.stats().current_index, 1);

    let mut event2 = pool.acquire();
    event2.msisdn_src = 789012;
    assert_eq!(pool.stats().current_index, 2);
}

#[test]
fn test_event_pool_wrap_around() {
    let mut pool = EventPool::new(3);

    for i in 0..4 {
        let mut event = pool.acquire();
        event.msisdn_src = i as u64;
    }

    assert_eq!(pool.stats().current_index, 1);
}

#[test]
fn test_event_pool_reset() {
    let mut pool = EventPool::new(10);

    let mut event = pool.acquire();
    event.msisdn_src = 999999;
    event.event_type = "CALL";

    let mut event2 = pool.acquire();
    event2.msisdn_src = 111111;

    let event3 = pool.acquire();
    assert_eq!(event3.msisdn_dst, 0);
}

#[test]
fn test_row_reset() {
    let mut row = EventRow::default();
    row.imsi = 42;
    row.rat = "LTE";
    row.reset();
    assert_eq!(row.imsi, 0);
    assert_eq!(row.rat, "");
}

#[test]
fn test_id_conversion() {
    let id = "123456789012345";
    let u64_val = id_string_to_u64(id).unwrap();
    let back = id_u64_to_string(u64_val, 15);
    assert_eq!(id, back);
}

#[test]
fn test_id_conversion_padding() {
    assert_eq!(id_u64_to_string(42, 7), "0000042");
    assert_eq!(id_string_to_u64("0000042").unwrap(), 42);
    assert!(id_string_to_u64("12a").is_err());
    assert!(id_string_to_u64("").is_err());
}

#[test]
fn test_mccmnc_conversion() {
    let mccmnc = "25099";
    let u32_val = mccmnc_to_u32(mccmnc).unwrap();
    let back = mccmnc_u32_to_string(u32_val);
    assert_eq!(mccmnc, back);
}

#[test]
fn test_gen_imei() {
    let mut rng = rand::rngs::StdRng::seed_from_u64(42);
    let imei = gen_imei(&mut rng);
    assert!(imei >= 100_000_000_000_000);
    assert!(imei < 1_000_000_000_000_000);
}

#[test]
fn test_gen_imei_luhn() {
    let mut rng = rand::rngs::StdRng::seed_from_u64(7);
    for _ in 0..20 {
        let imei = gen_imei(&mut rng);
        // Re-check the Luhn rule over all fifteen digits at runtime.
        let mut total: u64 = 0;
        let mut temp = imei / 10;
        for pos in 0..14 {
            let mut d = temp % 10;
            temp /= 10;
            if pos % 2 == 1 {
                d *= 2;
                if d > 9 {
                    d -= 9;
                }
            }
            total += d;
        }
        assert_eq!((total + imei % 10) % 10, 0);
    }
}

#[test]
fn test_build_subscribers() {
    let mut rng = rand::rngs::StdRng::seed_from_u64(42);
    let prefixes = vec!["31612".to_string(), "31613".to_string()];
    let mccmnc_pool = vec!["20408".to_string(), "20416".to_string()];

    let subs = build_subscribers(10, &prefixes, &mccmnc_pool, &mut rng);
    assert_eq!(subs.len(), 10);

    for sub in &subs {
        assert!(sub.imei >= 100_000_000_000_000);
        assert!(sub.imei < 1_000_000_000_000_000);
        assert!(sub.msisdn >= 316120000000 && sub.msisdn < 316140000000);
        assert!(sub.mccmnc == 20408 || sub.mccmnc == 20416);
    }
}

fn scenario_config() -> GeneratorConfig {
    GeneratorConfig {
        initial_subscribers: 100,
        history_days: 30,
        device_change_daily_ppm: annual_rate_to_daily_ppm(0.15),
        number_release_daily_ppm: annual_rate_to_daily_ppm(0.05),
        new_subscriber_daily_ppm: 10_000,
        cooldown_days: 7,
        prefixes: vec!["31612".to_string()],
        mccmnc_pool: vec!["20408".to_string()],
        seed: 42,
        start_timestamp_ms: 1704067200000,
    }
}

#[test]
fn test_generate_database() {
    let config = scenario_config();

    let events = generate_database(&config).unwrap();
    assert!(!events.is_empty());
    assert!(events.len() >= config.initial_subscribers);

    for i in 1..events.len() {
        assert!(events[i].timestamp_ms >= events[i - 1].timestamp_ms);
    }
}

#[test]
fn test_generated_history_validates() {
    // The fixed scenario: at least the initial admissions, non-decreasing
    // timestamps, and no ownership conflict found by the validator.
    let config = scenario_config();
    let events = generate_database(&config).unwrap();
    assert!(events.len() >= 100);
    let db = SubscriberDatabase::from_events(events);
    assert!(db.validate().is_ok());
}

#[test]
fn test_generated_history_respects_cooldown() {
    let config = scenario_config();
    let cooldown_ms = config.cooldown_days as i64 * MS_PER_DAY;
    let events = generate_database(&config).unwrap();
    for i in 0..events.len() {
        if events[i].event_type != SubscriberEventType::ReleaseNumber {
            continue;
        }
        let released = events[i].msisdn.as_deref().unwrap();
        for j in 0..events.len() {
            let claims = events[j].event_type == SubscriberEventType::AssignNumber
                || events[j].event_type == SubscriberEventType::NewSubscriber;
            if claims
                && events[j].msisdn.as_deref() == Some(released)
                && events[j].timestamp_ms > events[i].timestamp_ms
            {
                assert!(events[j].timestamp_ms >= events[i].timestamp_ms + cooldown_ms);
            }
        }
    }
}

#[test]
fn test_generator_config_errors() {
    let base = scenario_config();

    let mut c = base.clone();
    c.initial_subscribers = 0;
    assert_eq!(generate_database(&c).unwrap_err(), ConfigError::ZeroPopulation);

    let mut c = base.clone();
    c.cooldown_days = 30;
    assert_eq!(generate_database(&c).unwrap_err(), ConfigError::CooldownExceedsHorizon);

    let mut c = base.clone();
    c.device_change_daily_ppm = 2_000_000;
    assert_eq!(generate_database(&c).unwrap_err(), ConfigError::RateOutOfRange);

    let mut c = base.clone();
    c.prefixes = vec![];
    assert_eq!(generate_database(&c).unwrap_err(), ConfigError::EmptyPrefixPool);

    let mut c = base.clone();
    c.mccmnc_pool = vec![];
    assert_eq!(generate_database(&c).unwrap_err(), ConfigError::EmptyNetworkPool);

    let mut c = base.clone();
    c.start_timestamp_ms = i64::MAX - 1000;
    assert_eq!(generate_database(&c).unwrap_err(), ConfigError::HorizonOverflow);

    let mut c = base.clone();
    c.mccmnc_pool = vec!["204081".to_string()];
    assert_eq!(generate_database(&c).unwrap_err(), ConfigError::MalformedPool);

    let mut c = base.clone();
    c.prefixes = vec!["31x12".to_string()];
    assert_eq!(generate_database(&c).unwrap_err(), ConfigError::MalformedPool);
}

#[test]
fn test_parse_prefixes() {
    let v = parse_prefixes("31612, 31613").unwrap();
    assert_eq!(v, vec!["31612".to_string(), "31613".to_string()]);

    let defaults = parse_prefixes("").unwrap();
    assert_eq!(defaults.len(), 4);
    assert_eq!(defaults[0], "31612");

    assert_eq!(
        parse_prefixes("31612,badone").unwrap_err(),
        PrefixError::BadPrefix { index: 1 }
    );
    assert_eq!(
        parse_prefixes("12").unwrap_err(),
        PrefixError::BadPrefix { index: 0 }
    );
}

#[test]
fn test_compression_type() {
    assert_eq!(CompressionType::from_str("GZip"), Some(CompressionType::Gzip));
    assert_eq!(CompressionType::from_str("gz"), Some(CompressionType::Gzip));
    assert_eq!(CompressionType::from_str("zstd"), Some(CompressionType::Zstd));
    assert_eq!(CompressionType::from_str("NONE"), Some(CompressionType::Uncompressed));
    assert_eq!(CompressionType::from_str("brotli"), None);
    assert_eq!(CompressionType::Gzip.extension(), ".gz");
    assert_eq!(CompressionType::Zstd.extension(), ".zst");
    assert_eq!(CompressionType::Uncompressed.extension(), "");
}

#[test]
fn test_summarize_shards() {
    let stats = vec![
        ShardStats { shard: 0, calls: 100, sms: 200, data: 300 },
        ShardStats { shard: 1, calls: 150, sms: 250, data: 350 },
    ];
    let summary = summarize_shards(&stats);
    assert_eq!(summary.total_calls, 250);
    assert_eq!(summary.total_sms, 450);
    assert_eq!(summary.total_data, 650);
    assert_eq!(summary.shards, 2);
}

//! Event-sourced temporal store for synthetic telecom subscriber identities.
//!
//! The crate models subscriber lifecycle events (new subscriber, device
//! change, SIM change, number release, number reassignment), validates an
//! event stream for chronological order and phone-number ownership
//! exclusivity, compacts events into non-overlapping validity snapshots,
//! persists snapshot lists in an embedded ordered key-value store keyed by
//! phone number, and merges independently generated per-partition event
//! streams into one global chronological stream.

pub mod ids;
pub mod text;
pub mod subscriber_db;
pub mod merge;
pub mod codec;
pub mod kv;
pub mod rng;
pub mod identity;
pub mod subscriber_db_generator;
pub mod subscriber_db_redb;
pub mod subscriber_db_arrow;
pub mod config;
pub mod compression;
pub mod writer;
pub mod event_pool;
pub mod async_writer;
pub mod utils;

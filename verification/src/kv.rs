//! The trusted boundary to the embedded key-value engine (redb): the store's
//! single table, `u64` key to byte-string value, behind contracts over the
//! named table contents `kv_contents`. Everything above this boundary is
//! verified against these contracts.

use vstd::prelude::*;
use redb::ReadableTable;
use redb::ReadableTableMetadata;

verus! {

/// A failure of the backing store.
#[derive(Debug, Clone)]
pub enum StoreError {
    /// The backing engine failed; the text carries its report.
    Backend(String),
    /// A stored value is not a well-formed snapshot-list encoding.
    Corrupt,
}

#[verifier::external_type_specification]
#[verifier::external_body]
pub struct ExDatabase(redb::Database);

/// What the store's table holds: each present key's stored bytes.
pub uninterp spec fn kv_contents(db: redb::Database) -> Map<u64, Seq<u8>>;

/// The map after storing every entry in order.
pub open spec fn kv_insert_all(m: Map<u64, Seq<u8>>, entries: Seq<(u64, Vec<u8>)>) -> Map<
    u64,
    Seq<u8>,
>
    decreases entries.len(),
{
    if entries.len() == 0 {
        m
    } else {
        kv_insert_all(m, entries.drop_last()).insert(entries.last().0, entries.last().1@)
    }
}

/// Relies on `redb::Database::create`: creates the database file, or opens
/// it if it already exists. Nothing is assumed of the contents.
#[verifier::external_body]
pub fn kv_create(path: &str) -> (r: Result<redb::Database, StoreError>)
{
    redb::Database::create(path).map_err(|e| StoreError::Backend(e.to_string()))
}

/// Relies on `redb::Database::open`: opens an existing database file.
/// Nothing is assumed of the contents.
#[verifier::external_body]
pub fn kv_open(path: &str) -> (r: Result<redb::Database, StoreError>)
{
    redb::Database::open(path).map_err(|e| StoreError::Backend(e.to_string()))
}

/// Relies on redb's write transaction (`begin_write`, `open_table`,
/// `Table::insert`, `commit`): stores every entry under its key in one
/// committed transaction. On failure nothing is committed: an uncommitted
/// `WriteTransaction` aborts when dropped, and a failed `commit` never
/// publishes the transaction's root, so the stored contents are unchanged.
#[verifier::external_body]
pub fn kv_insert_batch(db: &mut redb::Database, entries: &Vec<(u64, Vec<u8>)>) -> (r: Result<
    (),
    StoreError,
>)
    ensures
        match r {
            Ok(()) => kv_contents(*final(db)) == kv_insert_all(
                kv_contents(*old(db)),
                entries@,
            ),
            Err(e) => e is Backend && kv_contents(*final(db)) == kv_contents(*old(db)),
        },
{
    let def: redb::TableDefinition<u64, &[u8]> = redb::TableDefinition::new("snapshots");
    let txn = db.begin_write().map_err(|e| StoreError::Backend(e.to_string()))?;
    {
        let mut table = txn.open_table(def).map_err(|e| StoreError::Backend(e.to_string()))?;
        for (k, v) in entries.iter() {
            table.insert(*k, v.as_slice()).map_err(|e| StoreError::Backend(e.to_string()))?;
        }
    }
    txn.commit().map_err(|e| StoreError::Backend(e.to_string()))
}

/// Relies on redb's read transaction (`begin_read`, `open_table`, `get`):
/// returns the bytes stored under the key, or nothing when the key (or the
/// whole table, in a freshly created database) is absent.
#[verifier::external_body]
pub fn kv_get(db: &redb::Database, key: u64) -> (r: Result<Option<Vec<u8>>, StoreError>)
    ensures
        match r {
            Ok(Some(v)) => kv_contents(*db).contains_key(key) && v@ == kv_contents(*db)[key],
            Ok(None) => !kv_contents(*db).contains_key(key),
            Err(e) => e is Backend,
        },
{
    let def: redb::TableDefinition<u64, &[u8]> = redb::TableDefinition::new("snapshots");
    let txn = db.begin_read().map_err(|e| StoreError::Backend(e.to_string()))?;
    let table = match txn.open_table(def) {
        Ok(t) => t,
        Err(redb::TableError::TableDoesNotExist(_)) => return Ok(None),
        Err(e) => return Err(StoreError::Backend(e.to_string())),
    };
    match table.get(key) {
        Ok(Some(guard)) => Ok(Some(guard.value().to_vec())),
        Ok(None) => Ok(None),
        Err(e) => Err(StoreError::Backend(e.to_string())),
    }
}

/// Relies on redb's read transaction and `range`: returns the entries with
/// keys in `[lo, hi)`, in ascending key order, exactly those present (none
/// when the table does not exist yet).
#[verifier::external_body]
pub fn kv_range(db: &redb::Database, lo: u64, hi: u64) -> (r: Result<
    Vec<(u64, Vec<u8>)>,
    StoreError,
>)
    ensures
        match r {
            Ok(v) => {
                &&& forall|i: int, j: int| 0 <= i < j < v@.len()
                    ==> (#[trigger] v@[i]).0 < (#[trigger] v@[j]).0
                &&& forall|i: int| 0 <= i < v@.len() ==> lo <= (#[trigger] v@[i]).0 < hi
                    && kv_contents(*db).contains_key(v@[i].0) && v@[i].1@ == kv_contents(
                    *db,
                )[v@[i].0]
                &&& forall|k: u64| lo <= k < hi && kv_contents(*db).contains_key(k)
                    ==> exists|i: int| 0 <= i < v@.len() && (#[trigger] v@[i]).0 == k
            },
            Err(e) => e is Backend,
        },
{
    let def = redb::TableDefinition::<u64, &[u8]>::new("snapshots");
    let mut out = Vec::new();
    let txn = db.begin_read().map_err(|e| StoreError::Backend(e.to_string()))?;
    let table = match txn.open_table(def) {
        Ok(t) => t,
        Err(redb::TableError::TableDoesNotExist(_)) => return Ok(out),
        Err(e) => return Err(StoreError::Backend(e.to_string())),
    };
    for entry in table.range(lo..hi).map_err(|e| StoreError::Backend(e.to_string()))? {
        let (k, v) = entry.map_err(|e| StoreError::Backend(e.to_string()))?;
        out.push((k.value(), v.value().to_vec()));
    }
    Ok(out)
}

/// Relies on redb's read transaction and `iter`: returns every entry, in
/// ascending key order (none when the table does not exist yet).
#[verifier::external_body]
pub fn kv_all(db: &redb::Database) -> (r: Result<Vec<(u64, Vec<u8>)>, StoreError>)
    ensures
        match r {
            Ok(v) => {
                &&& forall|i: int, j: int| 0 <= i < j < v@.len()
                    ==> (#[trigger] v@[i]).0 < (#[trigger] v@[j]).0
                &&& forall|i: int| 0 <= i < v@.len() ==> kv_contents(*db).contains_key(
                    (#[trigger] v@[i]).0,
                ) && v@[i].1@ == kv_contents(*db)[v@[i].0]
                &&& forall|k: u64| kv_contents(*db).contains_key(k) ==> exists|i: int|
                    0 <= i < v@.len() && (#[trigger] v@[i]).0 == k
            },
            Err(e) => e is Backend,
        },
{
    let def = redb::TableDefinition::<u64, &[u8]>::new("snapshots");
    let mut out = Vec::new();
    let txn = db.begin_read().map_err(|e| StoreError::Backend(e.to_string()))?;
    let table = match txn.open_table(def) {
        Ok(t) => t,
        Err(redb::TableError::TableDoesNotExist(_)) => return Ok(out),
        Err(e) => return Err(StoreError::Backend(e.to_string())),
    };
    for entry in table.iter().map_err(|e| StoreError::Backend(e.to_string()))? {
        let (k, v) = entry.map_err(|e| StoreError::Backend(e.to_string()))?;
        out.push((k.value(), v.value().to_vec()));
    }
    Ok(out)
}

/// Relies on redb's `ReadableTableMetadata::len`: the number of keys present
/// (zero when the table does not exist yet).
#[verifier::external_body]
pub fn kv_len(db: &redb::Database) -> (r: Result<u64, StoreError>)
    ensures
        match r {
            Ok(n) => n as nat == kv_contents(*db).dom().len(),
            Err(e) => e is Backend,
        },
{
    let def: redb::TableDefinition<u64, &[u8]> = redb::TableDefinition::new("snapshots");
    let txn = db.begin_read().map_err(|e| StoreError::Backend(e.to_string()))?;
    let table = match txn.open_table(def) {
        Ok(t) => t,
        Err(redb::TableError::TableDoesNotExist(_)) => return Ok(0),
        Err(e) => return Err(StoreError::Backend(e.to_string())),
    };
    table.len().map_err(|e| StoreError::Backend(e.to_string()))
}

} // verus!

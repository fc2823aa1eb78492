use alchemy::attribute_cache::clock_cache::ClockCache;
use alchemy::attribute_cache::{Rid, Schema, ValueRef};
use alchemy::error::TransactionError;
use alchemy::index::{Art, DbIndex, FlurryMap};
use alchemy::query::{Field, FieldsMeta, UpdateQuery};
use alchemy::table::{DbTable, DbTableBuilder};
use alchemy::utils::test_gen::{value_compare, FieldItemSchema, TestItem};
use alchemy::utils::TestGen;

const TUPLE_SZ: usize = 16;
const FIELD_SZ: usize = 4;
type CacheSchema = FieldItemSchema<FIELD_SZ, TUPLE_SZ>;

fn query() -> FieldsMeta<4> {
    FieldsMeta::new([
        Field::new(0, 8),
        Field::new(24, 32),
        Field::new(72, 80),
        Field::new(80, 88),
    ])
}

fn schema() -> CacheSchema {
    FieldItemSchema::from_fields(query().fields)
}

const PROBE_LEN: usize = 16;

#[test]
fn clock_insert() {
    let capacity = PROBE_LEN * 8;
    let item_cnt = capacity * 10;
    let q = query();
    let mut cache = ClockCache::new_cap(capacity, PROBE_LEN, item_cnt, schema());
    cache.thread_init();
    let mut rid_array = Vec::with_capacity(item_cnt);
    for i in 0..item_cnt {
        let (rid, guard) = cache.insert(TestItem::<TUPLE_SZ>::from_increasing(i));
        cache.write_unlock(rid, guard);
        rid_array.push(rid);
    }

    // The first items were evicted: they are read from the storage.
    for (i, rid) in rid_array.iter().enumerate().take(item_cnt - capacity) {
        let guard = cache.read_lock_sync(*rid).unwrap();
        {
            let qv = cache.read(*rid, &guard, &q, false);
            assert!(!qv.cached_hit());
            assert!(qv.has_tuple());
            assert!(value_compare(&qv, &q, &TestItem::<TUPLE_SZ>::from_increasing(i), &schema()));
        }
        cache.read_unlock(*rid, guard);
    }

    // The last items hit the cache, and their reference bits get set.
    for (i, rid) in rid_array.iter().enumerate().skip(item_cnt - capacity) {
        let mut guard = cache.write_lock_sync(*rid).unwrap();
        {
            let qv = cache.read_and_promote(*rid, &mut guard, &q, true, true, true);
            assert!(qv.cached_hit());
            assert!(!qv.has_tuple());
            assert!(value_compare(&qv, &q, &TestItem::<TUPLE_SZ>::from_increasing(i), &schema()));
        }
        cache.write_unlock(*rid, guard);
    }

    // Reading the first few items clears every reference bit, and caches none of them.
    for (i, rid) in rid_array.iter().enumerate().take(capacity / PROBE_LEN) {
        let mut guard = cache.write_lock_sync(*rid).unwrap();
        {
            let qv = cache.read_and_promote(*rid, &mut guard, &q, true, true, true);
            assert!(!qv.cached_hit());
            assert!(value_compare(&qv, &q, &TestItem::<TUPLE_SZ>::from_increasing(i), &schema()));
        }
        cache.write_unlock(*rid, guard);
    }

    // Now flooding the cache: every item is promoted to the cache.
    for (i, rid) in rid_array.iter().enumerate().take(capacity) {
        let mut guard = cache.write_lock_sync(*rid).unwrap();
        {
            let qv = cache.read_and_promote(*rid, &mut guard, &q, true, true, true);
            assert!(qv.cached_hit());
            assert!(value_compare(&qv, &q, &TestItem::<TUPLE_SZ>::from_increasing(i), &schema()));
        }
        cache.write_unlock(*rid, guard);
    }
}

#[test]
fn clock_insert_then_read_gives_the_record() {
    let mut cache = ClockCache::new_cap(16, 4, 100, schema());
    let q = query();
    let mut rids = vec![];
    for i in 0..40 {
        let (rid, guard) = cache.insert(TestItem::<TUPLE_SZ>::from_increasing(i));
        assert_eq!(rid.as_u32(), i as u32);
        cache.write_unlock(rid, guard);
        rids.push(rid);
    }
    assert_eq!(cache.record_cnt(), 40);
    for (i, rid) in rids.iter().enumerate() {
        let guard = cache.read_lock_sync(*rid).unwrap();
        {
            let qv = cache.read(*rid, &guard, &q, true);
            assert!(qv.has_field() || qv.has_tuple());
            assert!(value_compare(&qv, &q, &TestItem::<TUPLE_SZ>::from_increasing(i), &schema()));
        }
        cache.read_unlock(*rid, guard);
    }
}

#[test]
fn clock_read_and_promote_caches_the_record() {
    let mut cache = ClockCache::new_cap(64, 8, 200, schema());
    let q = query();
    let mut rids = vec![];
    for i in 0..200 {
        let (rid, guard) = cache.insert(TestItem::<TUPLE_SZ>::from_increasing(i * 100));
        cache.write_unlock(rid, guard);
        rids.push(rid);
    }
    let rid = rids[3];
    let mut guard = cache.write_lock_sync(rid).unwrap();
    let hit = {
        let qv = cache.read_and_promote(rid, &mut guard, &q, false, true, false);
        assert!(value_compare(&qv, &q, &TestItem::<TUPLE_SZ>::from_increasing(300), &schema()));
        qv.cached_hit()
    };
    cache.write_unlock(rid, guard);
    let guard = cache.read_lock_sync(rid).unwrap();
    {
        let qv = cache.read(rid, &guard, &q, false);
        assert!(value_compare(&qv, &q, &TestItem::<TUPLE_SZ>::from_increasing(300), &schema()));
        if hit {
            assert!(qv.cached_hit());
            assert!(!qv.has_tuple());
        }
    }
    cache.read_unlock(rid, guard);
}

#[test]
fn clock_locks_exclude_each_other() {
    let mut cache = ClockCache::new_cap(8, 4, 10, schema());
    let (rid, wguard) = cache.insert(TestItem::<TUPLE_SZ>::from_fixed(7));
    assert_eq!(cache.read_lock_sync(rid).err(), Some(TransactionError::ReadLockBusy));
    assert_eq!(cache.write_lock_sync(rid).err(), Some(TransactionError::WriteLockBusy));
    cache.write_unlock(rid, wguard);
    let r1 = cache.read_lock_sync(rid).unwrap();
    let r2 = cache.read_lock_sync(rid).unwrap();
    assert_eq!(cache.write_lock_sync(rid).err(), Some(TransactionError::WriteLockBusy));
    cache.read_unlock(rid, r1);
    cache.read_unlock(rid, r2);
    let w = cache.write_lock_sync(rid).unwrap();
    cache.write_unlock(rid, w);
}

#[test]
fn clock_capacity_from_sizes() {
    let cache = ClockCache::new_cap(8, 4, 10, schema());
    assert_eq!(cache.capacity_of_table(), 10);
    assert_eq!(cache.record_cnt(), 0);
}

fn flurry_table(records: usize) -> DbTable<FlurryMap, CacheSchema> {
    let tuple = std::mem::size_of::<TestItem<TUPLE_SZ>>();
    DbTable::<FlurryMap, CacheSchema>::builder()
        .cache((records / 10 + 1) * tuple)
        .probe_len(Some(4))
        .storage(records * tuple)
        .schema(schema())
        .build()
}

#[test]
fn insert_read() {
    let record_cnt = 1000;
    let storage_size = record_cnt * std::mem::size_of::<TestItem<TUPLE_SZ>>();
    let cache_size = (record_cnt / 10) * std::mem::size_of::<TestItem<TUPLE_SZ>>();
    let mut table = DbTable::<FlurryMap, FieldItemSchema<FIELD_SZ, TUPLE_SZ>>::builder()
        .cache(cache_size)
        .probe_len(Some(4))
        .storage(storage_size)
        .schema(schema())
        .build();

    let guard = table.pin();
    for i in 0..record_cnt {
        let item = TestItem::from_increasing(i);
        let (rid, x_guard) = table.insert(item, &guard);
        table.write_unlock(rid, x_guard);
    }

    let query = TestItem::<TUPLE_SZ>::build_query([0, 3, 9]);
    for i in 0..record_cnt {
        let key = i;
        let (rid, oid_read) = table.read_oid(&key, &guard).unwrap();
        {
            let value = table.read(rid, &oid_read, &query, true);
            assert!(value_compare(&value, &query, &TestItem::<TUPLE_SZ>::from_increasing(i), &schema()));
        }
        table.read_unlock(rid, oid_read);
    }

    let query_miss = TestItem::<TUPLE_SZ>::build_query([1, 3, 10]);
    for i in 0..record_cnt {
        let key = i;
        let (rid, oid_read) = table.read_oid(&key, &guard).unwrap();
        {
            let value = table.read(rid, &oid_read, &query_miss, true);
            assert!(value_compare(
                &value,
                &query_miss,
                &TestItem::<TUPLE_SZ>::from_increasing(i),
                &schema(),
            ));
        }
        table.read_unlock(rid, oid_read);
    }
}

#[test]
fn table_insert_then_lookup_by_key() {
    let mut table = flurry_table(100);
    let guard = table.pin();
    let q = query();
    for i in 0..50 {
        // the key of a test record is its first word
        let item = TestItem::<TUPLE_SZ>::from_increasing(i * 1000);
        assert_eq!(table.schema().key(&item), i * 1000);
        let (rid, w) = table.insert(item, &guard);
        assert_eq!(rid.as_u32(), i as u32);
        if i != 1 {
            table.write_unlock(rid, w);
        }
    }
    // record 1 is still write-locked
    assert_eq!(table.read_oid_sync(&1000, &guard).err(), Some(TransactionError::ReadLockBusy));
    assert_eq!(table.write_oid_sync(&1000, &guard).err(), Some(TransactionError::WriteLockBusy));
    assert_eq!(table.read_oid_sync(&1001, &guard).err(), Some(TransactionError::IndexNotFound));
    assert_eq!(table.write_oid_sync(&7, &guard).err(), Some(TransactionError::IndexNotFound));
    let (rid, r) = table.read_oid_sync(&7000, &guard).unwrap();
    assert_eq!(rid.as_u32(), 7);
    {
        let qv = table.read(rid, &r, &q, false);
        assert!(value_compare(&qv, &q, &TestItem::<TUPLE_SZ>::from_increasing(7000), &schema()));
    }
    assert_eq!(table.write_oid_sync(&7000, &guard).err(), Some(TransactionError::WriteLockBusy));
    table.read_unlock(rid, r);
    let (rid, w) = table.write_oid_sync(&7000, &guard).unwrap();
    assert_eq!(rid.as_u32(), 7);
    table.write_unlock(rid, w);
}

#[test]
fn table_promote_then_read() {
    let mut table = flurry_table(100);
    let guard = table.pin();
    let q = query();
    for i in 0..100 {
        let (rid, w) = table.insert(TestItem::<TUPLE_SZ>::from_increasing(i), &guard);
        table.write_unlock(rid, w);
    }
    let rid = Rid::from_u32(5);
    let mut w = table.lock_rid_w(rid).unwrap();
    {
        let qv = table.read_and_promote(rid, &mut w, &q, false, true, false);
        assert!(value_compare(&qv, &q, &TestItem::<TUPLE_SZ>::from_increasing(5), &schema()));
    }
    table.write_unlock(rid, w);
    let r = table.lock_rid_r(rid).unwrap();
    {
        let qv = table.read(rid, &r, &q, true);
        assert!(value_compare(&qv, &q, &TestItem::<TUPLE_SZ>::from_increasing(5), &schema()));
    }
    table.read_unlock(rid, r);
}

#[test]
fn table_reset_forgets_keys() {
    let mut table = flurry_table(10);
    let guard = table.pin();
    let (rid, w) = table.insert(TestItem::<TUPLE_SZ>::from_increasing(5), &guard);
    table.write_unlock(rid, w);
    table.reset();
    let guard = table.pin();
    assert_eq!(table.read_oid_sync(&5, &guard).err(), Some(TransactionError::IndexNotFound));
}

#[test]
fn flurry_index_get_insert() {
    let mut index = FlurryMap::new();
    let guard = index.pin();
    assert!(index.get(&3, &guard).is_none());
    index.insert(3, Rid::from_u32(7), &guard);
    assert_eq!(index.get(&3, &guard).map(|r| r.as_u32()), Some(7));
    index.insert(3, Rid::from_u32(9), &guard);
    assert_eq!(index.get(&3, &guard).map(|r| r.as_u32()), Some(9));
    let index2 = FlurryMap::with_capacity(100);
    assert!(index2.get(&3, &guard).is_none());
}

#[test]
fn art_index_range_scan() {
    let mut index = Art::new();
    let guard = index.pin();
    for k in [10usize, 3, 7, 20, 15] {
        index.insert(k, Rid::from_u32(k as u32 * 2), &guard);
    }
    assert_eq!(index.get(&7, &guard).map(|r| r.as_u32()), Some(14));
    assert!(index.get(&8, &guard).is_none());
    let mut out = [(0usize, 0usize); 3];
    let n = index.range(5, 20, &mut out, &guard);
    assert_eq!(n, 3);
    assert_eq!(out, [(7, 14), (10, 20), (15, 30)]);
    let mut out = [(0usize, 0usize); 10];
    let n = index.range(0, 100, &mut out, &guard);
    assert_eq!(n, 5);
    assert_eq!(out[4], (20, 40));
    assert_eq!(out[5], (0, 0));
    let mut empty: [(usize, usize); 0] = [];
    assert_eq!(index.range(0, 100, &mut empty, &guard), 0);
}

#[test]
fn art_table_range_gives_record_ids() {
    let tuple = std::mem::size_of::<TestItem<TUPLE_SZ>>();
    let mut table: DbTable<Art, CacheSchema> = DbTableBuilder::new()
        .cache(64 * 1024)
        .storage(100 * tuple)
        .probe_len(Some(4))
        .schema(schema())
        .build();
    let guard = table.pin();
    for i in 0..10 {
        let (rid, w) = table.insert(TestItem::<TUPLE_SZ>::from_increasing(i * 10), &guard);
        table.write_unlock(rid, w);
    }
    let mut rids = [Rid::from_u32(999); 4];
    let n = table.range(15, 60, &mut rids).unwrap();
    assert_eq!(n, 4);
    let ids: Vec<u32> = rids.iter().map(|r| r.as_u32()).collect();
    assert_eq!(ids, vec![2, 3, 4, 5]);
}

/// The words of a query's answer, field by field.
fn answered_words<L, const N: usize>(
    value: &alchemy::attribute_cache::QueryValue<
        <CacheSchema as Schema>::Field,
        TestItem<TUPLE_SZ>,
        L,
    >,
    query: &FieldsMeta<N>,
) -> Vec<usize> {
    let s = schema();
    query
        .fields
        .iter()
        .map(|q| match value.get_value(q, &s) {
            ValueRef::Cached(c, cf) => c.read_field(&cf),
            ValueRef::Stored(t, f) => t.read_field(&f),
        })
        .collect()
}

fn word_bytes(words: [usize; 3]) -> Vec<u8> {
    words.iter().flat_map(|w| w.to_le_bytes()).collect()
}

#[test]
fn update_read() {
    let record_cnt = 1000;
    let storage_size = record_cnt * std::mem::size_of::<TestItem<TUPLE_SZ>>();
    let cache_size = (record_cnt / 10) * std::mem::size_of::<TestItem<TUPLE_SZ>>();
    let mut table = DbTable::<FlurryMap, CacheSchema>::builder()
        .cache(cache_size)
        .probe_len(Some(4))
        .storage(storage_size)
        .schema(schema())
        .build();

    let guard = table.pin();
    for i in 0..record_cnt {
        let item = TestItem::from_increasing(i);
        let (rid, x_guard) = table.insert(item, &guard);
        table.write_unlock(rid, x_guard);
    }

    // Update cached fields
    let query = TestItem::<TUPLE_SZ>::build_query([0, 3, 9]);
    let query_data = word_bytes([42, 42, 42]);
    let update = UpdateQuery::from_meta(query, &query_data);
    for i in 0..record_cnt {
        let key = i;
        let (rid, mut write_oid) = table.write_oid(&key, &guard).unwrap();
        table.update(rid, &mut write_oid, update.clone());
        table.write_unlock(rid, write_oid);
    }

    // Read back updated entries
    let query = TestItem::<TUPLE_SZ>::build_query([0, 3, 9]);
    for i in 0..record_cnt {
        let key = i;
        let (rid, oid_read) = table.read_oid(&key, &guard).unwrap();
        {
            let value = table.read(rid, &oid_read, &query, true);
            assert_eq!(answered_words(&value, &query), vec![42, 42, 42]);
        }
        table.read_unlock(rid, oid_read);
    }

    // Update the uncached fields
    let query = TestItem::<TUPLE_SZ>::build_query([1, 3, 10]);
    let update_data = word_bytes([24, 24, 24]);
    let update = UpdateQuery::from_meta(query, &update_data);
    for i in 0..record_cnt {
        let key = i;
        let (rid, mut write_oid) = table.write_oid(&key, &guard).unwrap();
        table.update(rid, &mut write_oid, update.clone());
        table.write_unlock(rid, write_oid);
    }

    let query = TestItem::<TUPLE_SZ>::build_query([1, 3, 10]);
    for i in 0..record_cnt {
        let key = i;
        let (rid, oid_read) = table.read_oid(&key, &guard).unwrap();
        {
            let value = table.read(rid, &oid_read, &query, true);
            assert_eq!(answered_words(&value, &query), vec![24, 24, 24]);
        }
        table.read_unlock(rid, oid_read);
    }
}

#[test]
fn update_leaves_other_fields_and_records() {
    let mut table = flurry_table(100);
    let guard = table.pin();
    for i in 0..10 {
        let (rid, w) = table.insert(TestItem::<TUPLE_SZ>::from_increasing(i * 1000), &guard);
        table.write_unlock(rid, w);
    }
    let query = TestItem::<TUPLE_SZ>::build_query([2]);
    let data: Vec<u8> = 7usize.to_le_bytes().to_vec();
    let update = UpdateQuery::from_meta(query, &data);
    let (rid, mut w) = table.write_oid(&3000, &guard).unwrap();
    table.update(rid, &mut w, update);
    table.write_unlock(rid, w);

    let q = TestItem::<TUPLE_SZ>::build_query([0, 1, 2]);
    for i in 0..10 {
        let (rid, r) = table.read_oid(&(i * 1000), &guard).unwrap();
        {
            let value = table.read(rid, &r, &q, false);
            let third = if i == 3 { 7 } else { i * 1000 + 2 };
            assert_eq!(answered_words(&value, &q), vec![i * 1000, i * 1000 + 1, third]);
        }
        table.read_unlock(rid, r);
    }
}

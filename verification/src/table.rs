use vstd::prelude::*;

use crate::attribute_cache::clock_cache::cache_inner::ClockNode;
use crate::attribute_cache::clock_cache::oid::{
    oid_locked, OidGuard, OidReadGuard, OidWriteGuard, LOCK_MASK, LOCK_WRITER, MAX_READER,
};
use crate::attribute_cache::clock_cache::{answers, ClockCache};
use crate::attribute_cache::{QueryValue, Rid, Schema, Tuple, RID_SENTINEL};
use crate::error::TransactionError;
use crate::index::{range_scanned, Art, DbIndex};
use crate::metric::CtxCounter;
use crate::query::{Field, FieldsMeta, UpdateQuery};
use std::marker::PhantomData;

verus! {

broadcast use Rid::lemma_spec_from_u32;

/// A table: a clock cache over the table's records, and an index from primary keys to
/// record ids.
pub struct DbTable<I: DbIndex, S: Schema> {
    cache: ClockCache<S>,
    index: I,
}

/// Builds a table from its sizes, its index and its schema.
pub struct DbTableBuilder<I: DbIndex, S: Schema> {
    cache_size: Option<usize>,
    storage_size: Option<usize>,
    probe_len: Option<usize>,
    index: Option<I>,
    schema: Option<S>,
    metric_context: Option<CtxCounter>,
    pt_schema: PhantomData<S>,
}

/// The probe length of a table built without one.
pub const DEFAULT_PROBE_LEN: usize = 6;

impl<I: DbIndex, S: Schema> DbTableBuilder<I, S> {
    pub closed spec fn spec_cache_size(&self) -> Option<usize> {
        self.cache_size
    }

    pub closed spec fn spec_storage_size(&self) -> Option<usize> {
        self.storage_size
    }

    pub closed spec fn spec_probe_len(&self) -> Option<usize> {
        self.probe_len
    }

    pub closed spec fn spec_index(&self) -> Option<I> {
        self.index
    }

    pub closed spec fn spec_schema(&self) -> Option<S> {
        self.schema
    }

    pub closed spec fn spec_metric_context(&self) -> Option<CtxCounter> {
        self.metric_context
    }

    /// A builder with nothing set.
    pub fn new() -> (r: Self)
        ensures
            r.spec_cache_size() is None,
            r.spec_storage_size() is None,
            r.spec_probe_len() is None,
            r.spec_index() is None,
            r.spec_schema() is None,
            r.spec_metric_context() is None,
    {
        DbTableBuilder {
            cache_size: None,
            storage_size: None,
            probe_len: None,
            index: None,
            schema: None,
            metric_context: None,
            pt_schema: PhantomData,
        }
    }

    /// The cache's size, in bytes.
    pub fn cache(self, size: usize) -> (r: Self)
        ensures
            r.spec_cache_size() == Some(size),
            r.spec_storage_size() == self.spec_storage_size(),
            r.spec_probe_len() == self.spec_probe_len(),
            r.spec_index() == self.spec_index(),
            r.spec_schema() == self.spec_schema(),
            r.spec_metric_context() == self.spec_metric_context(),
    {
        DbTableBuilder { cache_size: Some(size), ..self }
    }

    /// The storage's size, in bytes.
    pub fn storage(self, size: usize) -> (r: Self)
        ensures
            r.spec_cache_size() == self.spec_cache_size(),
            r.spec_storage_size() == Some(size),
            r.spec_probe_len() == self.spec_probe_len(),
            r.spec_index() == self.spec_index(),
            r.spec_schema() == self.spec_schema(),
            r.spec_metric_context() == self.spec_metric_context(),
    {
        DbTableBuilder { storage_size: Some(size), ..self }
    }

    pub fn probe_len(self, probe_len: Option<usize>) -> (r: Self)
        ensures
            r.spec_cache_size() == self.spec_cache_size(),
            r.spec_storage_size() == self.spec_storage_size(),
            r.spec_probe_len() == probe_len,
            r.spec_index() == self.spec_index(),
            r.spec_schema() == self.spec_schema(),
            r.spec_metric_context() == self.spec_metric_context(),
    {
        DbTableBuilder { probe_len, ..self }
    }

    pub fn index(self, index: I) -> (r: Self)
        ensures
            r.spec_cache_size() == self.spec_cache_size(),
            r.spec_storage_size() == self.spec_storage_size(),
            r.spec_probe_len() == self.spec_probe_len(),
            r.spec_index() == Some(index),
            r.spec_schema() == self.spec_schema(),
            r.spec_metric_context() == self.spec_metric_context(),
    {
        DbTableBuilder { index: Some(index), ..self }
    }

    pub fn schema(self, schema: S) -> (r: Self)
        ensures
            r.spec_cache_size() == self.spec_cache_size(),
            r.spec_storage_size() == self.spec_storage_size(),
            r.spec_probe_len() == self.spec_probe_len(),
            r.spec_index() == self.spec_index(),
            r.spec_schema() == Some(schema),
            r.spec_metric_context() == self.spec_metric_context(),
    {
        DbTableBuilder { schema: Some(schema), ..self }
    }

    pub fn metric_context(self, ctx: CtxCounter) -> (r: Self)
        ensures
            r.spec_cache_size() == self.spec_cache_size(),
            r.spec_storage_size() == self.spec_storage_size(),
            r.spec_probe_len() == self.spec_probe_len(),
            r.spec_index() == self.spec_index(),
            r.spec_schema() == self.spec_schema(),
            r.spec_metric_context() == Some(ctx),
    {
        DbTableBuilder { metric_context: Some(ctx), ..self }
    }

    /// The table: the cache and the storage get the sizes that were set, the probe length
    /// is the one set or `DEFAULT_PROBE_LEN`, and the index is the one set or a new one.
    /// The sizes and the schema must have been set, and an index that was set must be
    /// empty.
    pub fn build(self) -> (r: DbTable<I, S>)
        requires
            self.spec_cache_size() is Some,
            self.spec_storage_size() is Some,
            self.spec_schema() is Some,
            self.spec_schema().unwrap().wf(),
            vstd::layout::size_of::<ClockNode<S::Field>>() > 0,
            vstd::layout::size_of::<S::Tuple>() > 0,
            0 < self.spec_cache_size().unwrap() as int / (vstd::layout::size_of::<
                ClockNode<S::Field>,
            >() as int) <= u32::MAX,
            self.spec_storage_size().unwrap() as int / (vstd::layout::size_of::<S::Tuple>() as int)
                < RID_SENTINEL,
            self.spec_index() matches Some(i) ==> i.entries().is_empty(),
        ensures
            r.wf(),
            r.spec_cache().len() == 0,
            r.spec_cache().capacity() == self.spec_storage_size().unwrap() as int / (
            vstd::layout::size_of::<S::Tuple>() as int),
            r.spec_cache().spec_schema() == self.spec_schema().unwrap(),
            r.spec_cache().spec_inner().spec_probe_len() == (match self.spec_probe_len() {
                Some(p) => p,
                None => DEFAULT_PROBE_LEN,
            }) as u32,
            r.entries().is_empty(),
    {
        let cache_size = self.cache_size.unwrap();
        let probe = match self.probe_len {
            Some(p) => p,
            None => DEFAULT_PROBE_LEN,
        };
        let storage = self.storage_size.unwrap();
        let cap = storage / core::mem::size_of::<S::Tuple>();
        let schema = self.schema.unwrap();
        let index = match self.index {
            Some(i) => i,
            None => I::with_capacity(cap),
        };
        let cache = ClockCache::new(cache_size, probe, storage, schema);
        DbTable { cache, index }
    }
}

/// Every key leads to one of the first `len` records.
pub open spec fn keys_lead_to_records(entries: Map<usize, Rid>, len: nat) -> bool {
    forall|k: usize| #[trigger] entries.contains_key(k) ==> entries[k].id() < len
}

/// A table stays consistent when its cache does, its index is the same, and no record
/// went away.
proof fn lemma_wf_frame<I: DbIndex, S: Schema>(a: DbTable<I, S>, b: DbTable<I, S>)
    requires
        a.wf(),
        b.spec_cache().wf(),
        b.entries() == a.entries(),
        b.spec_cache().len() >= a.spec_cache().len(),
    ensures
        b.wf(),
{
    assert forall|k: usize| #[trigger] b.entries().contains_key(k) implies b.entries()[k].id()
        < b.spec_cache().len() by {
        assert(a.entries().contains_key(k));
    }
}

/// What an insertion leaves a table reading: when `after` is `before` with `record`
/// inserted as `record id` `rid` (as `DbTable::insert` states), the record's key leads to
/// `rid`, which holds `record`, and every other key leads where it led, to the record it
/// read before.
pub proof fn lemma_insert_then_lookup<I: DbIndex, S: Schema>(
    before: DbTable<I, S>,
    after: DbTable<I, S>,
    record: S::Tuple,
    rid: Rid,
)
    requires
        before.wf(),
        rid.id() == before.spec_cache().len(),
        after.spec_cache().records() == before.spec_cache().records().push(record@),
        after.entries() == before.entries().insert(
            before.spec_cache().spec_schema().spec_key(record@),
            rid,
        ),
    ensures
        after.entries().get(before.spec_cache().spec_schema().spec_key(record@)) == Some(rid),
        after.spec_cache().records()[rid.id() as int] == record@,
        forall|k: usize|
            k != before.spec_cache().spec_schema().spec_key(record@) && #[trigger]
            before.entries().contains_key(k) ==> after.entries().get(k) == before.entries().get(k)
                && after.row(k) == before.row(k),
        forall|k: usize|
            k != before.spec_cache().spec_schema().spec_key(record@) && !#[trigger]
            before.entries().contains_key(k) ==> !after.entries().contains_key(k),
{
    assert forall|k: usize|
        k != before.spec_cache().spec_schema().spec_key(record@) && #[trigger]
        before.entries().contains_key(k) implies after.entries().get(k) == before.entries().get(k)
        && after.row(k) == before.row(k) by {
        assert(before.entries()[k].id() < before.spec_cache().len());
    }
}

/// What an update leaves a table reading: when `after` is `before` with fields of record
/// `rid` updated (as `DbTable::update` states), every key that leads to `rid` reads the
/// record with the update applied, and every other key reads what it read before.
pub proof fn lemma_update_then_read<I: DbIndex, S: Schema>(
    before: DbTable<I, S>,
    after: DbTable<I, S>,
    rid: Rid,
    fields: Seq<Field>,
    data: Seq<u8>,
)
    requires
        before.wf(),
        rid.id() < before.spec_cache().len(),
        after.entries() == before.entries(),
        after.spec_cache().records() == before.spec_cache().records().update(
            rid.id() as int,
            <S::Tuple as Tuple>::spec_update(
                before.spec_cache().records()[rid.id() as int],
                fields,
                data,
            ),
        ),
    ensures
        forall|k: usize| #[trigger]
            before.entries().contains_key(k) ==> after.row(k) == if before.entries()[k] == rid {
                <S::Tuple as Tuple>::spec_update(before.row(k), fields, data)
            } else {
                before.row(k)
            },
{
    broadcast use Rid::lemma_id_determines;

    assert forall|k: usize| #[trigger] before.entries().contains_key(k) implies after.row(k)
        == if before.entries()[k] == rid {
        <S::Tuple as Tuple>::spec_update(before.row(k), fields, data)
    } else {
        before.row(k)
    } by {
        assert(before.entries()[k].id() < before.spec_cache().len());
    }
}

impl<I: DbIndex, S: Schema> DbTable<I, S> {
    pub closed spec fn spec_cache(&self) -> ClockCache<S> {
        self.cache
    }

    pub closed spec fn spec_index(&self) -> I {
        self.index
    }

    /// The key-to-record-id entries of the table's index.
    pub open spec fn entries(&self) -> Map<usize, Rid> {
        self.spec_index().entries()
    }

    /// The cache is consistent and every key of the index leads to a record of the table.
    pub open spec fn wf(&self) -> bool {
        &&& self.spec_cache().wf()
        &&& keys_lead_to_records(self.entries(), self.spec_cache().len())
    }

    /// The running thread's clock hand over the cache is set.
    pub open spec fn hand_set(&self) -> bool {
        self.spec_cache().spec_inner().spec_hand() is Some
    }

    /// The record that key `k` leads to, as it reads.
    pub open spec fn row(&self, k: usize) -> <S::Tuple as View>::V {
        self.spec_cache().records()[self.entries()[k].id() as int]
    }

    pub fn builder() -> (r: DbTableBuilder<I, S>)
        ensures
            r.spec_cache_size() is None,
            r.spec_storage_size() is None,
            r.spec_probe_len() is None,
            r.spec_index() is None,
            r.spec_schema() is None,
            r.spec_metric_context() is None,
    {
        DbTableBuilder::new()
    }

    /// Forgets every record and every key; for benchmarks only.
    pub fn reset(&mut self)
        requires
            old(self).wf(),
        ensures
            final(self).wf(),
            final(self).entries().is_empty(),
            final(self).spec_cache().len() == 0,
            final(self).spec_cache().capacity() == old(self).spec_cache().capacity(),
            final(self).spec_cache().spec_schema() == old(self).spec_cache().spec_schema(),
    {
        self.index = I::new();
        self.cache.reset();
    }

    /// Inserts a record under the key the schema gives it: the record gets the next record
    /// id, and the key leads to it. The record's lock comes back held for writing.
    pub fn insert(&mut self, record: S::Tuple, guard: &I::Guard) -> (r: (Rid, OidWriteGuard))
        requires
            old(self).wf(),
            old(self).spec_cache().len() < old(self).spec_cache().capacity(),
            old(self).spec_cache().spec_schema().key_ok(record@),
        ensures
            final(self).wf(),
            r.0.id() == old(self).spec_cache().len(),
            final(self).spec_cache().records() == old(self).spec_cache().records().push(record@),
            final(self).entries() == old(self).entries().insert(
                old(self).spec_cache().spec_schema().spec_key(record@),
                r.0,
            ),
            final(self).row(old(self).spec_cache().spec_schema().spec_key(record@)) == record@,
            final(self).spec_cache().locks()[r.0.id() as int].word() & LOCK_MASK == LOCK_WRITER,
            forall|q: int|
                0 <= q < old(self).spec_cache().len() ==> #[trigger] final(self).spec_cache().locks()[q].word()
                    & LOCK_MASK == old(self).spec_cache().locks()[q].word() & LOCK_MASK,
            final(self).spec_cache().spec_schema() == old(self).spec_cache().spec_schema(),
            final(self).spec_cache().capacity() == old(self).spec_cache().capacity(),
    {
        let key = self.cache.schema().key(&record);
        let insert_rv = self.cache.insert(record);
        self.index.insert(key, insert_rv.0, guard);
        proof {
            let old_len = old(self).spec_cache().len();
            assert(self.spec_cache().records().len() == old_len + 1);
            assert(self.spec_cache().len() == old_len + 1);
            assert(self.entries() == old(self).entries().insert(key, insert_rv.0));
            assert(insert_rv.0.id() == old_len);
            assert forall|k: usize| #[trigger] self.entries().contains_key(k) implies self.entries()[k].id()
                < self.spec_cache().len() by {
                if k != key {
                    assert(old(self).entries().contains_key(k));
                    assert(old(self).entries()[k].id() < old_len);
                }
            }
            assert(self.spec_cache().records()[old_len as int] == record@);
        }
        insert_rv
    }

    /// Gets the running thread's clock hand ready: a thread that has none gets one.
    pub fn thread_init(&mut self)
        requires
            old(self).wf(),
        ensures
            final(self).wf(),
            final(self).spec_cache().records() == old(self).spec_cache().records(),
            final(self).spec_cache().locks() == old(self).spec_cache().locks(),
            final(self).spec_cache().spec_schema() == old(self).spec_cache().spec_schema(),
            final(self).entries() == old(self).entries(),
            final(self).hand_set(),
            old(self).hand_set() ==> final(self).spec_cache().spec_inner().spec_hand()
                == old(self).spec_cache().spec_inner().spec_hand(),
            final(self).spec_cache().capacity() == old(self).spec_cache().capacity(),
    {
        self.cache.thread_init();
        proof {
            lemma_wf_frame(*old(self), *self);
        }
    }

    pub fn pin(&self) -> I::Guard {
        self.index.pin()
    }

    /// Reads fields of record `rid`, whose lock the caller holds; see `ClockCache::read`.
    pub fn read<L: OidGuard, const N: usize>(
        &mut self,
        rid: Rid,
        oid_guard: &L,
        query: &FieldsMeta<N>,
        hit: bool,
    ) -> (r: QueryValue<'_, S::Field, S::Tuple, L>)
        requires
            old(self).wf(),
            rid.id() < old(self).spec_cache().len(),
        ensures
            final(self).wf(),
            final(self).entries() == old(self).entries(),
            final(self).spec_cache().records() == old(self).spec_cache().records(),
            final(self).spec_cache().locks() == old(self).spec_cache().locks(),
            answers(
                r,
                old(self).spec_cache().spec_schema(),
                *query,
                old(self).spec_cache().records()[rid.id() as int],
            ),
    {
        self.cache.read(rid, oid_guard, query, hit)
    }

    /// Reads record `rid`, whose lock the caller holds, and gives back the whole record; see
    /// `ClockCache::read_record`.
    pub fn read_record<L: OidGuard>(&mut self, rid: Rid, oid_guard: &L, hit: bool) -> (r: S::Tuple) where
        S::Tuple: Copy,

        requires
            old(self).wf(),
            rid.id() < old(self).spec_cache().len(),
        ensures
            final(self).wf(),
            final(self).entries() == old(self).entries(),
            final(self).spec_cache().records() == old(self).spec_cache().records(),
            final(self).spec_cache().locks() == old(self).spec_cache().locks(),
            final(self).spec_cache().spec_schema() == old(self).spec_cache().spec_schema(),
            r@ == old(self).spec_cache().records()[rid.id() as int],
    {
        let r = self.cache.read_record(rid, oid_guard, hit);
        proof {
            lemma_wf_frame(*old(self), *self);
        }
        r
    }

    /// Reads fields of record `rid`, whose write lock the caller holds, and caches the
    /// record; see `ClockCache::read_and_promote`.
    pub fn read_and_promote<const N: usize>(
        &mut self,
        rid: Rid,
        oid_guard: &mut OidWriteGuard,
        query: &FieldsMeta<N>,
        hit: bool,
        admitted: bool,
        hit_new: bool,
    ) -> (r: QueryValue<'_, S::Field, S::Tuple, OidWriteGuard>)
        requires
            old(self).wf(),
            rid.id() < old(self).spec_cache().len(),
        ensures
            final(self).wf(),
            final(self).entries() == old(self).entries(),
            final(self).spec_cache().records() == old(self).spec_cache().records(),
            forall|q: int|
                0 <= q < old(self).spec_cache().len() ==> #[trigger] final(self).spec_cache().locks()[q].word()
                    & LOCK_MASK == old(self).spec_cache().locks()[q].word() & LOCK_MASK,
            answers(
                r,
                old(self).spec_cache().spec_schema(),
                *query,
                old(self).spec_cache().records()[rid.id() as int],
            ),
    {
        self.cache.read_and_promote(rid, oid_guard, query, hit, admitted, hit_new)
    }

    /// The lock word of the record that key `k` leads to.
    pub open spec fn key_lock(&self, k: usize) -> crate::attribute_cache::clock_cache::oid::LockedOid {
        self.spec_cache().locks()[self.entries()[k].id() as int]
    }

    /// Read-locks the record that `key` leads to: fails with `IndexNotFound` when the key
    /// leads nowhere, with `ReadLockBusy` when the record is write-locked.
    pub fn read_oid_sync(&mut self, key: &usize, guard: &I::Guard) -> (r: Result<
        (Rid, OidReadGuard),
        TransactionError,
    >)
        requires
            old(self).wf(),
            old(self).entries().contains_key(*key) && !old(self).key_lock(
                *key,
            ).spec_write_locked() ==> old(self).key_lock(*key).spec_read_cnt() + 1 < MAX_READER,
        ensures
            final(self).wf(),
            final(self).entries() == old(self).entries(),
            final(self).spec_cache().records() == old(self).spec_cache().records(),
            !old(self).entries().contains_key(*key) ==> r == Err::<(Rid, OidReadGuard), _>(
                TransactionError::IndexNotFound,
            ) && final(self).spec_cache().locks() == old(self).spec_cache().locks(),
            old(self).entries().contains_key(*key) ==> {
                &&& r is Err <==> old(self).key_lock(*key).spec_write_locked()
                &&& r matches Err(e) ==> e == TransactionError::ReadLockBusy
                &&& r is Err ==> final(self).spec_cache().locks() == old(self).spec_cache().locks()
                &&& r matches Ok((rid, _)) ==> rid == old(self).entries()[*key]
                    && final(self).key_lock(*key).spec_read_cnt() == old(self).key_lock(
                    *key,
                ).spec_read_cnt() + 1 && !final(self).key_lock(*key).spec_write_locked()
                    && final(self).spec_cache().locks() == old(self).spec_cache().locks().update(
                    rid.id() as int,
                    final(self).spec_cache().locks()[rid.id() as int],
                )
            },
    {
        self.read_oid(key, guard)
    }

    /// The same as `read_oid_sync`.
    pub fn read_oid(&mut self, key: &usize, guard: &I::Guard) -> (r: Result<
        (Rid, OidReadGuard),
        TransactionError,
    >)
        requires
            old(self).wf(),
            old(self).entries().contains_key(*key) && !old(self).key_lock(
                *key,
            ).spec_write_locked() ==> old(self).key_lock(*key).spec_read_cnt() + 1 < MAX_READER,
        ensures
            final(self).wf(),
            final(self).entries() == old(self).entries(),
            final(self).spec_cache().records() == old(self).spec_cache().records(),
            !old(self).entries().contains_key(*key) ==> r == Err::<(Rid, OidReadGuard), _>(
                TransactionError::IndexNotFound,
            ) && final(self).spec_cache().locks() == old(self).spec_cache().locks(),
            old(self).entries().contains_key(*key) ==> {
                &&& r is Err <==> old(self).key_lock(*key).spec_write_locked()
                &&& r matches Err(e) ==> e == TransactionError::ReadLockBusy
                &&& r is Err ==> final(self).spec_cache().locks() == old(self).spec_cache().locks()
                &&& r matches Ok((rid, _)) ==> rid == old(self).entries()[*key]
                    && final(self).key_lock(*key).spec_read_cnt() == old(self).key_lock(
                    *key,
                ).spec_read_cnt() + 1 && !final(self).key_lock(*key).spec_write_locked()
                    && final(self).spec_cache().locks() == old(self).spec_cache().locks().update(
                    rid.id() as int,
                    final(self).spec_cache().locks()[rid.id() as int],
                )
            },
    {
        let idx = match self.index.get(key, guard) {
            Some(i) => i,
            None => {
                return Err(TransactionError::IndexNotFound);
            },
        };
        proof {
            assert(old(self).entries().contains_key(*key));
        }
        let r = self.cache.read_lock_sync(idx);
        proof {
            lemma_wf_frame(*old(self), *self);
        }
        match r {
            Ok(g) => Ok((idx, g)),
            Err(e) => Err(e),
        }
    }

    /// Write-locks the record that `key` leads to: fails with `IndexNotFound` when the key
    /// leads nowhere, with `WriteLockBusy` when the record is locked.
    pub fn write_oid_sync(&mut self, key: &usize, guard: &I::Guard) -> (r: Result<
        (Rid, OidWriteGuard),
        TransactionError,
    >)
        requires
            old(self).wf(),
        ensures
            final(self).wf(),
            final(self).entries() == old(self).entries(),
            final(self).spec_cache().records() == old(self).spec_cache().records(),
            !old(self).entries().contains_key(*key) ==> r == Err::<(Rid, OidWriteGuard), _>(
                TransactionError::IndexNotFound,
            ) && final(self).spec_cache().locks() == old(self).spec_cache().locks(),
            old(self).entries().contains_key(*key) ==> {
                &&& r is Err <==> oid_locked(old(self).key_lock(*key).word())
                &&& r matches Err(e) ==> e == TransactionError::WriteLockBusy
                &&& r is Err ==> final(self).spec_cache().locks() == old(self).spec_cache().locks()
                &&& r matches Ok((rid, _)) ==> rid == old(self).entries()[*key]
                    && final(self).key_lock(*key).word() & LOCK_MASK == LOCK_WRITER
                    && final(self).spec_cache().locks() == old(self).spec_cache().locks().update(
                    rid.id() as int,
                    final(self).spec_cache().locks()[rid.id() as int],
                )
            },
    {
        self.write_oid(key, guard)
    }

    /// The same as `write_oid_sync`.
    pub fn write_oid(&mut self, key: &usize, guard: &I::Guard) -> (r: Result<
        (Rid, OidWriteGuard),
        TransactionError,
    >)
        requires
            old(self).wf(),
        ensures
            final(self).wf(),
            final(self).entries() == old(self).entries(),
            final(self).spec_cache().records() == old(self).spec_cache().records(),
            !old(self).entries().contains_key(*key) ==> r == Err::<(Rid, OidWriteGuard), _>(
                TransactionError::IndexNotFound,
            ) && final(self).spec_cache().locks() == old(self).spec_cache().locks(),
            old(self).entries().contains_key(*key) ==> {
                &&& r is Err <==> oid_locked(old(self).key_lock(*key).word())
                &&& r matches Err(e) ==> e == TransactionError::WriteLockBusy
                &&& r is Err ==> final(self).spec_cache().locks() == old(self).spec_cache().locks()
                &&& r matches Ok((rid, _)) ==> rid == old(self).entries()[*key]
                    && final(self).key_lock(*key).word() & LOCK_MASK == LOCK_WRITER
                    && final(self).spec_cache().locks() == old(self).spec_cache().locks().update(
                    rid.id() as int,
                    final(self).spec_cache().locks()[rid.id() as int],
                )
            },
    {
        let idx = match self.index.get(key, guard) {
            Some(i) => i,
            None => {
                return Err(TransactionError::IndexNotFound);
            },
        };
        proof {
            assert(old(self).entries().contains_key(*key));
        }
        let r = self.cache.write_lock_sync(idx);
        proof {
            lemma_wf_frame(*old(self), *self);
        }
        match r {
            Ok(g) => Ok((idx, g)),
            Err(e) => Err(e),
        }
    }

    /// Read-locks record `rid`: fails with `ReadLockBusy` when it is write-locked.
    pub fn lock_rid_r(&mut self, rid: Rid) -> (r: Result<OidReadGuard, TransactionError>)
        requires
            old(self).wf(),
            rid.id() < old(self).spec_cache().len(),
            !old(self).spec_cache().locks()[rid.id() as int].spec_write_locked() ==> old(
                self,
            ).spec_cache().locks()[rid.id() as int].spec_read_cnt() + 1 < MAX_READER,
        ensures
            final(self).wf(),
            final(self).entries() == old(self).entries(),
            final(self).spec_cache().records() == old(self).spec_cache().records(),
            r is Err <==> old(self).spec_cache().locks()[rid.id() as int].spec_write_locked(),
            r matches Err(e) ==> e == TransactionError::ReadLockBusy,
            r is Err ==> final(self).spec_cache().locks() == old(self).spec_cache().locks(),
            r is Ok ==> final(self).spec_cache().locks()[rid.id() as int].spec_read_cnt() == old(
                self,
            ).spec_cache().locks()[rid.id() as int].spec_read_cnt() + 1,
            r is Ok ==> !final(self).spec_cache().locks()[rid.id() as int].spec_write_locked(),
            final(self).spec_cache().locks() == old(self).spec_cache().locks().update(
                rid.id() as int,
                final(self).spec_cache().locks()[rid.id() as int],
            ),
    {
        let r = self.cache.read_lock_sync(rid);
        proof {
            lemma_wf_frame(*old(self), *self);
        }
        r
    }

    /// Write-locks record `rid`: fails with `WriteLockBusy` when it is locked.
    pub fn lock_rid_w(&mut self, rid: Rid) -> (r: Result<OidWriteGuard, TransactionError>)
        requires
            old(self).wf(),
            rid.id() < old(self).spec_cache().len(),
        ensures
            final(self).wf(),
            final(self).entries() == old(self).entries(),
            final(self).spec_cache().records() == old(self).spec_cache().records(),
            r is Err <==> oid_locked(old(self).spec_cache().locks()[rid.id() as int].word()),
            r matches Err(e) ==> e == TransactionError::WriteLockBusy,
            r is Err ==> final(self).spec_cache().locks() == old(self).spec_cache().locks(),
            r is Ok ==> final(self).spec_cache().locks()[rid.id() as int].word() & LOCK_MASK
                == LOCK_WRITER,
            final(self).spec_cache().locks() == old(self).spec_cache().locks().update(
                rid.id() as int,
                final(self).spec_cache().locks()[rid.id() as int],
            ),
    {
        let r = self.cache.write_lock_sync(rid);
        proof {
            lemma_wf_frame(*old(self), *self);
        }
        r
    }

    /// Gives back a read lock on record `rid`.
    pub fn read_unlock(&mut self, rid: Rid, guard: OidReadGuard)
        requires
            old(self).wf(),
            rid.id() < old(self).spec_cache().len(),
            !old(self).spec_cache().locks()[rid.id() as int].spec_write_locked(),
            old(self).spec_cache().locks()[rid.id() as int].spec_read_cnt() > 0,
        ensures
            final(self).wf(),
            final(self).entries() == old(self).entries(),
            final(self).spec_cache().records() == old(self).spec_cache().records(),
            final(self).spec_cache().locks() == old(self).spec_cache().locks().update(
                rid.id() as int,
                final(self).spec_cache().locks()[rid.id() as int],
            ),
            final(self).spec_cache().locks()[rid.id() as int].spec_read_cnt() == old(
                self,
            ).spec_cache().locks()[rid.id() as int].spec_read_cnt() - 1,
            !final(self).spec_cache().locks()[rid.id() as int].spec_write_locked(),
            final(self).spec_cache().spec_schema() == old(self).spec_cache().spec_schema(),
            final(self).spec_cache().capacity() == old(self).spec_cache().capacity(),
    {
        self.cache.read_unlock(rid, guard);
        proof {
            lemma_wf_frame(*old(self), *self);
        }
    }

    /// Gives back the write lock on record `rid`.
    pub fn write_unlock(&mut self, rid: Rid, guard: OidWriteGuard)
        requires
            old(self).wf(),
            rid.id() < old(self).spec_cache().len(),
            old(self).spec_cache().locks()[rid.id() as int].word() & LOCK_MASK == LOCK_WRITER,
        ensures
            final(self).wf(),
            final(self).entries() == old(self).entries(),
            final(self).spec_cache().records() == old(self).spec_cache().records(),
            final(self).spec_cache().locks() == old(self).spec_cache().locks().update(
                rid.id() as int,
                final(self).spec_cache().locks()[rid.id() as int],
            ),
            !oid_locked(final(self).spec_cache().locks()[rid.id() as int].word()),
            final(self).spec_cache().spec_schema() == old(self).spec_cache().spec_schema(),
            final(self).spec_cache().capacity() == old(self).spec_cache().capacity(),
    {
        self.cache.write_unlock(rid, guard);
        proof {
            lemma_wf_frame(*old(self), *self);
        }
    }

    /// Writes new values into fields of record `rid`, whose write lock the caller holds;
    /// see `ClockCache::update`. The record reads with the update applied; no other record
    /// and no lock changes.
    pub fn update<const N: usize>(
        &mut self,
        rid: Rid,
        write_oid: &mut OidWriteGuard,
        fields: UpdateQuery<'_, N>,
    )
        requires
            old(self).wf(),
            rid.id() < old(self).spec_cache().len(),
            <S::Tuple as Tuple>::update_ok(fields.spec_meta().fields@, fields.spec_data().len()),
        ensures
            final(self).wf(),
            final(self).entries() == old(self).entries(),
            final(self).spec_cache().records() == old(self).spec_cache().records().update(
                rid.id() as int,
                <S::Tuple as Tuple>::spec_update(
                    old(self).spec_cache().records()[rid.id() as int],
                    fields.spec_meta().fields@,
                    fields.spec_data(),
                ),
            ),
            final(self).spec_cache().locks() == old(self).spec_cache().locks(),
            final(self).spec_cache().spec_schema() == old(self).spec_cache().spec_schema(),
    {
        self.cache.update(rid, &*write_oid, fields);
        proof {
            lemma_wf_frame(*old(self), *self);
        }
    }

    pub fn schema(&self) -> (r: &S)
        ensures
            *r == self.spec_cache().spec_schema(),
    {
        self.cache.schema()
    }

    /// The number of records inserted into the table.
    pub fn record_cnt(&self) -> (r: usize)
        ensures
            r == self.spec_cache().len(),
    {
        self.cache.record_cnt()
    }

    /// The number of records the table can hold.
    pub fn capacity(&self) -> (r: usize)
        ensures
            r == self.spec_cache().capacity(),
    {
        self.cache.capacity_of_table()
    }
}

/// A range scan of `raw` from `low` up to, and not including, `high` gave `n` entries,
/// whose record ids went into the first `n` places of the buffer (`before` before, `after`
/// after), the rest unchanged; see `range_scanned`.
pub open spec fn range_into(
    raw: Map<usize, usize>,
    low: usize,
    high: usize,
    before: Seq<Rid>,
    after: Seq<Rid>,
    n: usize,
) -> bool {
    exists|out: Seq<(usize, usize)>|
        {
            &&& out.len() == before.len()
            &&& after.len() == before.len()
            &&& #[trigger] range_scanned(raw, low, high, out, n)
            &&& forall|i: int|
                0 <= i < n ==> after[i] == Rid::spec_from_u32((#[trigger] out[i]).1 as u32)
            &&& forall|i: int| n <= i < before.len() ==> after[i] == before[i]
        }
}

impl<S: Schema> DbTable<Art, S> {
    /// Scans the keys from `low` up to, and not including, `high`, writing the record ids
    /// they lead to into `rid_buffer`, at most as many as it holds, smallest keys first;
    /// gives the number written.
    pub fn range(&self, low: usize, high: usize, rid_buffer: &mut [Rid]) -> (r: Option<usize>)
        ensures
            final(rid_buffer)@.len() == old(rid_buffer)@.len(),
            r is Some,
            range_into(
                self.spec_index().raw_entries(),
                low,
                high,
                old(rid_buffer)@,
                final(rid_buffer)@,
                r.unwrap(),
            ),
    {
        let len = rid_buffer.len();
        let mut range_buffer: Vec<(usize, usize)> = vec![(0usize, 0usize); len];
        let guard = self.index.pin();
        let scanned = self.index.range(low, high, range_buffer.as_mut_slice(), &guard);
        let ghost out = range_buffer@;
        let mut i: usize = 0;
        while i < scanned
            invariant
                0 <= i <= scanned,
                scanned <= len,
                out.len() == len,
                range_buffer@ == out,
                rid_buffer@.len() == len,
                forall|j: int| 0 <= j < scanned ==> (#[trigger] out[j]).1 < RID_SENTINEL,
                forall|j: int|
                    0 <= j < i ==> rid_buffer@[j] == Rid::spec_from_u32((#[trigger] out[j]).1 as u32),
                forall|j: int| i <= j < len ==> rid_buffer@[j] == old(rid_buffer)@[j],
            decreases scanned - i,
        {
            let v = range_buffer[i].1;
            rid_buffer[i] = Rid::from_u32(v as u32);
            i += 1;
        }
        proof {
            assert(range_scanned(self.spec_index().raw_entries(), low, high, out, scanned));
            assert(out.len() == old(rid_buffer)@.len());
            assert(rid_buffer@.len() == old(rid_buffer)@.len());
            assert(forall|j: int| 0 <= j < scanned ==> rid_buffer@[j] == Rid::spec_from_u32(
                (#[trigger] out[j]).1 as u32));
            assert(forall|j: int| scanned <= j < old(rid_buffer)@.len() ==> rid_buffer@[j] == old(
                rid_buffer)@[j]);
            assert(range_into(
                self.spec_index().raw_entries(),
                low,
                high,
                old(rid_buffer)@,
                rid_buffer@,
                scanned,
            ));
        }
        Some(scanned)
    }
}

} // verus!

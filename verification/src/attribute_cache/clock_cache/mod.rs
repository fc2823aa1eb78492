use vstd::prelude::*;

pub mod cache_inner;
pub mod node_meta;
pub mod oid;

use self::cache_inner::{
    directory_ok, entry_ok, oid_ok, probe_finds, probe_slot, same_slot, slot_free_now,
    CacheInner, ClockNode,
};
use self::oid::{
    lemma_payload_determines, oid_locked, LockedOid, OidGuard, OidReadGuard, OidWriteGuard,
    LOCK_MASK, LOCK_WRITER, MAX_READER,
};
use super::{QueryValue, Rid, Schema, Tuple, RID_SENTINEL};
use crate::error::TransactionError;
use crate::query::{FieldsMeta, UpdateQuery};
use crate::storage::oid_array::OidArray;
use crate::storage::Storage;

verus! {

broadcast use LockedOid::lemma_word_determines;

/// What a record reads as: its cached part written back into the stored record when the
/// record is cached, the stored record otherwise.
pub open spec fn logical_record<S: Schema>(
    schema: S,
    entries: Seq<Option<ClockNode<S::Field>>>,
    oids: Seq<LockedOid>,
    stored: Seq<Option<S::Tuple>>,
    r: int,
) -> <S::Tuple as View>::V {
    if oids[r].spec_is_cached() {
        schema.spec_write_back(
            entries[oids[r].spec_cache_index() as int].unwrap().spec_val()@,
            stored[r].unwrap()@,
        )
    } else {
        stored[r].unwrap()@
    }
}

/// Whether a read's answer holds the record `rec` as the schema caches it: the cached part
/// of the record and the full record, as far as they are there; at least one of them is, and
/// the full record is missing only when every queried field is cached.
pub open spec fn answers<'a, S: Schema, L, const N: usize>(
    qv: QueryValue<'a, S::Field, S::Tuple, L>,
    schema: S,
    query: FieldsMeta<N>,
    rec: <S::Tuple as View>::V,
) -> bool {
    &&& qv.spec_field() is Some || qv.spec_tuple() is Some
    &&& qv.spec_field() matches Some(f) ==> f@ == schema.spec_to_cached(rec)
    &&& qv.spec_tuple() matches Some(t) ==> t@ == rec
    &&& qv.spec_tuple() is None ==> forall|i: int|
        0 <= i < N ==> (#[trigger] schema.spec_to_cached_field(query.fields@[i])) is Some
}

/// A record reads the same in two states when its lock points at the same place, its
/// stored record is the same, and the slot it is cached in holds the same cached part.
proof fn lemma_logical_frame<S: Schema>(
    schema: S,
    e1: Seq<Option<ClockNode<S::Field>>>,
    o1: Seq<LockedOid>,
    s1: Seq<Option<S::Tuple>>,
    e2: Seq<Option<ClockNode<S::Field>>>,
    o2: Seq<LockedOid>,
    s2: Seq<Option<S::Tuple>>,
    r: int,
)
    requires
        0 <= r < o1.len(),
        r < o2.len(),
        r < s1.len(),
        r < s2.len(),
        oid_ok(e1, o1, r),
        o1[r].spec_payload() == o2[r].spec_payload(),
        s1[r] == s2[r],
        o1[r].spec_is_cached() ==> same_slot(
            e2[o1[r].spec_cache_index() as int],
            e1[o1[r].spec_cache_index() as int],
        ),
    ensures
        logical_record(schema, e1, o1, s1, r) == logical_record(schema, e2, o2, s2, r),
{
    lemma_payload_determines(o1[r].word(), o2[r].word());
}

/// Setting reference bits changes no record and no lock.
proof fn lemma_read_frame<S: Schema>(a: ClockCache<S>, b: ClockCache<S>)
    requires
        a.wf(),
        b.spec_inner().wf(),
        b.spec_inner().spec_capacity() == a.spec_inner().spec_capacity(),
        cache_inner::same_slots(b.spec_inner().spec_entries(), a.spec_inner().spec_entries()),
        b.locks() == a.locks(),
        b.spec_oid_array().spec_capacity() == a.spec_oid_array().spec_capacity(),
        b.spec_storage() == a.spec_storage(),
        b.spec_schema() == a.spec_schema(),
    ensures
        b.wf(),
        b.records() == a.records(),
{
    let ea = a.spec_inner().spec_entries();
    let eb = b.spec_inner().spec_entries();
    let o = a.locks();
    a.spec_storage().lemma_wf();
    assert forall|i: int| 0 <= i < eb.len() implies #[trigger] entry_ok(eb, o, i) by {
        assert(entry_ok(ea, o, i));
        assert(same_slot(eb[i], ea[i]));
    }
    assert forall|q: int| 0 <= q < o.len() implies #[trigger] oid_ok(eb, o, q) by {
        assert(oid_ok(ea, o, q));
        if o[q].spec_is_cached() {
            assert(same_slot(eb[o[q].spec_cache_index() as int], ea[o[q].spec_cache_index() as int]));
        }
    }
    assert forall|q: int| 0 <= q < b.len() implies #[trigger] b.records()[q] == a.records()[q] by {
        assert(oid_ok(ea, o, q));
        if o[q].spec_is_cached() {
            assert(same_slot(eb[o[q].spec_cache_index() as int], ea[o[q].spec_cache_index() as int]));
        }
        lemma_logical_frame(a.spec_schema(), ea, o, a.spec_storage()@, eb, o, b.spec_storage()@, q);
    }
    assert(b.records() =~= a.records());
    assert forall|r: int|
        0 <= r < b.len() && (#[trigger] b.locks()[r]).spec_is_cached() implies b.cached_part(r)
            == b.spec_schema().spec_to_cached(b.stored(r)) by {
        assert(a.locks()[r].spec_is_cached());
        assert(oid_ok(ea, o, r));
        assert(same_slot(eb[o[r].spec_cache_index() as int], ea[o[r].spec_cache_index() as int]));
    }
}

/// Taking or giving back a lock changes no record and keeps the cache consistent.
proof fn lemma_lock_frame<S: Schema>(a: ClockCache<S>, b: ClockCache<S>, r: int)
    requires
        a.wf(),
        0 <= r < a.len(),
        b.spec_inner() == a.spec_inner(),
        b.spec_storage() == a.spec_storage(),
        b.spec_schema() == a.spec_schema(),
        b.spec_oid_array().spec_capacity() == a.spec_oid_array().spec_capacity(),
        b.locks() == a.locks().update(r, b.locks()[r]),
        b.locks()[r].spec_payload() == a.locks()[r].spec_payload(),
    ensures
        b.wf(),
        b.records() == a.records(),
{
    let e = a.spec_inner().spec_entries();
    let oa = a.locks();
    let ob = b.locks();
    a.spec_storage().lemma_wf();
    lemma_payload_determines(oa[r].word(), ob[r].word());
    assert forall|i: int| 0 <= i < e.len() implies #[trigger] entry_ok(e, ob, i) by {
        assert(entry_ok(e, oa, i));
    }
    assert forall|q: int| 0 <= q < ob.len() implies #[trigger] oid_ok(e, ob, q) by {
        assert(oid_ok(e, oa, q));
    }
    assert forall|q: int| 0 <= q < b.len() implies #[trigger] b.records()[q] == a.records()[q] by {
        assert(oid_ok(e, oa, q));
        if q == r {
            lemma_logical_frame(a.spec_schema(), e, oa, a.spec_storage()@, e, ob, b.spec_storage()@, q);
        }
    }
    assert(b.records() =~= a.records());
    assert forall|q: int|
        0 <= q < b.len() && (#[trigger] b.locks()[q]).spec_is_cached() implies b.cached_part(q)
            == b.spec_schema().spec_to_cached(b.stored(q)) by {
        assert(a.locks()[q].spec_is_cached());
    }
}

/// What reading a record after inserting it gives: when `after` is `before` with `val`
/// inserted as record id `rid` (as `ClockCache::insert` states), record `rid` reads as
/// `val` and the other records read as before; a read answering for record `rid` (as
/// `ClockCache::read` states) then holds `val` as the schema caches it.
pub proof fn lemma_insert_then_read<S: Schema, L, const N: usize>(
    before: ClockCache<S>,
    after: ClockCache<S>,
    val: S::Tuple,
    rid: Rid,
    answer: QueryValue<S::Field, S::Tuple, L>,
    query: FieldsMeta<N>,
)
    requires
        rid.id() == before.len(),
        after.records() == before.records().push(val@),
        answers(answer, after.spec_schema(), query, after.records()[rid.id() as int]),
    ensures
        after.records()[rid.id() as int] == val@,
        forall|q: int| 0 <= q < before.len() ==> #[trigger] after.records()[q] == before.records()[q],
        answer.spec_field() matches Some(f) ==> f@ == after.spec_schema().spec_to_cached(val@),
        answer.spec_tuple() matches Some(t) ==> t@ == val@,
{
}

/// A clock cache over a table: the cache slots, the records' locks, the table storage and
/// the schema that says what part of a record is cached.
pub struct ClockCache<S: Schema> {
    inner: CacheInner<S::Field>,
    storage: Storage<S::Tuple>,
    oid_array: OidArray,
    schema: S,
}

impl<S: Schema> ClockCache<S> {
    pub closed spec fn spec_inner(&self) -> CacheInner<S::Field> {
        self.inner
    }

    pub closed spec fn spec_storage(&self) -> Storage<S::Tuple> {
        self.storage
    }

    pub closed spec fn spec_oid_array(&self) -> OidArray {
        self.oid_array
    }

    pub closed spec fn spec_schema(&self) -> S {
        self.schema
    }

    /// The locks of the records, by record id.
    pub open spec fn locks(&self) -> Seq<LockedOid> {
        self.spec_oid_array()@
    }

    /// The number of records inserted.
    pub open spec fn len(&self) -> nat {
        self.locks().len()
    }

    pub open spec fn capacity(&self) -> nat {
        self.spec_oid_array().spec_capacity() as nat
    }

    pub open spec fn record(&self, r: int) -> <S::Tuple as View>::V {
        logical_record(
            self.spec_schema(),
            self.spec_inner().spec_entries(),
            self.locks(),
            self.spec_storage()@,
            r,
        )
    }

    /// The records, by record id, as they read.
    pub open spec fn records(&self) -> Seq<<S::Tuple as View>::V> {
        Seq::new(self.len(), |r: int| self.record(r))
    }

    pub open spec fn wf(&self) -> bool {
        &&& self.spec_inner().wf()
        &&& self.spec_oid_array().wf()
        &&& self.spec_storage().wf()
        &&& self.spec_schema().wf()
        &&& self.spec_storage().spec_cap() == self.spec_oid_array().spec_capacity()
        &&& directory_ok(self.spec_inner().spec_entries(), self.locks())
        &&& forall|r: int| 0 <= r < self.len() ==> (#[trigger] self.spec_storage()@[r]) is Some
        &&& forall|r: int|
            0 <= r < self.len() && (#[trigger] self.locks()[r]).spec_is_cached() ==> self.cached_part(r)
                == self.spec_schema().spec_to_cached(self.stored(r))
    }

    /// The stored record of a record id.
    pub open spec fn stored(&self, r: int) -> <S::Tuple as View>::V {
        self.spec_storage()@[r].unwrap()@
    }

    /// The cached part in the slot a record's lock points at.
    pub open spec fn cached_part(&self, r: int) -> <S::Field as View>::V {
        self.spec_inner().spec_entries()[self.locks()[r].spec_cache_index() as int].unwrap().spec_val()@
    }

    /// Every record reads as its stored record.
    pub proof fn lemma_records_stored(&self)
        requires
            self.wf(),
        ensures
            forall|r: int|
                0 <= r < self.len() ==> #[trigger] self.records()[r] == self.spec_storage()@[r].unwrap()@,
    {
        assert forall|r: int| 0 <= r < self.len() implies #[trigger] self.records()[r]
            == self.spec_storage()@[r].unwrap()@ by {
            assert(oid_ok(self.spec_inner().spec_entries(), self.locks(), r));
            self.spec_schema().lemma_write_back_to_cached(self.spec_storage()@[r].unwrap());
        }
    }

    /// A cache of `cache_cnt` slots over a table of at most `tuple_cnt` records.
    pub fn new_cap(cache_cnt: usize, probe_len: usize, tuple_cnt: usize, schema: S) -> (r: Self)
        requires
            0 < cache_cnt <= u32::MAX,
            tuple_cnt < RID_SENTINEL,
            schema.wf(),
        ensures
            r.wf(),
            r.len() == 0,
            r.capacity() == tuple_cnt,
            r.spec_schema() == schema,
            r.spec_inner().spec_capacity() == cache_cnt,
            r.spec_inner().spec_probe_len() == probe_len as u32,
    {
        let inner = CacheInner::new_cap(cache_cnt, probe_len);
        let oid_array = OidArray::new(tuple_cnt);
        let storage = Storage::new(oid_array.capacity());
        Self { inner, storage, oid_array, schema }
    }

    /// A cache of `cache_size` bytes over a table of `storage_size` bytes.
    pub fn new(cache_size: usize, probe_len: usize, storage_size: usize, schema: S) -> (r: Self)
        requires
            vstd::layout::size_of::<ClockNode<S::Field>>() > 0,
            vstd::layout::size_of::<S::Tuple>() > 0,
            0 < cache_size as int / (vstd::layout::size_of::<ClockNode<S::Field>>() as int) <= u32::MAX,
            storage_size as int / (vstd::layout::size_of::<S::Tuple>() as int) < RID_SENTINEL,
            schema.wf(),
        ensures
            r.wf(),
            r.len() == 0,
            r.capacity() == storage_size as int / (vstd::layout::size_of::<S::Tuple>() as int),
            r.spec_schema() == schema,
            r.spec_inner().spec_capacity() == cache_size as int / (vstd::layout::size_of::<ClockNode<S::Field>>() as int),
            r.spec_inner().spec_probe_len() == probe_len as u32,
    {
        let cache_cnt = cache_size / core::mem::size_of::<ClockNode<S::Field>>();
        let tuple_cnt = storage_size / core::mem::size_of::<S::Tuple>();
        Self::new_cap(cache_cnt, probe_len, tuple_cnt, schema)
    }

    pub fn schema(&self) -> (r: &S)
        ensures
            *r == self.spec_schema(),
    {
        &self.schema
    }

    /// Forgets every record; for benchmarks only.
    pub fn reset(&mut self)
        requires
            old(self).wf(),
        ensures
            final(self).wf(),
            final(self).len() == 0,
            final(self).capacity() == old(self).capacity(),
            final(self).spec_schema() == old(self).spec_schema(),
    {
        self.oid_array.reset();
        self.inner.reset();
        proof {
            let es = self.inner.spec_entries();
            assert forall|i: int| 0 <= i < es.len() implies #[trigger] entry_ok(es, self.locks(), i) by {}
        }
    }

    pub fn thread_init(&mut self)
        requires
            old(self).wf(),
        ensures
            final(self).wf(),
            final(self).records() == old(self).records(),
            final(self).locks() == old(self).locks(),
            final(self).spec_schema() == old(self).spec_schema(),
            final(self).spec_inner().spec_hand() is Some,
            old(self).spec_inner().spec_hand() is Some ==> final(self).spec_inner().spec_hand()
                == old(self).spec_inner().spec_hand(),
            final(self).spec_inner().spec_entries() == old(self).spec_inner().spec_entries(),
            final(self).spec_inner().spec_capacity() == old(self).spec_inner().spec_capacity(),
            final(self).spec_inner().spec_probe_len() == old(self).spec_inner().spec_probe_len(),
            final(self).capacity() == old(self).capacity(),
    {
        self.inner.thread_init();
        proof {
            assert(self.records() =~= old(self).records());
        }
    }

    /// The number of records inserted.
    pub fn record_cnt(&self) -> (r: usize)
        ensures
            r == self.len(),
    {
        self.oid_array.len()
    }

    pub fn capacity_of_table(&self) -> (r: usize)
        ensures
            r == self.capacity(),
    {
        self.oid_array.capacity()
    }

    /// Inserts a record: it gets the next record id, its cached part goes into the cache
    /// (evicting another record's cached part, written back to the storage, when the probe
    /// finds one to evict), and the record goes into the storage. The record's lock comes
    /// back held for writing.
    pub fn insert(&mut self, val: S::Tuple) -> (r: (Rid, OidWriteGuard))
        requires
            old(self).wf(),
            old(self).len() < old(self).capacity(),
        ensures
            final(self).wf(),
            final(self).spec_schema() == old(self).spec_schema(),
            final(self).capacity() == old(self).capacity(),
            r.0.id() == old(self).len(),
            final(self).records() == old(self).records().push(val@),
            final(self).locks()[r.0.id() as int].word() & LOCK_MASK == LOCK_WRITER,
            forall|q: int| 0 <= q < old(self).len() ==> #[trigger] final(self).locks()[q].word() & LOCK_MASK == old(self).locks()[q].word() & LOCK_MASK,
            probe_finds(old(self).spec_inner(), old(self).locks()) ==> final(self).locks()[r.0.id() as int].spec_is_cached(),
    {
        let ghost e0 = self.inner.spec_entries();
        let ghost o0 = self.oid_array@;
        let ghost s0 = self.storage@;
        let ghost in0 = self.inner;
        proof {
            self.storage.lemma_wf();
        }
        let (rid, write_guard) = self.oid_array.alloc_rid();
        let ghost n = rid.id() as int;
        let ghost o1 = self.oid_array@;
        proof {
            assert(o1.subrange(0, n) == o0);
            assert forall|i: int| 0 <= i < e0.len() implies #[trigger] entry_ok(e0, o1, i) by {
                assert(entry_ok(e0, o0, i));
                if e0[i] is Some {
                    assert(o1[e0[i].unwrap().spec_rid() as int] == o0[e0[i].unwrap().spec_rid() as int]);
                }
            }
            assert forall|q: int| 0 <= q < o1.len() implies #[trigger] oid_ok(e0, o1, q) by {
                if q < n {
                    assert(oid_ok(e0, o0, q));
                    assert(o1[q] == o0[q]);
                }
            }
        }
        proof {
            if probe_finds(in0, o0) {
                let k = choose|k: int|
                    1 <= k <= in0.spec_probe_len() && k <= in0.spec_capacity() && #[trigger] slot_free_now(
                        in0.spec_entries(),
                        o0,
                        probe_slot(in0.hand_pos() as int, in0.spec_capacity() as int, k),
                    );
                let i = probe_slot(in0.hand_pos() as int, in0.spec_capacity() as int, k);
                vstd::arithmetic::div_mod::lemma_mod_bound(in0.hand_pos() as int + k, in0.spec_capacity() as int);
                assert(entry_ok(e0, o0, i));
                assert(slot_free_now(e0, o1, i));
                assert(probe_finds(in0, o1));
            }
        }
        let cached_item = self.schema.to_cached(&val);
        let evicted = self.inner.insert(rid, cached_item, &mut self.oid_array);
        let ghost e2 = self.inner.spec_entries();
        let ghost o2 = self.oid_array@;
        match evicted {
            Some((node, g)) => {
                let ghost ei = o0[node.spec_rid() as int].spec_cache_index() as int;
                let er = node.rid();
                let tuple = self.storage.get_mut(&er);
                self.schema.write_back(node.val(), tuple);
                let ghost o3 = self.oid_array@;
                g.release(self.oid_array.get_mut(er));
                proof {
                    let e = er.id() as int;
                    let o4 = self.oid_array@;
                    lemma_payload_determines(o3[e].word(), o4[e].word());
                    assert(o0[e].spec_payload() == o1[e].spec_payload());
                    assert forall|i: int| 0 <= i < e2.len() implies #[trigger] entry_ok(e2, o4, i) by {
                        assert(entry_ok(e2, o2, i));
                        if e2[i] is Some {
                            let q = e2[i].unwrap().spec_rid() as int;
                            assert(q != e);
                        }
                    }
                    assert forall|q: int| 0 <= q < o4.len() implies #[trigger] oid_ok(e2, o4, q) by {
                        assert(oid_ok(e2, o2, q));
                    }
                }
            },
            None => {},
        }
        let ghost s3 = self.storage@;
        let ghost o5 = self.oid_array@;
        self.storage.insert(&rid, val);
        proof {
            self.storage.lemma_wf();
            let s4 = self.storage@;
            let e4 = self.inner.spec_entries();
            let sch = self.schema;
            assert forall|r: int| 0 <= r < self.len() implies (#[trigger] self.spec_storage()@[r]) is Some by {
                if r < n {
                    assert(s0[r] is Some);
                }
            }
            sch.lemma_write_back_to_cached(val);
            assert forall|q: int| 0 <= q < self.len() implies #[trigger] self.records()[q] == old(self).records().push(val@)[q] by {
                if q == n {
                    assert(oid_ok(e4, o5, q));
                } else {
                    assert(oid_ok(e0, o0, q));
                    assert(s0[q] is Some);
                    if evicted is Some && q == evicted.unwrap().0.spec_rid() {
                        assert(o0[q].spec_is_cached());
                    } else {
                        assert(o5[q] == o0[q]);
                        assert(s4[q] == s0[q]);
                        if o0[q].spec_is_cached() {
                            let i = o0[q].spec_cache_index() as int;
                            assert(e0[i] is Some);
                            assert(same_slot(e4[i], e0[i]));
                        }
                        lemma_logical_frame(sch, e0, o0, s0, e4, o5, s4, q);
                    }
                }
            }
            assert(self.records() =~= old(self).records().push(val@));
            assert forall|r: int|
                0 <= r < self.len() && (#[trigger] self.locks()[r]).spec_is_cached() implies self.cached_part(r)
                    == self.spec_schema().spec_to_cached(self.stored(r)) by {
                if r == n {
                    assert(oid_ok(e4, o5, r));
                } else {
                    assert(oid_ok(e0, o0, r));
                    if evicted is Some && r == evicted.unwrap().0.spec_rid() {
                    } else {
                        assert(o5[r] == o0[r]);
                        let i = o0[r].spec_cache_index() as int;
                        assert(old(self).locks()[r].spec_is_cached());
                        assert(same_slot(e4[i], e0[i]));
                    }
                }
            }
        }
        (rid, write_guard)
    }

    /// Answers a query on record `rid` from the cache when the record is cached (setting the
    /// slot's reference bit when the draw `hit` came out true), adding the stored record when
    /// the cached part does not hold every queried field; from the storage otherwise.
    pub fn read<L: OidGuard, const N: usize>(
        &mut self,
        rid: Rid,
        oid_read: &L,
        query: &FieldsMeta<N>,
        hit: bool,
    ) -> (r: QueryValue<'_, S::Field, S::Tuple, L>)
        requires
            old(self).wf(),
            rid.id() < old(self).len(),
        ensures
            final(self).wf(),
            final(self).records() == old(self).records(),
            final(self).locks() == old(self).locks(),
            final(self).spec_schema() == old(self).spec_schema(),
            final(self).capacity() == old(self).capacity(),
            answers(r, old(self).spec_schema(), *query, old(self).records()[rid.id() as int]),
            (r.spec_field() is Some) == old(self).locks()[rid.id() as int].spec_is_cached(),
    {
        let ghost n = rid.id() as int;
        proof {
            assert(oid_ok(self.inner.spec_entries(), self.oid_array@, n));
            self.storage.lemma_wf();
            self.spec_schema().lemma_write_back_to_cached(self.storage@[n].unwrap());
        }
        if oid_read.is_cached(self.oid_array.get_sync(rid)) {
            let i = oid_read.to_cache_index(self.oid_array.get_sync(rid));
            self.inner.get_entry_mut(i).set_ref(hit);
            proof {
                assert forall|j: int| 0 <= j < self.inner.spec_entries().len() implies #[trigger] same_slot(
                    self.inner.spec_entries()[j], old(self).inner.spec_entries()[j]) by {}
                lemma_read_frame(*old(self), *self);
            }
            let entry = self.inner.get_entry(i);
            if self.schema.matches(query) {
                QueryValue::new(Some(entry.val()), None)
            } else {
                let tuple = self.storage.get(rid);
                QueryValue::new(Some(entry.val()), Some(tuple))
            }
        } else {
            let r = oid_read.to_rid(self.oid_array.get_sync(rid));
            let tuple = self.storage.get(r);
            QueryValue::new(None, Some(tuple))
        }
    }

    /// Reads record `rid`, whose lock the caller holds, as `read` does (setting the slot's
    /// reference bit when the record is cached and the draw `hit` came out true), and gives
    /// back the whole record: the cached part written back into a copy of the stored one.
    pub fn read_record<L: OidGuard>(&mut self, rid: Rid, oid_read: &L, hit: bool) -> (r: S::Tuple) where
        S::Tuple: Copy,

        requires
            old(self).wf(),
            rid.id() < old(self).len(),
        ensures
            final(self).wf(),
            final(self).records() == old(self).records(),
            final(self).locks() == old(self).locks(),
            final(self).spec_schema() == old(self).spec_schema(),
            final(self).capacity() == old(self).capacity(),
            r@ == old(self).records()[rid.id() as int],
    {
        let ghost n = rid.id() as int;
        proof {
            assert(oid_ok(self.inner.spec_entries(), self.oid_array@, n));
            self.storage.lemma_wf();
        }
        if oid_read.is_cached(self.oid_array.get_sync(rid)) {
            let i = oid_read.to_cache_index(self.oid_array.get_sync(rid));
            self.inner.get_entry_mut(i).set_ref(hit);
            proof {
                assert forall|j: int| 0 <= j < self.inner.spec_entries().len() implies #[trigger] same_slot(
                    self.inner.spec_entries()[j], old(self).inner.spec_entries()[j]) by {}
                lemma_read_frame(*old(self), *self);
            }
            let mut t = *self.storage.get(rid);
            let entry = self.inner.get_entry(i);
            self.schema.write_back(entry.val(), &mut t);
            t
        } else {
            let r = oid_read.to_rid(self.oid_array.get_sync(rid));
            *self.storage.get(r)
        }
    }

    /// Read-locks record `rid`: fails with `ReadLockBusy` when the record is write-locked.
    pub fn read_lock_sync(&mut self, rid: Rid) -> (r: Result<OidReadGuard, TransactionError>)
        requires
            old(self).wf(),
            rid.id() < old(self).len(),
            !old(self).locks()[rid.id() as int].spec_write_locked() ==> old(self).locks()[rid.id() as int].spec_read_cnt() + 1 < MAX_READER,
        ensures
            final(self).wf(),
            final(self).records() == old(self).records(),
            final(self).spec_schema() == old(self).spec_schema(),
            final(self).capacity() == old(self).capacity(),
            final(self).locks() == old(self).locks().update(rid.id() as int, final(self).locks()[rid.id() as int]),
            r is Err <==> old(self).locks()[rid.id() as int].spec_write_locked(),
            r matches Err(e) ==> e == TransactionError::ReadLockBusy,
            r is Err ==> final(self).locks() == old(self).locks(),
            r is Ok ==> final(self).locks()[rid.id() as int].spec_read_cnt() == old(self).locks()[rid.id() as int].spec_read_cnt() + 1,
            r is Ok ==> !final(self).locks()[rid.id() as int].spec_write_locked(),
    {
        let r = self.oid_array.get_mut(rid).try_read();
        proof {
            lemma_lock_frame(*old(self), *self, rid.id() as int);
        }
        r
    }

    /// Write-locks record `rid`: fails with `WriteLockBusy` when the record is locked.
    pub fn write_lock_sync(&mut self, rid: Rid) -> (r: Result<OidWriteGuard, TransactionError>)
        requires
            old(self).wf(),
            rid.id() < old(self).len(),
        ensures
            final(self).wf(),
            final(self).records() == old(self).records(),
            final(self).spec_schema() == old(self).spec_schema(),
            final(self).capacity() == old(self).capacity(),
            final(self).locks() == old(self).locks().update(rid.id() as int, final(self).locks()[rid.id() as int]),
            r is Err <==> oid_locked(old(self).locks()[rid.id() as int].word()),
            r matches Err(e) ==> e == TransactionError::WriteLockBusy,
            r is Err ==> final(self).locks() == old(self).locks(),
            r is Ok ==> final(self).locks()[rid.id() as int].word() & LOCK_MASK == LOCK_WRITER,
    {
        let r = self.oid_array.get_mut(rid).try_write();
        proof {
            lemma_lock_frame(*old(self), *self, rid.id() as int);
        }
        r
    }

    /// Gives back a read lock on record `rid`.
    pub fn read_unlock(&mut self, rid: Rid, guard: OidReadGuard)
        requires
            old(self).wf(),
            rid.id() < old(self).len(),
            !old(self).locks()[rid.id() as int].spec_write_locked(),
            old(self).locks()[rid.id() as int].spec_read_cnt() > 0,
        ensures
            final(self).wf(),
            final(self).records() == old(self).records(),
            final(self).spec_schema() == old(self).spec_schema(),
            final(self).capacity() == old(self).capacity(),
            final(self).locks() == old(self).locks().update(rid.id() as int, final(self).locks()[rid.id() as int]),
            final(self).locks()[rid.id() as int].spec_read_cnt() == old(self).locks()[rid.id() as int].spec_read_cnt() - 1,
            !final(self).locks()[rid.id() as int].spec_write_locked(),
    {
        guard.release(self.oid_array.get_mut(rid));
        proof {
            lemma_lock_frame(*old(self), *self, rid.id() as int);
        }
    }

    /// Gives back the write lock on record `rid`.
    pub fn write_unlock(&mut self, rid: Rid, guard: OidWriteGuard)
        requires
            old(self).wf(),
            rid.id() < old(self).len(),
            old(self).locks()[rid.id() as int].word() & LOCK_MASK == LOCK_WRITER,
        ensures
            final(self).wf(),
            final(self).records() == old(self).records(),
            final(self).spec_schema() == old(self).spec_schema(),
            final(self).capacity() == old(self).capacity(),
            final(self).locks() == old(self).locks().update(rid.id() as int, final(self).locks()[rid.id() as int]),
            !oid_locked(final(self).locks()[rid.id() as int].word()),
    {
        guard.release(self.oid_array.get_mut(rid));
        proof {
            lemma_lock_frame(*old(self), *self, rid.id() as int);
        }
    }

    /// Answers a query on record `rid`, whose write lock the caller holds, and caches the
    /// record when it was not: the draw `admitted` (a draw with the cache's promotion
    /// probability) decides whether the probe goes ahead; a record whose cached part is
    /// evicted has it written back to the storage. When the probe goes ahead and reaches a
    /// slot that can take the record at once (see `probe_finds`), the record ends up cached.
    /// Setting reference bits uses the draws
    /// `hit` (on a cached record) and `hit_new` (on a record just cached).
    pub fn read_and_promote<const N: usize>(
        &mut self,
        rid: Rid,
        oid: &mut OidWriteGuard,
        query: &FieldsMeta<N>,
        hit: bool,
        admitted: bool,
        hit_new: bool,
    ) -> (r: QueryValue<'_, S::Field, S::Tuple, OidWriteGuard>)
        requires
            old(self).wf(),
            rid.id() < old(self).len(),
        ensures
            final(self).wf(),
            final(self).records() == old(self).records(),
            final(self).spec_schema() == old(self).spec_schema(),
            final(self).capacity() == old(self).capacity(),
            final(self).len() == old(self).len(),
            forall|q: int| 0 <= q < old(self).len() ==> #[trigger] final(self).locks()[q].word() & LOCK_MASK == old(self).locks()[q].word() & LOCK_MASK,
            answers(r, old(self).spec_schema(), *query, old(self).records()[rid.id() as int]),
            (r.spec_field() is Some) == final(self).locks()[rid.id() as int].spec_is_cached(),
            old(self).locks()[rid.id() as int].spec_is_cached() ==> r.spec_field() is Some,
            !admitted ==> final(self).locks() == old(self).locks(),
            admitted && probe_finds(old(self).spec_inner(), old(self).locks())
                ==> final(self).locks()[rid.id() as int].spec_is_cached(),
    {
        if oid.is_cached(self.oid_array.get_sync(rid)) {
            return self.read(rid, &*oid, query, hit);
        }
        let ghost n = rid.id() as int;
        let ghost e0 = self.inner.spec_entries();
        let ghost o0 = self.oid_array@;
        let ghost s0 = self.storage@;
        let ghost sch = self.schema;
        proof {
            self.storage.lemma_wf();
            assert(oid_ok(e0, o0, n));
            sch.lemma_write_back_to_cached(s0[n].unwrap());
        }
        if self.inner.probe_len() == 0 {
            return QueryValue::new(None, Some(self.storage.get(rid)));
        }
        let cached_item = self.schema.to_cached(self.storage.get(rid));
        let new_node = ClockNode::new(cached_item, rid);
        let res = self.inner.probe_and_replace_rng(new_node, rid, &mut self.oid_array, admitted);
        match res {
            Some((new_loc, evicted)) => {
                let ghost e1 = self.inner.spec_entries();
                self.inner.get_entry_mut(new_loc).set_ref(hit_new);
                let ghost e2 = self.inner.spec_entries();
                let ghost o2 = self.oid_array@;
                proof {
                    assert forall|j: int| 0 <= j < e0.len() && j != new_loc implies #[trigger] same_slot(e2[j], e0[j]) by {
                        assert(same_slot(e1[j], e0[j]));
                    }
                    assert forall|i: int| 0 <= i < e2.len() implies #[trigger] entry_ok(e2, o2, i) by {
                        assert(entry_ok(e1, o2, i));
                        assert(same_slot(e2[i], e1[i]));
                    }
                    assert forall|q: int| 0 <= q < o2.len() implies #[trigger] oid_ok(e2, o2, q) by {
                        assert(oid_ok(e1, o2, q));
                        if o2[q].spec_is_cached() {
                            assert(same_slot(e2[o2[q].spec_cache_index() as int], e1[o2[q].spec_cache_index() as int]));
                        }
                    }
                }
                match evicted {
                    Some((node, g)) => {
                        let er = node.rid();
                        let ghost e = er.id() as int;
                        proof {
                            assert(oid_ok(e0, o0, e));
                            sch.lemma_write_back_to_cached(s0[e].unwrap());
                        }
                        let tuple = self.storage.get_mut(&er);
                        self.schema.write_back(node.val(), tuple);
                        let ghost o3 = self.oid_array@;
                        g.release(self.oid_array.get_mut(er));
                        proof {
                            let o4 = self.oid_array@;
                            lemma_payload_determines(o3[e].word(), o4[e].word());
                        }
                    },
                    None => {},
                }
                proof {
                    let e4 = self.inner.spec_entries();
                    let o4 = self.oid_array@;
                    let s4 = self.storage@;
                    self.storage.lemma_wf();
                    let ev = evicted;
                    assert(o4.len() == o0.len());
                    assert forall|i: int| 0 <= i < e4.len() implies #[trigger] entry_ok(e4, o4, i) by {
                        assert(entry_ok(e2, o2, i));
                        if e4[i] is Some {
                            let q = e4[i].unwrap().spec_rid() as int;
                            if ev is Some {
                                assert(q != ev.unwrap().0.spec_rid());
                            }
                        }
                    }
                    assert forall|q: int| 0 <= q < o4.len() implies #[trigger] oid_ok(e4, o4, q) by {
                        assert(oid_ok(e2, o2, q));
                    }
                    assert forall|r: int| 0 <= r < self.len() implies (#[trigger] self.spec_storage()@[r]) is Some by {
                        assert(s0[r] is Some);
                    }
                    assert forall|q: int| 0 <= q < self.len() implies #[trigger] self.records()[q] == old(self).records()[q] by {
                        assert(oid_ok(e0, o0, q));
                        assert(s0[q] is Some);
                        if q == n {
                            assert(oid_ok(e4, o4, q));
                        } else if ev is Some && q == ev.unwrap().0.spec_rid() {
                            assert(o0[q].spec_is_cached());
                        } else {
                            assert(o4[q] == o0[q]);
                            assert(s4[q] == s0[q]);
                            if o0[q].spec_is_cached() {
                                let i = o0[q].spec_cache_index() as int;
                                assert(same_slot(e4[i], e0[i]));
                            }
                            lemma_logical_frame(sch, e0, o0, s0, e4, o4, s4, q);
                        }
                    }
                    assert(self.records() =~= old(self).records());
                    assert forall|r: int|
                        0 <= r < self.len() && (#[trigger] self.locks()[r]).spec_is_cached() implies self.cached_part(r)
                            == self.spec_schema().spec_to_cached(self.stored(r)) by {
                        assert(oid_ok(e0, o0, r));
                        if r == n {
                            assert(oid_ok(e4, o4, r));
                        } else if ev is Some && r == ev.unwrap().0.spec_rid() {
                        } else {
                            assert(o4[r] == o0[r]);
                            let i = o0[r].spec_cache_index() as int;
                            assert(old(self).locks()[r].spec_is_cached());
                            assert(same_slot(e4[i], e0[i]));
                        }
                    }
                    assert forall|q: int| 0 <= q < old(self).len() implies #[trigger] self.locks()[q].word() & LOCK_MASK == old(self).locks()[q].word() & LOCK_MASK by {
                        if ev is Some && q == ev.unwrap().0.spec_rid() {
                            assert(!oid_locked(o0[q].word()));
                        }
                    }
                }
                let entry = self.inner.get_entry(new_loc);
                if self.schema.matches(query) {
                    QueryValue::new(Some(entry.val()), None)
                } else {
                    let tuple = self.storage.get(rid);
                    QueryValue::new(Some(entry.val()), Some(tuple))
                }
            },
            None => {
                proof {
                    lemma_read_frame(*old(self), *self);
                }
                QueryValue::new(None, Some(self.storage.get(rid)))
            },
        }
    }

    /// Writes new values into fields of record `rid`, whose write lock the caller holds:
    /// they go into the stored record, and a cached record has its cached part taken anew
    /// from the updated record. No other record changes, and no lock.
    pub fn update<const N: usize>(&mut self, rid: Rid, oid: &OidWriteGuard, query: UpdateQuery<'_, N>)
        requires
            old(self).wf(),
            rid.id() < old(self).len(),
            <S::Tuple as Tuple>::update_ok(query.spec_meta().fields@, query.spec_data().len()),
        ensures
            final(self).wf(),
            final(self).records() == old(self).records().update(
                rid.id() as int,
                <S::Tuple as Tuple>::spec_update(
                    old(self).records()[rid.id() as int],
                    query.spec_meta().fields@,
                    query.spec_data(),
                ),
            ),
            final(self).locks() == old(self).locks(),
            final(self).spec_schema() == old(self).spec_schema(),
            final(self).capacity() == old(self).capacity(),
    {
        let ghost n = rid.id() as int;
        let ghost e0 = self.inner.spec_entries();
        let ghost o0 = self.oid_array@;
        let ghost s0 = self.storage@;
        let ghost sch = self.schema;
        proof {
            self.storage.lemma_wf();
            assert(oid_ok(e0, o0, n));
            sch.lemma_write_back_to_cached(s0[n].unwrap());
            assert(old(self).records()[n] == s0[n].unwrap()@);
        }
        let tuple = self.storage.get_mut(&rid);
        tuple.update(query);
        let ghost s1 = self.storage@;
        let ghost t1 = s1[n].unwrap();
        if oid.is_cached(self.oid_array.get_sync(rid)) {
            let i = oid.to_cache_index(self.oid_array.get_sync(rid));
            let cached = self.schema.to_cached(self.storage.get(rid));
            self.inner.get_entry_mut(i).set_val(cached);
        }
        proof {
            let e2 = self.inner.spec_entries();
            self.storage.lemma_wf();
            sch.lemma_write_back_to_cached(t1);
            assert forall|i: int| 0 <= i < e2.len() implies #[trigger] entry_ok(e2, o0, i) by {
                assert(entry_ok(e0, o0, i));
            }
            assert forall|q: int| 0 <= q < o0.len() implies #[trigger] oid_ok(e2, o0, q) by {
                assert(oid_ok(e0, o0, q));
            }
            assert forall|r: int| 0 <= r < self.len() implies (#[trigger] self.spec_storage()@[r]) is Some by {
                assert(s0[r] is Some);
            }
            assert forall|r: int|
                0 <= r < self.len() && (#[trigger] self.locks()[r]).spec_is_cached() implies self.cached_part(r)
                    == self.spec_schema().spec_to_cached(self.stored(r)) by {
                assert(oid_ok(e0, o0, r));
                assert(oid_ok(e0, o0, n));
                if r != n {
                    assert(o0[r].spec_cache_index() != o0[n].spec_cache_index() || !o0[n].spec_is_cached());
                }
            }
            assert forall|q: int| 0 <= q < self.len() implies #[trigger] self.records()[q] == old(self).records().update(
                n,
                <S::Tuple as Tuple>::spec_update(old(self).records()[n], query.spec_meta().fields@, query.spec_data()),
            )[q] by {
                assert(oid_ok(e0, o0, q));
                assert(s0[q] is Some);
                if q == n {
                    assert(oid_ok(e2, o0, q));
                } else {
                    if o0[q].spec_is_cached() {
                        assert(oid_ok(e0, o0, n));
                        let i = o0[q].spec_cache_index() as int;
                        assert(same_slot(e2[i], e0[i]));
                    }
                    lemma_logical_frame(sch, e0, o0, s0, e2, o0, self.storage@, q);
                }
            }
            assert(self.records() =~= old(self).records().update(
                n,
                <S::Tuple as Tuple>::spec_update(old(self).records()[n], query.spec_meta().fields@, query.spec_data()),
            ));
        }
    }
}

} // verus!

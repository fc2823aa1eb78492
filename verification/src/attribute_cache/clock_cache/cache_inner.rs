use vstd::prelude::*;

use super::node_meta::NodeMeta;
use super::oid::{
    lemma_index_fits, lemma_payload_determines, oid_locked, LockedOid, OidWriteGuard, LOCK_MASK,
    LOCK_WRITER,
};
use crate::attribute_cache::{Rid, RID_SENTINEL};
use crate::storage::oid_array::OidArray;

verus! {

broadcast use LockedOid::lemma_word_determines;

/// A cache entry: the record id whose cached part it holds, the entry's metadata and the
/// cached part.
pub struct ClockNode<T> {
    rid: u32,
    meta: NodeMeta,
    val: T,
}

impl<T> ClockNode<T> {
    pub closed spec fn spec_rid(&self) -> u32 {
        self.rid
    }

    pub closed spec fn spec_meta(&self) -> NodeMeta {
        self.meta
    }

    pub closed spec fn spec_val(&self) -> T {
        self.val
    }

    pub fn new(val: T, rid: Rid) -> (r: Self)
        ensures
            r.spec_rid() == rid.id(),
            r.spec_val() == val,
            r.spec_meta().word() == 0,
    {
        Self { rid: rid.as_u32(), meta: NodeMeta::new(), val }
    }

    pub fn rid(&self) -> (r: Rid)
        requires
            self.spec_rid() != RID_SENTINEL,
        ensures
            r.id() == self.spec_rid(),
    {
        let rid = self.rid;
        Rid::from_u32(rid)
    }

    /// Sets the reference bit when the draw `hit` (a draw with the cache's reference
    /// probability) came out true.
    pub fn set_ref(&mut self, hit: bool)
        ensures
            final(self).spec_rid() == old(self).spec_rid(),
            final(self).spec_val() == old(self).spec_val(),
            hit ==> final(self).spec_meta().spec_refed(),
            !hit ==> final(self).spec_meta() == old(self).spec_meta(),
    {
        if hit {
            self.meta.set_ref();
        }
    }

    /// Clear the ref bit, return true if the ref bit is set
    pub fn try_clear_ref(&mut self) -> (r: bool)
        ensures
            r == old(self).spec_meta().spec_refed(),
            !final(self).spec_meta().spec_refed(),
            final(self).spec_rid() == old(self).spec_rid(),
            final(self).spec_val() == old(self).spec_val(),
    {
        self.meta.clear_if_set()
    }

    pub fn val(&self) -> (r: &T)
        ensures
            *r == self.spec_val(),
    {
        &self.val
    }

    /// Replaces the cached part, keeping the record id and the metadata.
    pub fn set_val(&mut self, val: T)
        ensures
            final(self).spec_rid() == old(self).spec_rid(),
            final(self).spec_meta() == old(self).spec_meta(),
            final(self).spec_val() == val,
    {
        self.val = val;
    }

    pub fn meta(&self) -> (r: &NodeMeta)
        ensures
            *r == self.spec_meta(),
    {
        &self.meta
    }
}

/// Whether two cache slots hold the same record's cached part (their metadata aside).
pub open spec fn same_slot<F>(a: Option<ClockNode<F>>, b: Option<ClockNode<F>>) -> bool {
    &&& (a is Some <==> b is Some)
    &&& a is Some ==> a.unwrap().spec_rid() == b.unwrap().spec_rid() && a.unwrap().spec_val()
        == b.unwrap().spec_val()
}

pub open spec fn same_slots<F>(a: Seq<Option<ClockNode<F>>>, b: Seq<Option<ClockNode<F>>>) -> bool {
    &&& a.len() == b.len()
    &&& forall|i: int| 0 <= i < a.len() ==> #[trigger] same_slot(a[i], b[i])
}

/// A cache slot points back at a record whose lock points at the slot.
pub open spec fn entry_ok<F>(entries: Seq<Option<ClockNode<F>>>, oids: Seq<LockedOid>, i: int) -> bool {
    entries[i] is Some ==> {
        let r = entries[i].unwrap().spec_rid() as int;
        &&& 0 <= r < oids.len()
        &&& oids[r].spec_is_cached()
        &&& oids[r].spec_cache_index() == i
    }
}

/// A record's lock points either at a cache slot that holds the record, or at the record's
/// own id.
pub open spec fn oid_ok<F>(entries: Seq<Option<ClockNode<F>>>, oids: Seq<LockedOid>, r: int) -> bool {
    &&& oids[r].word() & 0x0000_ffff_0000_0000u64 == 0
    &&& oids[r].spec_is_cached() ==> {
        let i = oids[r].spec_cache_index() as int;
        &&& 0 <= i < entries.len()
        &&& entries[i] is Some
        &&& entries[i].unwrap().spec_rid() == r
    }
    &&& !oids[r].spec_is_cached() ==> oids[r].spec_rid() == r
}

/// The cache slots and the record locks agree on which record is cached where.
pub open spec fn directory_ok<F>(entries: Seq<Option<ClockNode<F>>>, oids: Seq<LockedOid>) -> bool {
    &&& oids.len() < RID_SENTINEL
    &&& forall|i: int| 0 <= i < entries.len() ==> #[trigger] entry_ok(entries, oids, i)
    &&& forall|r: int| 0 <= r < oids.len() ==> #[trigger] oid_ok(entries, oids, r)
}

/// The slot a probe from the hand `h` visits at its `k`-th step, in a cache of `cap` slots.
pub open spec fn probe_slot(h: int, cap: int, k: int) -> int {
    (h + k) % cap
}

/// Slot `i` can take a new node at once: it is empty, or its node is not referenced and the
/// lock of its record is free.
pub open spec fn slot_free_now<F>(entries: Seq<Option<ClockNode<F>>>, oids: Seq<LockedOid>, i: int) -> bool {
    match entries[i] {
        None => true,
        Some(n) => !n.spec_meta().spec_refed() && !oid_locked(oids[n.spec_rid() as int].word()),
    }
}

/// The probe steps from the hand of `cache`, as many as its probe length but no more than it
/// has slots, reach a slot that can take a new node at once.
pub open spec fn probe_finds<F>(cache: CacheInner<F>, oids: Seq<LockedOid>) -> bool {
    exists|k: int|
        1 <= k <= cache.spec_probe_len() && k <= cache.spec_capacity() && #[trigger] slot_free_now(
            cache.spec_entries(),
            oids,
            probe_slot(cache.hand_pos() as int, cache.spec_capacity() as int, k),
        )
}

/// One more step of the hand lands on the next probe slot.
proof fn lemma_probe_step(h: int, cap: int, p: int)
    requires
        0 <= h,
        0 <= p,
        0 < cap,
    ensures
        (probe_slot(h, cap, p) + 1) % cap == probe_slot(h, cap, p + 1),
{
    vstd::arithmetic::div_mod::lemma_add_mod_noop(h + p, 1, cap);
    vstd::arithmetic::div_mod::lemma_add_mod_noop((h + p) % cap, 1, cap);
    vstd::arithmetic::div_mod::lemma_mod_twice(h + p, cap);
}

/// The first `cap` probe steps visit different slots.
proof fn lemma_probe_slots_differ(h: int, cap: int, a: int, b: int)
    requires
        0 <= h,
        1 <= a < b <= cap,
    ensures
        probe_slot(h, cap, a) != probe_slot(h, cap, b),
{
    vstd::arithmetic::div_mod::lemma_mod_equivalence(h + b, h + a, cap);
    vstd::arithmetic::div_mod::lemma_small_mod((b - a) as nat, cap as nat);
    assert((h + b) - (h + a) == b - a);
}

/// The cache slots of a clock cache, together with the clock hand of the running thread.
pub struct CacheInner<F> {
    capacity: u32,
    probe_len: u32,
    /// The clock hand; `None` until the thread first uses it.
    tls_index: Option<u32>,
    entries: Vec<Option<ClockNode<F>>>,
}

impl<F> CacheInner<F> {
    pub closed spec fn spec_entries(&self) -> Seq<Option<ClockNode<F>>> {
        self.entries@
    }

    pub closed spec fn spec_capacity(&self) -> u32 {
        self.capacity
    }

    pub closed spec fn spec_probe_len(&self) -> u32 {
        self.probe_len
    }

    pub closed spec fn spec_hand(&self) -> Option<u32> {
        self.tls_index
    }

    pub open spec fn wf(&self) -> bool {
        &&& self.spec_capacity() > 0
        &&& self.spec_entries().len() == self.spec_capacity()
        &&& self.spec_hand() matches Some(h) ==> h < self.spec_capacity()
    }

    /// The hand's position: where it stands, or 0 before the thread first uses it.
    pub open spec fn hand_pos(&self) -> u32 {
        match self.spec_hand() {
            Some(h) => h,
            None => 0,
        }
    }

    /// A cache of `cache_cnt` empty slots.
    pub fn new_cap(cache_cnt: usize, probe_len: usize) -> (r: Self)
        requires
            0 < cache_cnt <= u32::MAX,
        ensures
            r.wf(),
            r.spec_capacity() == cache_cnt,
            r.spec_probe_len() == probe_len as u32,
            r.spec_hand() is None,
            forall|i: int| 0 <= i < cache_cnt ==> r.spec_entries()[i] is None,
    {
        let mut entries: Vec<Option<ClockNode<F>>> = Vec::new();
        let mut i: usize = 0;
        while i < cache_cnt
            invariant
                0 <= i <= cache_cnt,
                entries@.len() == i,
                forall|j: int| 0 <= j < i ==> entries@[j] is None,
            decreases cache_cnt - i,
        {
            entries.push(None);
            i += 1;
        }
        CacheInner { entries, tls_index: None, capacity: cache_cnt as u32, probe_len: probe_len as u32 }
    }

    /// A cache of as many slots as `cache_size` bytes hold.
    pub fn new(cache_size: usize, probe_len: usize) -> (r: Self)
        requires
            vstd::layout::size_of::<ClockNode<F>>() > 0,
            0 < cache_size as int / (vstd::layout::size_of::<ClockNode<F>>() as int) <= u32::MAX,
        ensures
            r.wf(),
            r.spec_capacity() == cache_size as int / (vstd::layout::size_of::<ClockNode<F>>() as int),
            r.spec_probe_len() == probe_len as u32,
            forall|i: int| 0 <= i < r.spec_capacity() ==> r.spec_entries()[i] is None,
    {
        let cap = cache_size / core::mem::size_of::<ClockNode<F>>();
        CacheInner::new_cap(cap, probe_len)
    }

    /// Empties every slot.
    pub fn reset(&mut self)
        requires
            old(self).wf(),
        ensures
            final(self).wf(),
            final(self).spec_capacity() == old(self).spec_capacity(),
            final(self).spec_probe_len() == old(self).spec_probe_len(),
            final(self).spec_hand() == old(self).spec_hand(),
            forall|i: int| 0 <= i < final(self).spec_capacity() ==> final(self).spec_entries()[i] is None,
    {
        let mut i: usize = 0;
        let cap = self.capacity as usize;
        while i < cap
            invariant
                0 <= i <= cap,
                cap == self.capacity,
                self.entries@.len() == cap,
                self.capacity == old(self).capacity,
                self.probe_len == old(self).probe_len,
                self.tls_index == old(self).tls_index,
                self.wf(),
                forall|j: int| 0 <= j < i ==> self.entries@[j] is None,
            decreases cap - i,
        {
            self.entries.set(i, None);
            i += 1;
        }
    }

    /// Places the thread's hand, on first use, at `start`: a draw below the capacity.
    pub fn thread_init_at(&mut self, start: u32)
        requires
            old(self).wf(),
            start < old(self).spec_capacity(),
        ensures
            final(self).wf(),
            final(self).spec_entries() == old(self).spec_entries(),
            final(self).spec_capacity() == old(self).spec_capacity(),
            final(self).spec_probe_len() == old(self).spec_probe_len(),
            old(self).spec_hand() is None ==> final(self).spec_hand() == Some(start),
            old(self).spec_hand() is Some ==> final(self).spec_hand() == old(self).spec_hand(),
    {
        if self.tls_index.is_none() {
            self.tls_index = Some(start);
        }
    }

    /// Init the hand at a random slot, so the threads scatter around the whole entry space,
    /// instead of contending on a single slot.
    pub fn thread_init(&mut self)
        requires
            old(self).wf(),
        ensures
            final(self).wf(),
            final(self).spec_entries() == old(self).spec_entries(),
            final(self).spec_capacity() == old(self).spec_capacity(),
            final(self).spec_probe_len() == old(self).spec_probe_len(),
            old(self).spec_hand() is None ==> final(self).spec_hand() is Some,
            old(self).spec_hand() is Some ==> final(self).spec_hand() == old(self).spec_hand(),
    {
        if self.tls_index.is_none() {
            let start = crate::utils::rand_below_u32(self.capacity);
            self.thread_init_at(start);
        }
    }

    /// Moves the hand one slot on and returns its new position.
    pub fn advance_index(&mut self) -> (r: usize)
        requires
            old(self).wf(),
        ensures
            final(self).wf(),
            r == (old(self).hand_pos() + 1) % (old(self).spec_capacity() as int),
            final(self).spec_hand() == Some(r as u32),
            final(self).spec_entries() == old(self).spec_entries(),
            final(self).spec_capacity() == old(self).spec_capacity(),
            final(self).spec_probe_len() == old(self).spec_probe_len(),
    {
        let index = (self.get_index() + 1) % self.capacity();
        self.tls_index = Some(index as u32);
        index
    }

    pub fn capacity(&self) -> (r: usize)
        ensures
            r == self.spec_capacity(),
    {
        self.capacity as usize
    }

    pub fn probe_len(&self) -> (r: usize)
        ensures
            r == self.spec_probe_len(),
    {
        self.probe_len as usize
    }

    pub fn get_index(&self) -> (r: usize)
        ensures
            r == self.hand_pos(),
    {
        match self.tls_index {
            Some(i) => i as usize,
            None => 0,
        }
    }

    pub fn get_entry(&self, index: usize) -> (r: &ClockNode<F>)
        requires
            index < self.spec_entries().len(),
            self.spec_entries()[index as int] is Some,
        ensures
            Some(*r) == self.spec_entries()[index as int],
    {
        self.entries[index].as_ref().unwrap()
    }

    pub fn get_entry_mut(&mut self, index: usize) -> (r: &mut ClockNode<F>)
        requires
            index < old(self).spec_entries().len(),
            old(self).spec_entries()[index as int] is Some,
        ensures
            Some(*r) == old(self).spec_entries()[index as int],
            final(self).spec_entries() == old(self).spec_entries().update(index as int, Some(*final(r))),
            final(self).spec_capacity() == old(self).spec_capacity(),
            final(self).spec_probe_len() == old(self).spec_probe_len(),
            final(self).spec_hand() == old(self).spec_hand(),
    {
        self.entries[index].as_mut().unwrap()
    }

    /// Replace an old clock node with the new one: when the draw `admitted` (a draw with the
    /// given probability) came out true, walk the clock hand over at most `probe_len` slots.
    /// An empty slot takes the new node. A slot whose reference bit is set loses the bit and
    /// is passed. Otherwise the slot's record is evicted when its lock can be write-locked:
    /// the record's lock points back at the record id, and the old node comes back together
    /// with that lock, still held. The new record's lock then points at the slot. Returns the
    /// slot, or `None` when no slot was found.
    pub fn probe_and_replace_rng(
        &mut self,
        new_node: ClockNode<F>,
        rid: Rid,
        oid_array: &mut OidArray,
        admitted: bool,
    ) -> (r: Option<(usize, Option<(ClockNode<F>, OidWriteGuard)>)>)
        requires
            old(self).wf(),
            old(oid_array).wf(),
            directory_ok(old(self).spec_entries(), old(oid_array)@),
            rid.id() < old(oid_array)@.len(),
            !old(oid_array)@[rid.id() as int].spec_is_cached(),
            new_node.spec_rid() == rid.id(),
        ensures
            final(self).wf(),
            final(oid_array).wf(),
            final(self).spec_capacity() == old(self).spec_capacity(),
            final(self).spec_probe_len() == old(self).spec_probe_len(),
            final(oid_array).spec_capacity() == old(oid_array).spec_capacity(),
            final(oid_array)@.len() == old(oid_array)@.len(),
            directory_ok(final(self).spec_entries(), final(oid_array)@),
            !admitted ==> r is None && *final(self) == *old(self) && *final(oid_array) == *old(oid_array),
            admitted && probe_finds(*old(self), old(oid_array)@) ==> r is Some,
            r is None ==> same_slots(final(self).spec_entries(), old(self).spec_entries())
                && final(oid_array)@ == old(oid_array)@,
            r matches Some((i, ev)) ==> {
                &&& i < old(self).spec_capacity()
                &&& final(self).spec_entries()[i as int] is Some
                &&& final(self).spec_entries()[i as int].unwrap().spec_rid() == rid.id()
                &&& final(self).spec_entries()[i as int].unwrap().spec_val() == new_node.spec_val()
                &&& forall|j: int| 0 <= j < old(self).spec_capacity() && j != i ==>
                    #[trigger] same_slot(final(self).spec_entries()[j], old(self).spec_entries()[j])
                &&& final(oid_array)@[rid.id() as int].spec_is_cached()
                &&& final(oid_array)@[rid.id() as int].spec_cache_index() == i
                &&& final(oid_array)@[rid.id() as int].word() & LOCK_MASK == old(oid_array)@[rid.id() as int].word() & LOCK_MASK
                &&& ev is None ==> {
                    &&& old(self).spec_entries()[i as int] is None
                    &&& forall|q: int| 0 <= q < old(oid_array)@.len() && q != rid.id() ==>
                        #[trigger] final(oid_array)@[q] == old(oid_array)@[q]
                }
                &&& ev matches Some((old_node, g)) ==> {
                    let e = old_node.spec_rid() as int;
                    &&& old(self).spec_entries()[i as int] is Some
                    &&& same_slot(Some(old_node), old(self).spec_entries()[i as int])
                    &&& 0 <= e < old(oid_array)@.len()
                    &&& e != rid.id()
                    &&& !oid_locked(old(oid_array)@[e].word())
                    &&& old(oid_array)@[e].spec_is_cached()
                    &&& old(oid_array)@[e].spec_cache_index() == i
                    &&& final(oid_array)@[e].word() & LOCK_MASK == LOCK_WRITER
                    &&& !final(oid_array)@[e].spec_is_cached()
                    &&& final(oid_array)@[e].spec_rid() == e
                    &&& forall|q: int| 0 <= q < old(oid_array)@.len() && q != rid.id() && q != e ==>
                        #[trigger] final(oid_array)@[q] == old(oid_array)@[q]
                }
            },
    {
        if !admitted {
            return None;
        }
        let ghost old_entries = self.entries@;
        let ghost old_oids = oid_array@;
        let ghost r_id = rid.id() as int;
        let ghost h0 = old(self).hand_pos() as int;
        let ghost cap = old(self).spec_capacity() as int;
        let ghost lim = if old(self).spec_probe_len() < old(self).spec_capacity() {
            old(self).spec_probe_len() as int
        } else {
            cap
        };
        proof {
            vstd::arithmetic::div_mod::lemma_small_mod(h0 as nat, cap as nat);
        }
        let mut p: u32 = 0;
        while p < self.probe_len
            invariant
                h0 == old(self).hand_pos(),
                cap == old(self).spec_capacity(),
                lim <= cap,
                lim <= old(self).spec_probe_len(),
                lim == old(self).spec_probe_len() || lim == cap,
                p <= self.probe_len,
                self.hand_pos() == probe_slot(h0, cap, p as int),
                forall|k: int|
                    p < k <= lim ==> self.entries@[#[trigger] probe_slot(h0, cap, k)]
                        == old_entries[probe_slot(h0, cap, k)],
                forall|k: int|
                    1 <= k <= p && k <= lim ==> !slot_free_now(
                        old_entries,
                        old_oids,
                        #[trigger] probe_slot(h0, cap, k),
                    ),
                self.wf(),
                oid_array.wf(),
                self.capacity == old(self).capacity,
                self.probe_len == old(self).probe_len,
                oid_array.spec_capacity() == old(oid_array).spec_capacity(),
                old_entries == old(self).spec_entries(),
                old_oids == old(oid_array)@,
                r_id == rid.id(),
                oid_array@ == old_oids,
                same_slots(self.entries@, old_entries),
                directory_ok(self.entries@, oid_array@),
                r_id < oid_array@.len(),
                !oid_array@[r_id].spec_is_cached(),
                new_node.spec_rid() == rid.id(),
                admitted,
            decreases self.probe_len - p,
        {
            let cur_index = self.advance_index();
            let ghost pre_entries = self.entries@;
            proof {
                lemma_probe_step(h0, cap, p as int);
                assert(cur_index == probe_slot(h0, cap, p + 1));
                assert forall|k: int| p + 1 < k <= lim implies probe_slot(h0, cap, k) != cur_index by {
                    lemma_probe_slots_differ(h0, cap, p + 1, k);
                }
            }
            if self.entries[cur_index].is_none() {
                proof {
                    assert(oid_ok(self.entries@, oid_array@, r_id));
                    lemma_index_fits(oid_array@[r_id].word());
                }
                self.entries.set(cur_index, Some(new_node));
                let lock = oid_array.get_mut(rid);
                lock.store_index(cur_index);
                proof {
                    let es = self.entries@;
                    let os = oid_array@;
                    assert(os[r_id].spec_cache_index() == cur_index);
                    assert forall|i: int| 0 <= i < es.len() implies #[trigger] entry_ok(es, os, i) by {
                        if i != cur_index {
                            assert(entry_ok(pre_entries, old_oids, i));
                            assert(same_slot(es[i], pre_entries[i]));
                            if es[i] is Some {
                                let q = es[i].unwrap().spec_rid() as int;
                                if q == r_id {
                                    assert(old_oids[r_id].spec_is_cached());
                                }
                            }
                        }
                    }
                    assert forall|q: int| 0 <= q < os.len() implies #[trigger] oid_ok(es, os, q) by {
                        assert(oid_ok(pre_entries, old_oids, q));
                        if q != r_id {
                            assert(os[q] == old_oids[q]);
                            if os[q].spec_is_cached() {
                                let i = os[q].spec_cache_index() as int;
                                if i == cur_index {
                                    assert(pre_entries[i] is Some);
                                } else {
                                    assert(es[i] == pre_entries[i]);
                                }
                            }
                        }
                    }
                    assert forall|j: int| 0 <= j < old_entries.len() && j != cur_index implies
                        #[trigger] same_slot(es[j], old_entries[j]) by {
                        assert(same_slot(pre_entries[j], old_entries[j]));
                    }
                    assert(same_slot(pre_entries[cur_index as int], old_entries[cur_index as int]));
                }
                return Some((cur_index, None));
            } else {
                let cleared = self.get_entry_mut(cur_index).try_clear_ref();
                if cleared {
                    proof {
                        let es = self.entries@;
                        assert(same_slot(es[cur_index as int], pre_entries[cur_index as int]));
                        assert forall|i: int| 0 <= i < es.len() implies #[trigger] same_slot(es[i], old_entries[i]) by {
                            assert(same_slot(pre_entries[i], old_entries[i]));
                        }
                        assert forall|i: int| 0 <= i < es.len() implies #[trigger] entry_ok(es, oid_array@, i) by {
                            assert(entry_ok(pre_entries, oid_array@, i));
                            assert(same_slot(pre_entries[i], es[i]) || i == cur_index);
                        }
                        assert forall|q: int| 0 <= q < oid_array@.len() implies #[trigger] oid_ok(es, oid_array@, q) by {
                            assert(oid_ok(pre_entries, oid_array@, q));
                            if oid_array@[q].spec_is_cached() {
                                let i = oid_array@[q].spec_cache_index() as int;
                                assert(same_slot(pre_entries[i], es[i]) || i == cur_index);
                            }
                        }
                    }
                    proof {
                        if p + 1 <= lim {
                            assert(pre_entries[cur_index as int] == old_entries[probe_slot(h0, cap, p + 1)]);
                        }
                        assert forall|k: int| p + 1 < k <= lim implies self.entries@[#[trigger] probe_slot(h0, cap, k)]
                            == old_entries[probe_slot(h0, cap, k)] by {
                            assert(probe_slot(h0, cap, k) != cur_index);
                        }
                    }
                    p += 1;
                    continue;
                }
                let ghost mid_entries = self.entries@;
                proof {
                    assert(entry_ok(pre_entries, oid_array@, cur_index as int));
                }
                let cur_rid = self.get_entry(cur_index).rid();
                let ghost e = cur_rid.id() as int;
                proof {
                    assert(mid_entries == pre_entries.update(cur_index as int, mid_entries[cur_index as int]));
                    assert forall|i: int| 0 <= i < mid_entries.len() implies #[trigger] same_slot(mid_entries[i], pre_entries[i]) by {}
                }
                let locked_res = oid_array.get_mut(cur_rid).try_write();
                match locked_res {
                    Err(_) => {
                        proof {
                            assert(oid_array@[e] == old_oids[e]);
                            assert(oid_array@ =~= old_oids);
                            let es = self.entries@;
                            assert forall|i: int| 0 <= i < es.len() implies #[trigger] same_slot(es[i], old_entries[i]) by {
                                assert(same_slot(pre_entries[i], old_entries[i]));
                                assert(same_slot(mid_entries[i], pre_entries[i]));
                            }
                            assert forall|i: int| 0 <= i < es.len() implies #[trigger] entry_ok(es, oid_array@, i) by {
                                assert(entry_ok(pre_entries, oid_array@, i));
                                assert(same_slot(mid_entries[i], pre_entries[i]));
                            }
                            assert forall|q: int| 0 <= q < oid_array@.len() implies #[trigger] oid_ok(es, oid_array@, q) by {
                                assert(oid_ok(pre_entries, oid_array@, q));
                                if oid_array@[q].spec_is_cached() {
                                    let i = oid_array@[q].spec_cache_index() as int;
                                    assert(same_slot(mid_entries[i], pre_entries[i]));
                                }
                            }
                        }
                        proof {
                            if p + 1 <= lim {
                                assert(pre_entries[cur_index as int] == old_entries[probe_slot(h0, cap, p + 1)]);
                                assert(old_oids[e] == oid_array@[e]);
                            }
                            assert forall|k: int| p + 1 < k <= lim implies self.entries@[#[trigger] probe_slot(h0, cap, k)]
                                == old_entries[probe_slot(h0, cap, k)] by {
                                assert(probe_slot(h0, cap, k) != cur_index);
                            }
                        }
                        p += 1;
                        continue;
                    },
                    Ok(evict_guard) => {
                        let ghost locked = oid_array@;
                        proof {
                            lemma_payload_determines(locked[e].word(), old_oids[e].word());
                        }
                        evict_guard.store_rid(oid_array.get_mut(cur_rid), &cur_rid);
                        let mut slot = Some(new_node);
                        std::mem::swap(&mut self.entries[cur_index], &mut slot);
                        proof {
                            assert(oid_ok(pre_entries, old_oids, r_id));
                            lemma_index_fits(old_oids[r_id].word());
                        }
                        let lock = oid_array.get_mut(rid);
                        lock.store_index(cur_index);
                        proof {
                            let es = self.entries@;
                            let os = oid_array@;
                            assert(slot is Some);
                            assert(slot == mid_entries[cur_index as int]);
                            assert(same_slot(mid_entries[cur_index as int], pre_entries[cur_index as int]));
                            assert(same_slot(pre_entries[cur_index as int], old_entries[cur_index as int]));
                            assert(same_slot(slot, pre_entries[cur_index as int]));
                            assert(same_slot(slot, old_entries[cur_index as int]));
                            assert(os[r_id].spec_cache_index() == cur_index);
                            assert(e != r_id);
                            assert forall|i: int| 0 <= i < es.len() implies #[trigger] entry_ok(es, os, i) by {
                                if i != cur_index {
                                    assert(entry_ok(pre_entries, old_oids, i));
                                    assert(same_slot(es[i], pre_entries[i]));
                                    if es[i] is Some {
                                        let q = es[i].unwrap().spec_rid() as int;
                                        assert(q != r_id);
                                        assert(q != e);
                                        assert(os[q] == old_oids[q]);
                                    }
                                }
                            }
                            assert forall|q: int| 0 <= q < os.len() implies #[trigger] oid_ok(es, os, q) by {
                                assert(oid_ok(pre_entries, old_oids, q));
                                if q != r_id && q != e {
                                    assert(os[q] == old_oids[q]);
                                    if os[q].spec_is_cached() {
                                        let i = os[q].spec_cache_index() as int;
                                        assert(i != cur_index);
                                        assert(same_slot(es[i], pre_entries[i]));
                                    }
                                }
                            }
                            assert forall|j: int| 0 <= j < old_entries.len() && j != cur_index implies
                                #[trigger] same_slot(es[j], old_entries[j]) by {
                                assert(same_slot(pre_entries[j], old_entries[j]));
                            }
                        }
                        return Some((cur_index, Some((slot.unwrap(), evict_guard))));
                    },
                }
            }
        }
        proof {
            assert forall|k: int|
                1 <= k <= old(self).spec_probe_len() && k <= old(self).spec_capacity() implies !#[trigger] slot_free_now(
                old(self).spec_entries(),
                old(oid_array)@,
                probe_slot(old(self).hand_pos() as int, old(self).spec_capacity() as int, k),
            ) by {
                assert(k <= lim);
            }
        }
        None
    }

    /// Caches `val` as the cached part of record `rid`, whose lock must point at the record id:
    /// the probe always goes ahead, and caches the record whenever a slot it reaches can take
    /// it (see `probe_finds`); otherwise nothing changes. Returns the node it evicted, with its
    /// record's lock held.
    pub fn insert(&mut self, rid: Rid, val: F, oid_array: &mut OidArray) -> (r: Option<
        (ClockNode<F>, OidWriteGuard),
    >)
        requires
            old(self).wf(),
            old(oid_array).wf(),
            directory_ok(old(self).spec_entries(), old(oid_array)@),
            rid.id() < old(oid_array)@.len(),
            !old(oid_array)@[rid.id() as int].spec_is_cached(),
        ensures
            final(self).wf(),
            final(oid_array).wf(),
            final(self).spec_capacity() == old(self).spec_capacity(),
            final(self).spec_probe_len() == old(self).spec_probe_len(),
            final(oid_array).spec_capacity() == old(oid_array).spec_capacity(),
            final(oid_array)@.len() == old(oid_array)@.len(),
            directory_ok(final(self).spec_entries(), final(oid_array)@),
            final(oid_array)@[rid.id() as int].word() & LOCK_MASK == old(oid_array)@[rid.id() as int].word() & LOCK_MASK,
            final(oid_array)@[rid.id() as int].spec_is_cached() ==> final(self).spec_entries()[final(oid_array)@[rid.id() as int].spec_cache_index() as int].unwrap().spec_val() == val,
            probe_finds(*old(self), old(oid_array)@) ==> final(oid_array)@[rid.id() as int].spec_is_cached(),
            !final(oid_array)@[rid.id() as int].spec_is_cached() ==> final(oid_array)@ == old(oid_array)@
                && same_slots(final(self).spec_entries(), old(self).spec_entries()),
            r is None ==> forall|q: int| 0 <= q < old(oid_array)@.len() && q != rid.id() ==>
                #[trigger] final(oid_array)@[q] == old(oid_array)@[q],
            r is None ==> forall|i: int| 0 <= i < old(self).spec_capacity() && (old(self).spec_entries()[i] is Some) ==>
                #[trigger] same_slot(final(self).spec_entries()[i], old(self).spec_entries()[i]),
            r matches Some((old_node, g)) ==> {
                let e = old_node.spec_rid() as int;
                let i = old(oid_array)@[e].spec_cache_index() as int;
                &&& 0 <= e < old(oid_array)@.len()
                &&& e != rid.id()
                &&& !oid_locked(old(oid_array)@[e].word())
                &&& old(oid_array)@[e].spec_is_cached()
                &&& same_slot(Some(old_node), old(self).spec_entries()[i])
                &&& final(oid_array)@[e].word() & LOCK_MASK == LOCK_WRITER
                &&& !final(oid_array)@[e].spec_is_cached()
                &&& final(oid_array)@[e].spec_rid() == e
                &&& forall|q: int| 0 <= q < old(oid_array)@.len() && q != rid.id() && q != e ==>
                    #[trigger] final(oid_array)@[q] == old(oid_array)@[q]
                &&& forall|j: int| 0 <= j < old(self).spec_capacity() && j != i && (old(self).spec_entries()[j] is Some) ==>
                    #[trigger] same_slot(final(self).spec_entries()[j], old(self).spec_entries()[j])
            },
    {
        let clock_node = ClockNode::new(val, rid);
        let index = self.probe_and_replace_rng(clock_node, rid, oid_array, true);
        match index {
            Some((i, ev)) => {
                proof {
                    if ev is None {
                        assert forall|q: int| 0 <= q < old(oid_array)@.len() && q != rid.id() implies
                            #[trigger] oid_array@[q] == old(oid_array)@[q] by {}
                    }
                }
                ev
            },
            None => None,
        }
    }

    /// The node a record's lock points at, with its reference bit set when the draw `hit` (a
    /// draw with the cache's reference probability) came out true; or the record id, when the
    /// record is not cached.
    pub fn read<L: super::oid::OidGuard>(&mut self, oid: &L, lock: &LockedOid, hit: bool) -> (r: Result<&ClockNode<F>, Rid>)
        requires
            old(self).wf(),
            lock.spec_is_cached() ==> lock.spec_cache_index() < old(self).spec_capacity() && old(self).spec_entries()[lock.spec_cache_index() as int] is Some,
            !lock.spec_is_cached() ==> lock.spec_rid() != RID_SENTINEL,
        ensures
            final(self).wf(),
            final(self).spec_capacity() == old(self).spec_capacity(),
            final(self).spec_probe_len() == old(self).spec_probe_len(),
            same_slots(final(self).spec_entries(), old(self).spec_entries()),
            lock.spec_is_cached() ==> (r matches Ok(n) && Some(*n) == final(self).spec_entries()[lock.spec_cache_index() as int]),
            !lock.spec_is_cached() ==> (r matches Err(rid) && rid.id() == lock.spec_rid()),
    {
        if oid.is_cached(lock) {
            let i = oid.to_cache_index(lock);
            let entry = self.get_entry_mut(i);
            entry.set_ref(hit);
            proof {
                assert forall|j: int| 0 <= j < self.spec_entries().len() implies #[trigger] same_slot(self.spec_entries()[j], old(self).spec_entries()[j]) by {}
            }
            Ok(self.get_entry(i))
        } else {
            proof {
                assert forall|j: int| 0 <= j < self.spec_entries().len() implies #[trigger] same_slot(self.spec_entries()[j], old(self).spec_entries()[j]) by {}
            }
            Err(oid.to_rid(lock))
        }
    }
}

} // verus!

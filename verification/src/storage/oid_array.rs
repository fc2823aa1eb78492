use vstd::prelude::*;

use crate::attribute_cache::clock_cache::oid::{
    oid_locked, LockedOid, OidReadGuard, OidWriteGuard, LOCK_MASK, LOCK_WRITER, MAX_READER,
};
use crate::attribute_cache::{Rid, RID_SENTINEL};
use crate::error::TransactionError;

verus! {

broadcast use LockedOid::lemma_word_determines;

/// The locks of a table's records, one per record id, handed out in order.
pub struct OidArray {
    heap: Vec<LockedOid>,
    cap: usize,
}

impl View for OidArray {
    type V = Seq<LockedOid>;

    closed spec fn view(&self) -> Seq<LockedOid> {
        self.heap@
    }
}

impl OidArray {
    pub closed spec fn spec_capacity(&self) -> usize {
        self.cap
    }

    pub open spec fn wf(&self) -> bool {
        &&& self@.len() <= self.spec_capacity()
        &&& self.spec_capacity() < RID_SENTINEL
    }

    /// An array for at most `cap` records. Record ids are 32 bits wide, one value is the
    /// sentinel: `cap` stays below it.
    pub fn new(cap: usize) -> (r: Self)
        requires
            cap < RID_SENTINEL,
        ensures
            r.wf(),
            r@.len() == 0,
            r.spec_capacity() == cap,
    {
        Self { heap: Vec::new(), cap }
    }

    /// To reset the oid to 0, this is for benchmark only
    pub fn reset(&mut self)
        ensures
            final(self)@.len() == 0,
            final(self).spec_capacity() == old(self).spec_capacity(),
    {
        self.heap.clear();
    }

    pub fn capacity(&self) -> (r: usize)
        ensures
            r == self.spec_capacity(),
    {
        self.cap
    }

    /// The number of record ids handed out.
    pub fn len(&self) -> (r: usize)
        ensures
            r == self@.len(),
    {
        self.heap.len()
    }

    pub fn get_sync(&self, rid: Rid) -> (r: &LockedOid)
        requires
            rid.id() < self@.len(),
        ensures
            *r == self@[rid.id() as int],
    {
        &self.heap[rid.as_u32() as usize]
    }

    /// The lock of a record, to change by a method of the lock.
    pub fn get_mut(&mut self, rid: Rid) -> (r: &mut LockedOid)
        requires
            rid.id() < old(self)@.len(),
        ensures
            *r == old(self)@[rid.id() as int],
            final(self)@ == old(self)@.update(rid.id() as int, *final(r)),
            final(self).spec_capacity() == old(self).spec_capacity(),
    {
        let idx = rid.as_u32() as usize;
        &mut self.heap[idx]
    }

    /// Hands out the next record id; its lock comes write-locked and pointing at the record
    /// id. Panics when the array is full, so it asks for room.
    pub fn alloc_rid(&mut self) -> (r: (Rid, OidWriteGuard))
        requires
            old(self).wf(),
            old(self)@.len() < old(self).spec_capacity(),
        ensures
            final(self).wf(),
            final(self).spec_capacity() == old(self).spec_capacity(),
            r.0.id() == old(self)@.len(),
            final(self)@.len() == old(self)@.len() + 1,
            final(self)@.subrange(0, old(self)@.len() as int) == old(self)@,
            final(self)@.last().word() == LOCK_WRITER | r.0.id() as u64,
            final(self)@.last().word() & LOCK_MASK == LOCK_WRITER,
            !final(self)@.last().spec_is_cached(),
            final(self)@.last().spec_rid() == r.0.id(),
            final(self)@.last().word() & 0x0000_ffff_0000_0000u64 == 0,
    {
        let oid = LockedOid::from_rid(Rid::from_u32(0));
        let idx = self.heap.len();
        self.heap.push(oid);
        let rid = Rid::from_u32(idx as u32);
        let lock = self.get_mut(rid);
        let ghost w0 = lock.word();
        let write_guard = lock.write();
        let ghost w1 = lock.word();
        write_guard.store_rid(lock, &rid);
        proof {
            let w = self@.last().word();
            let id = idx as u64;
            assert(w == ((w1 & !0x0000_0000_ffff_ffffu64) & !0x00ff_0000_0000_0000u64) | id);
            assert(w == 0x8000_0000_0000_0000u64 | id && w & 0xff00_0000_0000_0000u64
                == 0x8000_0000_0000_0000u64 && w & 0x0000_ffff_0000_0000u64 == 0) by (bit_vector)
                requires
                    id < 0xffff_ffffu64,
                    w0 == 0,
                    w1 == w0 | 0x8000_0000_0000_0000u64,
                    w == ((w1 & !0x0000_0000_ffff_ffffu64) & !0x00ff_0000_0000_0000u64) | id,
            ;
            assert(self@.subrange(0, idx as int) =~= old(self)@);
        }
        (rid, write_guard)
    }
}

/// Record ids are never given out twice: over a run of `alloc_rid` calls on one array, call
/// `i` finding the array `lens[i]` records long and giving out `ids[i]`, which is that length
/// (as `alloc_rid` states), while no step between two calls shortens the array below where
/// the earlier call left it (one longer, as `alloc_rid` states), no two calls give out the
/// same record id.
pub proof fn lemma_alloc_rids_distinct(lens: Seq<nat>, ids: Seq<Rid>)
    requires
        ids.len() == lens.len(),
        forall|i: int| 0 <= i < ids.len() ==> (#[trigger] ids[i]).id() == lens[i],
        forall|i: int| 0 <= i < lens.len() - 1 ==> #[trigger] lens[i + 1] >= lens[i] + 1,
    ensures
        forall|i: int, j: int| 0 <= i < j < ids.len() ==> ids[i] != ids[j],
{
    assert forall|i: int, j: int| 0 <= i < j < ids.len() implies ids[i] != ids[j] by {
        lemma_lens_grow(lens, i, j);
        assert(ids[i].id() == lens[i]);
        assert(ids[j].id() == lens[j]);
    }
}

proof fn lemma_lens_grow(lens: Seq<nat>, i: int, j: int)
    requires
        0 <= i < j < lens.len(),
        forall|k: int| 0 <= k < lens.len() - 1 ==> #[trigger] lens[k + 1] >= lens[k] + 1,
    ensures
        lens[i] < lens[j],
    decreases j - i,
{
    let k = j - 1;
    assert(lens[k + 1] >= lens[k] + 1);
    if i < j - 1 {
        lemma_lens_grow(lens, i, j - 1);
    }
}
} // verus!

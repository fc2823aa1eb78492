use vstd::prelude::*;

use crate::attribute_cache::{Rid, RID_SENTINEL};
use crate::error::TransactionError;

verus! {

// Layout of the lock word, from the most significant bit:
//   bit 63          write lock
//   bits 56..=62    read lock count
//   bits 48..=55    cached marker (all set: the id is a cache index)
//   bits 0..=31     id (cache index or record id)
/// high 8 bits
pub const LOCK_MASK: u64 = 0xff00_0000_0000_0000;
/// highest bit
pub const LOCK_WRITER: u64 = 0x8000_0000_0000_0000;
/// lowest lock bit
pub const LOCK_READER: u64 = 0x0100_0000_0000_0000;
pub const MAX_READER: u64 = 0x7f;
pub const IS_CACHED: u64 = 0x00ff_0000_0000_0000;
pub const ID_MASK: u64 = 0x0000_0000_ffff_ffff;

pub open spec fn oid_write_locked(w: u64) -> bool {
    w & 0x8000_0000_0000_0000u64 != 0
}

/// The lock byte counted in readers (the writer bit counts as 128 readers).
pub open spec fn oid_read_cnt(w: u64) -> u64 {
    (w & 0xff00_0000_0000_0000u64) / 0x0100_0000_0000_0000u64
}

pub open spec fn oid_locked(w: u64) -> bool {
    w & 0xff00_0000_0000_0000u64 != 0
}

pub open spec fn oid_is_cached(w: u64) -> bool {
    w & 0x00ff_0000_0000_0000u64 != 0
}

/// Everything below the lock byte, without the cached marker.
pub open spec fn oid_cache_index(w: u64) -> u64 {
    (w & !0xff00_0000_0000_0000u64) & !0x00ff_0000_0000_0000u64
}

pub open spec fn oid_rid(w: u64) -> u32 {
    ((w & !0xff00_0000_0000_0000u64) & 0x0000_0000_ffff_ffffu64) as u32
}

/// Everything but the lock byte.
pub open spec fn oid_payload(w: u64) -> u64 {
    w & !0xff00_0000_0000_0000u64
}

/// The bits between the id and the cached marker, which no operation sets.
pub open spec fn oid_spare(w: u64) -> u64 {
    w & 0x0000_ffff_0000_0000u64
}

/// What a lock points at depends on its payload alone.
pub proof fn lemma_payload_determines(a: u64, b: u64)
    requires
        oid_payload(a) == oid_payload(b),
    ensures
        oid_is_cached(a) == oid_is_cached(b),
        oid_cache_index(a) == oid_cache_index(b),
        oid_rid(a) == oid_rid(b),
        oid_spare(a) == oid_spare(b),
{
    assert((a & 0x00ff_0000_0000_0000u64 != 0) == (b & 0x00ff_0000_0000_0000u64 != 0) && (a
        & !0xff00_0000_0000_0000u64) & !0x00ff_0000_0000_0000u64 == (b
        & !0xff00_0000_0000_0000u64) & !0x00ff_0000_0000_0000u64 && a & 0x0000_ffff_0000_0000u64
        == b & 0x0000_ffff_0000_0000u64) by (bit_vector)
        requires
            a & !0xff00_0000_0000_0000u64 == b & !0xff00_0000_0000_0000u64,
    ;
}

/// With no spare bits, the cache index of a word that points at a cache slot is its id.
pub proof fn lemma_index_fits(w: u64)
    requires
        oid_spare(w) == 0,
    ensures
        oid_cache_index(w) <= ID_MASK,
        oid_cache_index(w) == (w & ID_MASK),
{
    assert((w & !0xff00_0000_0000_0000u64) & !0x00ff_0000_0000_0000u64 <= 0xffff_ffffu64 && (w
        & !0xff00_0000_0000_0000u64) & !0x00ff_0000_0000_0000u64 == w & 0xffff_ffffu64)
        by (bit_vector)
        requires
            w & 0x0000_ffff_0000_0000u64 == 0,
    ;
}

/// A lock taken and given back is as it was: `try_write` then `write_unlock` on an unlocked
/// word, and `try_read` then `read_unlock` on a word that is not write-locked.
/// How the lock byte reads: a word is unlocked exactly when it has no reader and no writer;
/// a word whose lock byte is the writer's is locked and not readable; two words with the
/// same lock byte are alike locked or not.
pub proof fn lemma_lock_byte(w: u64, v: u64)
    ensures
        !oid_locked(w) <==> (oid_read_cnt(w) == 0 && !oid_write_locked(w)),
        w & LOCK_MASK == LOCK_WRITER ==> oid_locked(w) && oid_write_locked(w),
        w & LOCK_MASK == v & LOCK_MASK ==> (oid_locked(w) <==> oid_locked(v)),
        !oid_locked(w) ==> oid_read_cnt(w) + 1 < MAX_READER,
{
    assert((w & 0xff00_0000_0000_0000u64 == 0) <==> ((w & 0xff00_0000_0000_0000u64)
        / 0x0100_0000_0000_0000u64 == 0 && w & 0x8000_0000_0000_0000u64 == 0)) by (bit_vector);
    assert(w & 0xff00_0000_0000_0000u64 == 0x8000_0000_0000_0000u64 ==> w
        & 0x8000_0000_0000_0000u64 != 0) by (bit_vector);
}

pub proof fn lemma_lock_then_unlock_restores(w: u64)
    ensures
        !oid_locked(w) ==> (w | LOCK_WRITER) & LOCK_MASK == LOCK_WRITER && ((w | LOCK_WRITER)
            - LOCK_WRITER) as u64 == w,
        !oid_write_locked(w) && oid_read_cnt(w) + 1 < MAX_READER ==> w + LOCK_READER <= u64::MAX
            && ((w + LOCK_READER) - LOCK_READER) as u64 == w,
{
    assert(!oid_locked(w) ==> (w | 0x8000_0000_0000_0000u64) & 0xff00_0000_0000_0000u64
        == 0x8000_0000_0000_0000u64 && ((w | 0x8000_0000_0000_0000u64) - 0x8000_0000_0000_0000u64)
        as u64 == w) by (bit_vector);
    assert(!oid_write_locked(w) && (w & 0xff00_0000_0000_0000u64) / 0x0100_0000_0000_0000u64 + 1
        < 0x7f ==> w + 0x0100_0000_0000_0000u64 <= 0xffff_ffff_ffff_ffffu64) by (bit_vector);
}

/// The lock that guards one record, together with where the record lives: in the cache
/// (an index into the cache entries) or only in the table storage (a record id).
pub struct LockedOid {
    data: u64,
}

impl LockedOid {
    pub closed spec fn word(&self) -> u64 {
        self.data
    }

    /// A lock is its word.
    pub broadcast proof fn lemma_word_determines(a: LockedOid, b: LockedOid)
        requires
            #[trigger] a.word() == #[trigger] b.word(),
        ensures
            a == b,
    {
    }

    pub open spec fn spec_write_locked(&self) -> bool {
        oid_write_locked(self.word())
    }

    pub open spec fn spec_read_cnt(&self) -> u64 {
        oid_read_cnt(self.word())
    }

    pub open spec fn spec_is_cached(&self) -> bool {
        oid_is_cached(self.word())
    }

    pub open spec fn spec_cache_index(&self) -> u64 {
        oid_cache_index(self.word())
    }

    pub open spec fn spec_rid(&self) -> u32 {
        oid_rid(self.word())
    }

    pub open spec fn spec_payload(&self) -> u64 {
        oid_payload(self.word())
    }

    /// Unlocked, and no reader count that would run into the writer bit.
    pub open spec fn can_read_lock(&self) -> bool {
        !self.spec_write_locked() && self.spec_read_cnt() + 1 < MAX_READER
    }

    pub fn from_rid(idx: Rid) -> (r: Self)
        ensures
            r.word() == idx.id() as u64,
            !r.spec_is_cached(),
            r.spec_rid() == idx.id(),
            r.spec_read_cnt() == 0,
            !r.spec_write_locked(),
            !oid_locked(r.word()),
            r.word() & 0x0000_ffff_0000_0000u64 == 0,
    {
        let w: u64 = idx.as_u32() as u64;
        proof {
            lemma_small_word(w);
        }
        Self { data: w }
    }

    pub fn from_cache(index: usize) -> (r: Self)
        requires
            index as u64 & IS_CACHED == 0,
        ensures
            r.word() == index as u64 | IS_CACHED,
            r.spec_is_cached(),
            index < 0x0100_0000_0000_0000 ==> r.spec_read_cnt() == 0,
            index < 0x0100_0000_0000_0000 ==> !r.spec_write_locked(),
            index < 0x0100_0000_0000_0000 ==> r.spec_cache_index() == index,
    {
        let i: u64 = index as u64;
        let w: u64 = i | IS_CACHED;
        proof {
            assert(w & 0x00ff_0000_0000_0000u64 != 0 && (w & 0xff00_0000_0000_0000u64)
                / 0x0100_0000_0000_0000u64 == (i & 0xff00_0000_0000_0000u64)
                / 0x0100_0000_0000_0000u64 && (w & 0x8000_0000_0000_0000u64 != 0) == (i
                & 0x8000_0000_0000_0000u64 != 0) && (i < 0x0100_0000_0000_0000u64 ==> (w
                & !0xff00_0000_0000_0000u64) & !0x00ff_0000_0000_0000u64 == i)) by (bit_vector)
                requires
                    w == i | 0x00ff_0000_0000_0000u64,
                    i & 0x00ff_0000_0000_0000u64 == 0,
            ;
            assert(i < 0x0100_0000_0000_0000u64 ==> (i & 0xff00_0000_0000_0000u64)
                / 0x0100_0000_0000_0000u64 == 0 && i & 0x8000_0000_0000_0000u64 == 0)
                by (bit_vector);
        }
        Self { data: w }
    }

    /// Takes a read lock unless the lock is write-locked.
    pub fn try_read(&mut self) -> (r: Result<OidReadGuard, TransactionError>)
        requires
            !old(self).spec_write_locked() ==> old(self).spec_read_cnt() + 1 < MAX_READER,
        ensures
            r is Err <==> old(self).spec_write_locked(),
            r matches Err(e) ==> e == TransactionError::ReadLockBusy,
            r is Err ==> final(self).word() == old(self).word(),
            r is Ok ==> final(self).word() == old(self).word() + LOCK_READER,
            r is Ok ==> final(self).spec_read_cnt() == old(self).spec_read_cnt() + 1,
            r is Ok ==> !final(self).spec_write_locked(),
            final(self).spec_payload() == old(self).spec_payload(),
    {
        let val = self.data;
        let write_locked = (val & LOCK_WRITER) != 0;
        if write_locked {
            return Err(TransactionError::ReadLockBusy);
        }
        proof {
            lemma_add_reader(val);
        }
        self.data = val.wrapping_add(LOCK_READER);
        Ok(OidReadGuard::new(self))
    }

    /// Blocking read lock. With no other party to release a write lock, it returns at once
    /// on a lock that is not write-locked and never returns on one that is.
    pub fn read(&mut self) -> (r: OidReadGuard)
        requires
            old(self).can_read_lock(),
        ensures
            final(self).word() == old(self).word() + LOCK_READER,
            final(self).spec_read_cnt() == old(self).spec_read_cnt() + 1,
            !final(self).spec_write_locked(),
            final(self).spec_payload() == old(self).spec_payload(),
    {
        match self.try_read() {
            Ok(g) => g,
            Err(_) => {
                proof {
                    assert(false);
                }
                OidReadGuard::new(self)
            },
        }
    }

    pub fn read_unlock(&mut self)
        requires
            !old(self).spec_write_locked(),
            old(self).spec_read_cnt() > 0,
        ensures
            final(self).word() == old(self).word() - LOCK_READER,
            final(self).spec_read_cnt() == old(self).spec_read_cnt() - 1,
            !final(self).spec_write_locked(),
            final(self).spec_payload() == old(self).spec_payload(),
    {
        let val = self.data;
        proof {
            lemma_remove_reader(val);
        }
        self.data = val - LOCK_READER;
    }

    /// Takes the write lock unless any lock is held.
    pub fn try_write(&mut self) -> (r: Result<OidWriteGuard, TransactionError>)
        ensures
            r is Err <==> oid_locked(old(self).word()),
            r matches Err(e) ==> e == TransactionError::WriteLockBusy,
            r is Err ==> final(self).word() == old(self).word(),
            r is Ok ==> final(self).word() == old(self).word() | LOCK_WRITER,
            r is Ok ==> final(self).spec_write_locked(),
            r is Ok ==> final(self).word() & LOCK_MASK == LOCK_WRITER,
            final(self).spec_payload() == old(self).spec_payload(),
    {
        let val = self.data;
        let has_lock = (val & LOCK_MASK) != 0;
        if has_lock {
            return Err(TransactionError::WriteLockBusy);
        }
        proof {
            lemma_add_writer(val);
        }
        self.data = val | LOCK_WRITER;
        Ok(OidWriteGuard::new(self))
    }

    /// Blocking write lock. With no other party to release a lock, it returns at once on an
    /// unlocked lock and never returns on a locked one.
    pub fn write(&mut self) -> (r: OidWriteGuard)
        requires
            !oid_locked(old(self).word()),
        ensures
            final(self).word() == old(self).word() | LOCK_WRITER,
            final(self).spec_write_locked(),
            final(self).word() & LOCK_MASK == LOCK_WRITER,
            final(self).spec_payload() == old(self).spec_payload(),
    {
        match self.try_write() {
            Ok(g) => g,
            Err(_) => {
                proof {
                    assert(false);
                }
                OidWriteGuard::new(self)
            },
        }
    }

    pub fn write_unlock(&mut self)
        requires
            old(self).word() & LOCK_MASK == LOCK_WRITER,
        ensures
            final(self).word() == old(self).word() - LOCK_WRITER,
            !oid_locked(final(self).word()),
            final(self).spec_payload() == old(self).spec_payload(),
    {
        let val = self.data;
        proof {
            lemma_remove_writer(val);
        }
        self.data = val - LOCK_WRITER;
    }

    pub fn write_locked(&self) -> (r: bool)
        ensures
            r == self.spec_write_locked(),
    {
        let val = self.data;
        (val & LOCK_WRITER) != 0
    }

    pub fn read_lock_cnt(&self) -> (r: usize)
        ensures
            r == self.spec_read_cnt(),
    {
        let val = self.data;
        assert((val & 0xff00_0000_0000_0000u64) / 0x0100_0000_0000_0000u64 < 256) by (bit_vector);
        ((val & LOCK_MASK) / LOCK_READER) as usize
    }

    pub fn is_cached(&self) -> (r: bool)
        ensures
            r == self.spec_is_cached(),
    {
        self.data & IS_CACHED != 0
    }

    pub fn is_rid(&self) -> (r: bool)
        ensures
            r == !self.spec_is_cached(),
    {
        !self.is_cached()
    }

    /// The cache index the lock points at.
    pub fn to_cache_index(&self) -> (r: usize)
        requires
            self.spec_is_cached(),
        ensures
            r == self.spec_cache_index() as usize,
    {
        let mut data = self.data & !LOCK_MASK;
        data = data & !IS_CACHED;
        data as usize
    }

    /// The record id the lock points at.
    pub fn to_rid(&self) -> (r: Rid)
        requires
            !self.spec_is_cached(),
            self.spec_rid() != RID_SENTINEL,
        ensures
            r.id() == self.spec_rid(),
    {
        let data = self.data & !LOCK_MASK;
        Rid::from_u32((data & ID_MASK) as u32)
    }

    /// Points the lock at a record id, keeping the lock byte.
    pub fn store_rid(&mut self, rid: &Rid)
        ensures
            final(self).word() == ((old(self).word() & !ID_MASK) & !IS_CACHED) | rid.id() as u64,
            final(self).word() & LOCK_MASK == old(self).word() & LOCK_MASK,
            !final(self).spec_is_cached(),
            final(self).spec_rid() == rid.id(),
            oid_spare(final(self).word()) == oid_spare(old(self).word()),
    {
        let w = self.data;
        let mut data = self.data & !ID_MASK;
        data = data & !IS_CACHED;
        let id: u64 = rid.as_u32() as u64;
        data = data | id;
        proof {
            lemma_store_rid(w, id, data);
        }
        self.data = data;
    }

    /// Points the lock at a cache index, keeping the lock byte.
    pub fn store_index(&mut self, new: usize)
        ensures
            final(self).word() == ((old(self).word() & !ID_MASK) | IS_CACHED) | new as u64,
            new as u64 <= ID_MASK ==> final(self).word() & LOCK_MASK == old(self).word()
                & LOCK_MASK,
            new as u64 <= ID_MASK ==> final(self).spec_is_cached(),
            new as u64 <= ID_MASK ==> final(self).spec_cache_index() == (old(self).word()
                & 0x0000_ffff_0000_0000u64) | new as u64,
            new as u64 <= ID_MASK ==> oid_spare(final(self).word()) == oid_spare(old(self).word()),
            new as u64 <= ID_MASK && oid_spare(old(self).word()) == 0 ==> final(self).spec_cache_index() == new,
    {
        let w = self.data;
        let mut data = self.data & !ID_MASK;
        data = data | IS_CACHED;
        let n: u64 = new as u64;
        data = data | n;
        proof {
            lemma_store_index(w, n, data);
        }
        self.data = data;
    }
}

proof fn lemma_small_word(w: u64)
    requires
        w <= 0xffff_ffff,
    ensures
        !oid_is_cached(w),
        oid_rid(w) == w as u32,
        oid_read_cnt(w) == 0,
        !oid_write_locked(w),
        !oid_locked(w),
        oid_payload(w) == w,
        w & 0x0000_ffff_0000_0000u64 == 0,
{
    assert(w & 0x00ff_0000_0000_0000u64 == 0 && ((w & !0xff00_0000_0000_0000u64)
        & 0x0000_0000_ffff_ffffu64) as u32 == w as u32 && (w & 0xff00_0000_0000_0000u64)
        / 0x0100_0000_0000_0000u64 == 0 && w & 0x8000_0000_0000_0000u64 == 0 && w
        & 0xff00_0000_0000_0000u64 == 0 && w & !0xff00_0000_0000_0000u64 == w && w
        & 0x0000_ffff_0000_0000u64 == 0) by (bit_vector)
        requires
            w <= 0xffff_ffffu64,
    ;
}

proof fn lemma_add_reader(val: u64)
    requires
        !oid_write_locked(val),
        oid_read_cnt(val) + 1 < MAX_READER,
    ensures
        val + LOCK_READER <= u64::MAX,
        val.wrapping_add(LOCK_READER) == val + LOCK_READER,
        oid_read_cnt((val + LOCK_READER) as u64) == oid_read_cnt(val) + 1,
        !oid_write_locked((val + LOCK_READER) as u64),
        oid_payload((val + LOCK_READER) as u64) == oid_payload(val),
{
    assert(val + 0x0100_0000_0000_0000u64 <= 0xffff_ffff_ffff_ffffu64 && val.wrapping_add(
        0x0100_0000_0000_0000u64,
    ) == (val + 0x0100_0000_0000_0000u64) as u64 && ((((val + 0x0100_0000_0000_0000u64) as u64)
        & 0xff00_0000_0000_0000u64) / 0x0100_0000_0000_0000u64) == ((val
        & 0xff00_0000_0000_0000u64) / 0x0100_0000_0000_0000u64) + 1 && ((val
        + 0x0100_0000_0000_0000u64) as u64) & 0x8000_0000_0000_0000u64 == 0 && ((val
        + 0x0100_0000_0000_0000u64) as u64) & !0xff00_0000_0000_0000u64 == val
        & !0xff00_0000_0000_0000u64) by (bit_vector)
        requires
            val & 0x8000_0000_0000_0000u64 == 0,
            (val & 0xff00_0000_0000_0000u64) / 0x0100_0000_0000_0000u64 + 1 < 0x7fu64,
    ;
}

proof fn lemma_remove_reader(val: u64)
    requires
        !oid_write_locked(val),
        oid_read_cnt(val) > 0,
    ensures
        val >= LOCK_READER,
        oid_read_cnt((val - LOCK_READER) as u64) == oid_read_cnt(val) - 1,
        !oid_write_locked((val - LOCK_READER) as u64),
        oid_payload((val - LOCK_READER) as u64) == oid_payload(val),
{
    assert(val >= 0x0100_0000_0000_0000u64 && ((((val - 0x0100_0000_0000_0000u64) as u64)
        & 0xff00_0000_0000_0000u64) / 0x0100_0000_0000_0000u64) == ((val
        & 0xff00_0000_0000_0000u64) / 0x0100_0000_0000_0000u64) - 1 && ((val
        - 0x0100_0000_0000_0000u64) as u64) & 0x8000_0000_0000_0000u64 == 0 && ((val
        - 0x0100_0000_0000_0000u64) as u64) & !0xff00_0000_0000_0000u64 == val
        & !0xff00_0000_0000_0000u64) by (bit_vector)
        requires
            val & 0x8000_0000_0000_0000u64 == 0,
            (val & 0xff00_0000_0000_0000u64) / 0x0100_0000_0000_0000u64 > 0,
    ;
}

proof fn lemma_add_writer(val: u64)
    requires
        !oid_locked(val),
    ensures
        oid_write_locked(val | LOCK_WRITER),
        (val | LOCK_WRITER) & LOCK_MASK == LOCK_WRITER,
        oid_payload(val | LOCK_WRITER) == oid_payload(val),
{
    assert((val | 0x8000_0000_0000_0000u64) & 0x8000_0000_0000_0000u64 != 0 && (val
        | 0x8000_0000_0000_0000u64) & 0xff00_0000_0000_0000u64 == 0x8000_0000_0000_0000u64 && (val
        | 0x8000_0000_0000_0000u64) & !0xff00_0000_0000_0000u64 == val & !0xff00_0000_0000_0000u64)
        by (bit_vector)
        requires
            val & 0xff00_0000_0000_0000u64 == 0,
    ;
}

proof fn lemma_remove_writer(val: u64)
    requires
        val & LOCK_MASK == LOCK_WRITER,
    ensures
        val >= LOCK_WRITER,
        !oid_locked((val - LOCK_WRITER) as u64),
        oid_payload((val - LOCK_WRITER) as u64) == oid_payload(val),
{
    assert(val >= 0x8000_0000_0000_0000u64 && ((val - 0x8000_0000_0000_0000u64) as u64)
        & 0xff00_0000_0000_0000u64 == 0 && ((val - 0x8000_0000_0000_0000u64) as u64)
        & !0xff00_0000_0000_0000u64 == val & !0xff00_0000_0000_0000u64) by (bit_vector)
        requires
            val & 0xff00_0000_0000_0000u64 == 0x8000_0000_0000_0000u64,
    ;
}

proof fn lemma_store_rid(w: u64, id: u64, data: u64)
    requires
        id <= 0xffff_ffff,
        data == ((w & !ID_MASK) & !IS_CACHED) | id,
    ensures
        data & LOCK_MASK == w & LOCK_MASK,
        !oid_is_cached(data),
        oid_rid(data) == id as u32,
        oid_spare(data) == oid_spare(w),
{
    assert(data & 0xff00_0000_0000_0000u64 == w & 0xff00_0000_0000_0000u64 && data
        & 0x00ff_0000_0000_0000u64 == 0 && ((data & !0xff00_0000_0000_0000u64)
        & 0x0000_0000_ffff_ffffu64) as u32 == id as u32 && data & 0x0000_ffff_0000_0000u64 == w
        & 0x0000_ffff_0000_0000u64) by (bit_vector)
        requires
            id <= 0xffff_ffffu64,
            data == ((w & !0x0000_0000_ffff_ffffu64) & !0x00ff_0000_0000_0000u64) | id,
    ;
}

proof fn lemma_store_index(w: u64, n: u64, data: u64)
    requires
        data == ((w & !ID_MASK) | IS_CACHED) | n,
    ensures
        n <= ID_MASK ==> data & LOCK_MASK == w & LOCK_MASK,
        n <= ID_MASK ==> oid_is_cached(data),
        n <= ID_MASK ==> oid_cache_index(data) == (w & 0x0000_ffff_0000_0000u64) | n,
        n <= ID_MASK ==> oid_spare(data) == oid_spare(w),
        n <= ID_MASK && oid_spare(w) == 0 ==> oid_cache_index(data) == n,
{
    assert(n <= 0x0000_0000_ffff_ffffu64 && w & 0x0000_ffff_0000_0000u64 == 0 ==> (w & 0x0000_ffff_0000_0000u64) | n == n) by (bit_vector);
    assert(n <= 0x0000_0000_ffff_ffffu64 ==> (data & 0xff00_0000_0000_0000u64 == w
        & 0xff00_0000_0000_0000u64 && data & 0x00ff_0000_0000_0000u64 != 0 && (data
        & !0xff00_0000_0000_0000u64) & !0x00ff_0000_0000_0000u64 == (w & 0x0000_ffff_0000_0000u64)
        | n && data & 0x0000_ffff_0000_0000u64 == w & 0x0000_ffff_0000_0000u64)) by (bit_vector)
        requires
            data == ((w & !0x0000_0000_ffff_ffffu64) | 0x00ff_0000_0000_0000u64) | n,
    ;
}

/// Held read lock.
#[must_use]
pub struct OidReadGuard {
    _held: (),
}

impl OidReadGuard {
    pub fn new(lock: &LockedOid) -> Self {
        OidReadGuard { _held: () }
    }

    /// The lock the guard holds.
    pub fn raw_oid<'a>(&self, lock: &'a LockedOid) -> (r: &'a LockedOid)
        ensures
            *r == *lock,
    {
        lock
    }

    pub fn to_cache_index(&self, lock: &LockedOid) -> (r: usize)
        requires
            lock.spec_is_cached(),
        ensures
            r == lock.spec_cache_index() as usize,
    {
        lock.to_cache_index()
    }

    pub fn get_index(&self, lock: &LockedOid) -> (r: usize)
        requires
            lock.spec_is_cached(),
        ensures
            r == lock.spec_cache_index() as usize,
    {
        let mut data = lock.data & !LOCK_MASK;
        data = data & !IS_CACHED;
        data as usize
    }

    /// Gives the read lock back.
    pub fn release(self, lock: &mut LockedOid)
        requires
            !old(lock).spec_write_locked(),
            old(lock).spec_read_cnt() > 0,
        ensures
            final(lock).word() == old(lock).word() - LOCK_READER,
            final(lock).spec_read_cnt() == old(lock).spec_read_cnt() - 1,
            !final(lock).spec_write_locked(),
            final(lock).spec_payload() == old(lock).spec_payload(),
    {
        lock.read_unlock();
    }
}

/// Held write lock.
#[must_use]
pub struct OidWriteGuard {
    _held: (),
}

impl OidWriteGuard {
    pub fn new(lock: &LockedOid) -> Self {
        OidWriteGuard { _held: () }
    }

    /// The lock the guard holds.
    pub fn raw_oid<'a>(&self, lock: &'a LockedOid) -> (r: &'a LockedOid)
        ensures
            *r == *lock,
    {
        lock
    }

    pub fn to_cached(&self, lock: &LockedOid) -> (r: usize)
        requires
            lock.spec_is_cached(),
        ensures
            r == lock.spec_cache_index() as usize,
    {
        lock.to_cache_index()
    }

    pub fn store_rid(&self, lock: &mut LockedOid, rid: &Rid)
        ensures
            final(lock).word() == ((old(lock).word() & !ID_MASK) & !IS_CACHED) | rid.id() as u64,
            final(lock).word() & LOCK_MASK == old(lock).word() & LOCK_MASK,
            !final(lock).spec_is_cached(),
            final(lock).spec_rid() == rid.id(),
            oid_spare(final(lock).word()) == oid_spare(old(lock).word()),
    {
        lock.store_rid(rid)
    }

    pub fn store_index(&mut self, lock: &mut LockedOid, new: usize)
        ensures
            final(lock).word() == ((old(lock).word() & !ID_MASK) | IS_CACHED) | new as u64,
            new as u64 <= ID_MASK ==> final(lock).word() & LOCK_MASK == old(lock).word()
                & LOCK_MASK,
            new as u64 <= ID_MASK ==> final(lock).spec_is_cached(),
            new as u64 <= ID_MASK ==> final(lock).spec_cache_index() == (old(lock).word()
                & 0x0000_ffff_0000_0000u64) | new as u64,
            new as u64 <= ID_MASK ==> oid_spare(final(lock).word()) == oid_spare(old(lock).word()),
            new as u64 <= ID_MASK && oid_spare(old(lock).word()) == 0 ==> final(lock).spec_cache_index() == new,
    {
        lock.store_index(new)
    }

    /// Gives the write lock back.
    pub fn release(self, lock: &mut LockedOid)
        requires
            old(lock).word() & LOCK_MASK == LOCK_WRITER,
        ensures
            final(lock).word() == old(lock).word() - LOCK_WRITER,
            !oid_locked(final(lock).word()),
            final(lock).spec_payload() == old(lock).spec_payload(),
    {
        lock.write_unlock();
    }
}

/// What both kinds of lock guard offer; each method is handed the lock the guard holds.
pub trait OidGuard: Sized {
    /// Whether the guard's kind of lock is held on a lock word.
    spec fn holds(w: u64) -> bool;

    fn is_cached(&self, lock: &LockedOid) -> (r: bool)
        ensures
            r == lock.spec_is_cached(),
    ;

    fn to_cache_index(&self, lock: &LockedOid) -> (r: usize)
        requires
            lock.spec_is_cached(),
        ensures
            r == lock.spec_cache_index() as usize,
    ;

    fn to_rid(&self, lock: &LockedOid) -> (r: Rid)
        requires
            !lock.spec_is_cached(),
            lock.spec_rid() != RID_SENTINEL,
        ensures
            r.id() == lock.spec_rid(),
    ;

    fn is_rid(&self, lock: &LockedOid) -> (r: bool)
        ensures
            r == !lock.spec_is_cached(),
    ;

    /// Upgrading a lock is always non-blocking to prevent deadlock.
    /// Returning error means that someone is also reading.
    fn upgrade(self, lock: &mut LockedOid) -> (r: Result<OidWriteGuard, OidReadGuard>)
        requires
            Self::holds(old(lock).word()),
        ensures
            r is Ok ==> final(lock).word() & LOCK_MASK == LOCK_WRITER,
            r is Ok ==> final(lock).spec_payload() == old(lock).spec_payload(),
            r is Err ==> final(lock).word() == old(lock).word(),
    ;
}

impl OidGuard for OidReadGuard {
    open spec fn holds(w: u64) -> bool {
        !oid_write_locked(w) && oid_read_cnt(w) > 0
    }

    fn is_cached(&self, lock: &LockedOid) -> (r: bool) {
        lock.is_cached()
    }

    fn to_cache_index(&self, lock: &LockedOid) -> (r: usize) {
        lock.to_cache_index()
    }

    fn to_rid(&self, lock: &LockedOid) -> (r: Rid) {
        lock.to_rid()
    }

    fn is_rid(&self, lock: &LockedOid) -> (r: bool) {
        lock.is_rid()
    }

    /// Succeeds exactly when this is the only reader.
    fn upgrade(self, lock: &mut LockedOid) -> (r: Result<OidWriteGuard, OidReadGuard>)
        ensures
            r is Ok <==> old(lock).spec_read_cnt() <= 1,
    {
        let val = lock.data;
        let read_locked_cnt = (val & LOCK_MASK) / LOCK_READER;
        if read_locked_cnt > 1 {
            return Err(self);
        }
        let write_lock = (val & !LOCK_MASK) | LOCK_WRITER;
        proof {
            assert((write_lock & 0xff00_0000_0000_0000u64 == 0x8000_0000_0000_0000u64) && (
            write_lock & !0xff00_0000_0000_0000u64 == val & !0xff00_0000_0000_0000u64))
                by (bit_vector)
                requires
                    write_lock == (val & !0xff00_0000_0000_0000u64) | 0x8000_0000_0000_0000u64,
            ;
        }
        lock.data = write_lock;
        Ok(OidWriteGuard::new(lock))
    }
}

impl OidGuard for OidWriteGuard {
    open spec fn holds(w: u64) -> bool {
        w & LOCK_MASK == LOCK_WRITER
    }

    fn is_cached(&self, lock: &LockedOid) -> (r: bool) {
        lock.is_cached()
    }

    fn to_cache_index(&self, lock: &LockedOid) -> (r: usize) {
        lock.to_cache_index()
    }

    fn to_rid(&self, lock: &LockedOid) -> (r: Rid) {
        lock.to_rid()
    }

    fn is_rid(&self, lock: &LockedOid) -> (r: bool) {
        lock.is_rid()
    }

    /// A write lock is already what an upgrade gives.
    fn upgrade(self, lock: &mut LockedOid) -> (r: Result<OidWriteGuard, OidReadGuard>)
        ensures
            r is Ok,
            *final(lock) == *old(lock),
    {
        Ok(self)
    }
}

/// Taking a read lock and giving it back restores the lock: when `b` is `a` after a
/// successful `try_read` (one more reader, as it states) and `c` is `b` after `read_unlock`,
/// `c` is `a`, with the same readers, writer and payload.
pub proof fn lemma_read_lock_round_trip(a: LockedOid, b: LockedOid, c: LockedOid)
    requires
        !a.spec_write_locked(),
        a.spec_read_cnt() + 1 < MAX_READER,
        b.word() == a.word() + LOCK_READER,
        c.word() == b.word() - LOCK_READER,
    ensures
        c == a,
        c.spec_read_cnt() == a.spec_read_cnt(),
        c.spec_write_locked() == a.spec_write_locked(),
        c.spec_payload() == a.spec_payload(),
{
    LockedOid::lemma_word_determines(c, a);
}
} // verus!

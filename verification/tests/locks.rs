use alchemy::attribute_cache::clock_cache::oid::{LockedOid, OidGuard};
use alchemy::attribute_cache::Rid;
use alchemy::error::TransactionError;

#[test]
fn lock_points_at_record_or_slot() {
    let l = LockedOid::from_rid(Rid::from_u32(77));
    assert!(l.is_rid());
    assert!(!l.is_cached());
    assert_eq!(l.to_rid().as_u32(), 77);
    assert_eq!(l.read_lock_cnt(), 0);
    assert!(!l.write_locked());
    let c = LockedOid::from_cache(12);
    assert!(c.is_cached());
    assert_eq!(c.to_cache_index(), 12);
}

#[test]
fn read_locks_count_and_exclude_writers() {
    let mut l = LockedOid::from_rid(Rid::from_u32(3));
    let g1 = l.try_read().unwrap();
    let g2 = l.read();
    assert_eq!(l.read_lock_cnt(), 2);
    assert_eq!(l.try_write().err(), Some(TransactionError::WriteLockBusy));
    // two readers: no upgrade
    let g1 = g1.upgrade(&mut l).err().unwrap();
    g1.release(&mut l);
    // the last reader upgrades
    let w = g2.upgrade(&mut l).ok().unwrap();
    assert!(l.write_locked());
    assert_eq!(l.to_rid().as_u32(), 3);
    w.release(&mut l);
    assert!(!l.write_locked());
    assert_eq!(l.read_lock_cnt(), 0);
}

#[test]
fn write_lock_excludes_everyone() {
    let mut l = LockedOid::from_rid(Rid::from_u32(5));
    let before = l.to_rid().as_u32();
    let w = l.try_write().unwrap();
    assert!(l.write_locked());
    assert_eq!(l.try_read().err(), Some(TransactionError::ReadLockBusy));
    assert_eq!(l.try_write().err(), Some(TransactionError::WriteLockBusy));
    w.release(&mut l);
    let w = l.write();
    l.write_unlock();
    drop(w);
    assert_eq!(l.to_rid().as_u32(), before);
    let r = l.read();
    l.read_unlock();
    drop(r);
    assert_eq!(l.read_lock_cnt(), 0);
}

#[test]
fn store_keeps_the_lock() {
    let mut l = LockedOid::from_rid(Rid::from_u32(9));
    let mut w = l.try_write().unwrap();
    w.store_index(&mut l, 4);
    assert!(l.is_cached());
    assert_eq!(w.to_cached(&l), 4);
    assert!(w.is_cached(&l));
    assert!(l.write_locked());
    w.store_rid(&mut l, &Rid::from_u32(9));
    assert!(w.is_rid(&l));
    assert_eq!(w.to_rid(&l).as_u32(), 9);
    assert!(w.raw_oid(&l).write_locked());
    w.release(&mut l);
    assert!(!l.write_locked());
}

#[test]
fn read_guard_reads_the_slot() {
    let mut l = LockedOid::from_cache(21);
    let r = l.try_read().unwrap();
    assert_eq!(r.to_cache_index(&l), 21);
    assert_eq!(r.get_index(&l), 21);
    assert_eq!(r.raw_oid(&l).read_lock_cnt(), 1);
    r.release(&mut l);
}

#[test]
fn alloc_rid_hands_out_fresh_write_locked_ids() {
    let mut a = alchemy::storage::oid_array::OidArray::new(8);
    let mut seen = Vec::new();
    for expected in 0u32..5 {
        let (rid, _guard) = a.alloc_rid();
        assert_eq!(rid.as_u32(), expected);
        assert!(!seen.contains(&rid.as_u32()));
        seen.push(rid.as_u32());
        let lock = a.get_sync(rid);
        assert!(lock.write_locked());
        assert!(lock.is_rid());
        assert_eq!(lock.to_rid().as_u32(), expected);
    }
    assert_eq!(a.len(), 5);
}

#[test]
fn read_lock_and_unlock_restore_the_lock() {
    let mut l = LockedOid::from_rid(Rid::from_u32(21));
    let _held = l.read();
    let g = l.try_read().unwrap();
    assert_eq!(l.read_lock_cnt(), 2);
    l.read_unlock();
    drop(g);
    assert_eq!(l.read_lock_cnt(), 1);
    assert!(!l.write_locked());
    assert!(l.is_rid());
    assert_eq!(l.to_rid().as_u32(), 21);
}

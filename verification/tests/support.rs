use alchemy::async_task::{DummySwitcher, Executor, PrefetchRef, Prefetcher};
use alchemy::benchmark::micro::config::{Distribution, MemEngine, Replacement, Workload};
use alchemy::benchmark::micro::txn_result::TransactionResult as MicroResult;
use alchemy::benchmark::micro::{Operation, WriteLogEntry};
use alchemy::benchmark::utils::{
    align_up, last_name_gen, nu_rand_from, txn_err_to_counter, u_rand, zip_gen, FixedString,
    NuRandConstants,
};
use alchemy::benchmark::CachePolicy;
use alchemy::error::TransactionError;
use alchemy::log::{FlushStep, Logger};
use alchemy::metric::counter::{Counter, CounterRecorder};
use alchemy::metric::ctx_counter::{CtxCounter, CtxCounterRecorder};
use alchemy::metric::TlsRecorder;
use alchemy::query::{Field, FieldsMeta, FieldsValue, UpdateQuery};
use alchemy::utils::PointerRef;

#[test]
fn fixed_string_copy_and_compare() {
    let mut s: FixedString<8> = FixedString::new();
    assert!(s.eq_str("\0\0\0\0\0\0\0\0"));
    s.copy_from("abc", 2);
    // the copy starts at the byte asked for
    assert!(s.eq_str("\0\0abc\0\0\0"));
    assert!(!s.eq_str("abc"));
    s.copy_from("xy", 0);
    assert!(s.eq_str("xyabc\0\0\0"));
    let t: FixedString<4> = FixedString::from_str("wxyz-more").unwrap();
    assert!(t.eq_str("wxyz"));
    let u: FixedString<10> = FixedString::concat(&t, &FixedString::<3>::from_str("abc").unwrap(), 2);
    assert!(u.eq_str("wxyz\0\0abc\0"));
    let r: FixedString<12> = FixedString::rand_gen();
    assert_eq!(r, r);
}

#[test]
fn last_names_join_syllables() {
    assert!(last_name_gen(0).eq_str("BARBARBAR\0\0\0\0\0\0\0"));
    assert!(last_name_gen(123).eq_str("OUGHTABLEPRI\0\0\0\0"));
    assert!(last_name_gen(481).eq_str("PRESATIONOUGHT\0\0"));
    assert!(last_name_gen(371).eq_str("PRICALLYOUGHT\0\0\0"));
}

#[test]
fn random_numbers_in_range() {
    for _ in 0..100 {
        let x = u_rand(5, 9);
        assert!((5..=9).contains(&x));
        let z = zip_gen();
        assert_eq!((z - 1111) % 1024, 0);
        assert!(z <= (9999 << 10) + 1111);
    }
    assert_eq!(nu_rand_from(255, 0, 999, 7, 3, 10), ((3 | 10) + 7) % 1000);
    assert_eq!(nu_rand_from(1023, 10, 19, 0, 1023, 15), (1023 | 15) % 10 + 10);
    let c = NuRandConstants::new();
    assert!(c.c_255 <= 255 && c.c_1023 <= 1023 && c.c_8191 <= 8191);
    for _ in 0..100 {
        assert!(c.nu_rand(8191, 0, 99999) <= 99999);
    }
}

#[test]
fn align_up_rounds_to_power_of_two() {
    assert_eq!(align_up(0, 8), 0);
    assert_eq!(align_up(1, 8), 8);
    assert_eq!(align_up(8, 8), 8);
    assert_eq!(align_up(4097, 4096), 8192);
}

#[test]
fn transaction_errors_count_as_aborts() {
    assert_eq!(txn_err_to_counter(&TransactionError::LockBusy), Counter::AbortLockBusy);
    assert_eq!(txn_err_to_counter(&TransactionError::ReadLockBusy), Counter::AbortRLockBusy);
    assert_eq!(txn_err_to_counter(&TransactionError::WriteLockBusy), Counter::AbortWLockBusy);
    assert_eq!(txn_err_to_counter(&TransactionError::UpgradeLockBusy), Counter::AbortUpgradeBusy);
    assert_eq!(txn_err_to_counter(&TransactionError::UserAbort), Counter::NewOrderRollback);
    assert_eq!(TransactionError::IndexNotFound.message(), "failed to find the key in index");
    assert_eq!(TransactionError::ReadLockBusy.code(), 0);
    assert_eq!(TransactionError::UserAbort.code(), 5);
}

#[test]
fn names_of_settings() {
    assert_eq!(CachePolicy::Field.name(), "field");
    assert_eq!(Distribution::SelfSimilar03.name(), "selfsimilar03");
    assert_eq!(Workload::WriteHeavy.name(), "write_heavy");
    assert_eq!(Replacement::Off.name(), "none");
    assert_eq!(MemEngine::Async.name(), "async");
    assert_eq!(CtxCounter::Stock.name(), "Stock");
    assert_eq!(Counter::AbortWLockBusy.field_name(), "abort_write_lock_busy");
}

#[test]
fn counter_numbers_round_trip() {
    for i in 0..17 {
        assert_eq!(Counter::from_num(i).index(), i);
    }
    assert_eq!(Counter::ReadHit.index(), 0);
    assert_eq!(Counter::NewOrderRollback.index(), 16);
}

#[test]
fn counter_recorders_add_up() {
    let mut a = CounterRecorder::new();
    a.increment(Counter::ReadHit, 3);
    a.increment(Counter::ReadHit, 4);
    let mut b = CounterRecorder::new();
    b.increment(Counter::ReadHit, 1);
    b.increment(Counter::InsertCnt, 2);
    let c = a.add(&b);
    assert_eq!(c.counters[Counter::ReadHit.index()], 8);
    assert_eq!(c.counters[Counter::InsertCnt.index()], 2);
    a.add_assign(&b);
    assert_eq!(a.counters, c.counters);
    let named = c.named_values();
    assert_eq!(named.len(), 17);
    assert_eq!(named[0], ("read_hit", 8));
    let names = [
        "read_hit",
        "read_miss",
        "probe_miss",
        "read_schema_miss",
        "read_cnt",
        "update_cnt",
        "insert_cnt",
        "update_schema_miss",
        "update_hit",
        "update_miss",
        "abort_read_lock_busy",
        "abort_write_lock_busy",
        "abort_upgrade_lock_busy",
        "abort_idx_not_found",
        "abort_lock_busy",
        "delivery_new_order_not_found",
        "new_order_rollback",
    ];
    for (i, (name, value)) in named.iter().enumerate() {
        assert_eq!(*name, names[i]);
        assert_eq!(*value, c.counters[i]);
    }
    a.reset();
    assert!(a.counters.iter().all(|v| *v == 0));
}

#[test]
fn context_counters_per_tag() {
    let mut r = CtxCounterRecorder::new();
    assert!(r.get(CtxCounter::Order).is_none());
    r.increment(Counter::ReadMiss, 5, CtxCounter::Order);
    let order = r.get(CtxCounter::Order).unwrap();
    assert_eq!(order.counters[Counter::ReadMiss.index()], 5);
    assert!(r.get(CtxCounter::Stock).is_none());
    let mut s = CtxCounterRecorder::new();
    s.increment(Counter::ReadMiss, 1, CtxCounter::Order);
    s.add_assign(&r);
    assert_eq!(s.get(CtxCounter::Order).unwrap().counters[Counter::ReadMiss.index()], 6);
    s.reset();
    assert!(s.get(CtxCounter::Order).is_none());
}

#[test]
fn tls_recorder_sums() {
    let mut t = TlsRecorder::new();
    t.increment_counter(Counter::UpdateCnt, 2);
    t.ctx_counter(Counter::UpdateHit, 3, CtxCounter::Customer);
    let u = t.add(&t.duplicate());
    assert_eq!(u.counters.counters[Counter::UpdateCnt.index()], 4);
    assert_eq!(
        u.ctx_counters.get(CtxCounter::Customer).unwrap().counters[Counter::UpdateHit.index()],
        6
    );
    t.reset();
    assert_eq!(t.counters.counters[Counter::UpdateCnt.index()], 0);
}

#[test]
fn micro_operations_follow_the_mix() {
    assert_eq!(Operation::from_draw(Workload::ReadOnly, 3), Operation::Read);
    assert_eq!(Operation::from_draw(Workload::ReadHeavy, 0), Operation::Update);
    assert_eq!(Operation::from_draw(Workload::ReadHeavy, 2), Operation::Read);
    assert_eq!(Operation::from_draw(Workload::WriteHeavy, 0), Operation::Read);
    assert_eq!(Operation::from_draw(Workload::WriteHeavy, 1), Operation::Update);
    assert_eq!(Operation::from_draw(Workload::InsertOnly, 1), Operation::Insert);
    let mut rng = rand::thread_rng();
    for _ in 0..50 {
        assert_eq!(Operation::gen(&mut rng, Workload::WriteOnly), Operation::Update);
        assert_ne!(Operation::gen(&mut rng, Workload::Balanced), Operation::Insert);
    }
    let _e: WriteLogEntry<4> = WriteLogEntry::create_write(7, [1, 2, 3, 4]);
    let _f: WriteLogEntry<4> = WriteLogEntry::new();
}

#[test]
fn micro_results_accumulate() {
    let mut r = MicroResult::new(0, 0);
    r.inc_commit();
    r.inc_commit();
    r.inc_abort();
    assert_eq!(r.get_commit(), 2);
    assert_eq!(r.short_value(), 2);
}

#[test]
fn logger_appends_and_flushes() {
    let mut logger = Logger::with_file(8, -1);
    assert_eq!(logger.acquire_lsn(), 0);
    assert_eq!(logger.acquire_lsn(), 1);
    assert_eq!(logger.lsn(), 2);
    logger.append_log(&[1, 2, 3]);
    assert_eq!(logger.flush_step(), FlushStep::Wait(3));
    logger.append_log(&[4, 5, 6, 7, 8]);
    assert_eq!(logger.buffer(0), &[1, 2, 3, 4, 5, 6, 7, 8]);
    assert_eq!(logger.flush_step(), FlushStep::Flush(0));
    logger.append_log(&[9]);
    assert_eq!(logger.buffer(1), &[9, 0, 0, 0, 0, 0, 0, 0]);
    assert_eq!(logger.finish_flush(), 0);
    assert_eq!(logger.flush_step(), FlushStep::Wait(9));
    let slot = logger.acquire_log_buffer(2);
    assert_eq!((slot.buffer_id, slot.offset), (1, 1));
    assert!(!logger.should_stop());
    logger.stop_logger();
    assert!(logger.should_stop());
    assert_eq!(logger.raw_file(), -1);
}

#[test]
fn logger_flush_count_matches_bytes() {
    let log_size = 64;
    let buffer_size = log_size * 32;
    let mut logger = Logger::with_file(buffer_size, -1);
    let entry: Vec<u8> = (0..log_size as u8).collect();
    let mut flush_cnt = 0;
    for _ in 0..127 * 3 {
        let _lsn = logger.acquire_lsn();
        logger.append_log(&entry);
        if let FlushStep::Flush(_) = logger.flush_step() {
            logger.finish_flush();
            flush_cnt += 1;
        }
    }
    let log_bytes = 127 * 3 * log_size;
    assert_eq!(flush_cnt, log_bytes / buffer_size);
    assert_eq!(logger.lsn(), 127 * 3);
}

#[test]
fn fields_and_queries() {
    let f = Field::new(8, 24);
    assert_eq!((f.begin(), f.end(), f.size()), (8, 24, 16));
    assert_eq!(Field::from_span(3..5), Field::new(3, 5));
    assert_eq!(Field::default(), Field::new(0, 0));
    let meta = FieldsMeta::from_spans([0..8, 16..20, 40..48]);
    assert_eq!(meta.size(), 20);
    assert_eq!(meta.iter().count(), 3);
    let data = [0u8; 20];
    let q = UpdateQuery::from_meta(meta.clone(), &data);
    let mut it = q.iter();
    let offsets: Vec<(u16, usize)> = std::iter::from_fn(|| it.next().map(|(f, o)| (f.begin(), o))).collect();
    assert_eq!(offsets, vec![(0, 0), (16, 8), (40, 12)]);
    assert_eq!(q.meta().fields, meta.fields);
    assert_eq!(q.data().len(), 20);
    let v = FieldsValue::new([3usize, 4]);
    assert_eq!(v.get(1), 4);
    assert_eq!(v.iter().sum::<usize>(), 7);
}

#[test]
fn executor_slots_round_robin() {
    let mut ex: Executor<u32, 3> = Executor::new();
    ex.spawn(10);
    ex.spawn(20);
    assert_eq!(ex.task_mut(0).copied(), Some(10));
    assert_eq!(ex.task_mut(1).copied(), Some(20));
    assert!(ex.task_mut(2).is_none());
    ex.finish(0);
    ex.spawn(30);
    assert_eq!(ex.task_mut(0).copied(), Some(30));
    assert_eq!(Executor::<u32, 3>::next_pos(2), 0);
    assert_eq!(Executor::<u32, 3>::next_pos(0), 1);
}

#[test]
fn prefetch_and_switch_polls() {
    let mut p = Prefetcher::fetch(&5u32);
    assert!(!p.poll_step());
    assert!(p.poll_step());
    let mut q = Prefetcher::fetch_ptr(64);
    assert!(!q.poll_step());
    let x = 9u64;
    let mut r = PrefetchRef::new(&x);
    assert!(r.poll_step().is_none());
    assert_eq!(r.poll_step(), Some(&9));
    assert_eq!(*r.to_ref(), 9);
    let mut s = DummySwitcher::new(2);
    assert!(!s.poll_step());
    assert!(!s.poll_step());
    assert!(s.poll_step());
    let p: PointerRef<u8> = PointerRef::new(4096);
    assert_eq!(p.clone().to_ptr(), 4096);
}

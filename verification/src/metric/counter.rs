use vstd::prelude::*;

verus! {

/// The events the system counts.
#[derive(Debug, Clone, Copy, PartialEq, Eq, Structural)]
pub enum Counter {
    ReadHit,
    ReadMiss,
    ProbeMiss,
    ReadSchemaMiss,
    ReadCnt,
    UpdateCnt,
    InsertCnt,
    UpdateSchemaMiss,
    UpdateHit,
    UpdateMiss,
    AbortRLockBusy,
    AbortWLockBusy,
    AbortUpgradeBusy,
    AbortIdxNotFound,
    AbortLockBusy,
    DeliveryNewOrderNotFound,
    NewOrderRollback,
}

impl Counter {
    /// The number of events.
    pub const LENGTH: usize = 17;

    /// The event's number, in declaration order.
    pub open spec fn spec_index(self) -> usize {
        match self {
            Counter::ReadHit => 0,
            Counter::ReadMiss => 1,
            Counter::ProbeMiss => 2,
            Counter::ReadSchemaMiss => 3,
            Counter::ReadCnt => 4,
            Counter::UpdateCnt => 5,
            Counter::InsertCnt => 6,
            Counter::UpdateSchemaMiss => 7,
            Counter::UpdateHit => 8,
            Counter::UpdateMiss => 9,
            Counter::AbortRLockBusy => 10,
            Counter::AbortWLockBusy => 11,
            Counter::AbortUpgradeBusy => 12,
            Counter::AbortIdxNotFound => 13,
            Counter::AbortLockBusy => 14,
            Counter::DeliveryNewOrderNotFound => 15,
            Counter::NewOrderRollback => 16,
        }
    }

    /// The event with a number, in spec.
    pub open spec fn spec_from_index(i: int) -> Counter {
        if i == 0 { Counter::ReadHit }
        else if i == 1 { Counter::ReadMiss }
        else if i == 2 { Counter::ProbeMiss }
        else if i == 3 { Counter::ReadSchemaMiss }
        else if i == 4 { Counter::ReadCnt }
        else if i == 5 { Counter::UpdateCnt }
        else if i == 6 { Counter::InsertCnt }
        else if i == 7 { Counter::UpdateSchemaMiss }
        else if i == 8 { Counter::UpdateHit }
        else if i == 9 { Counter::UpdateMiss }
        else if i == 10 { Counter::AbortRLockBusy }
        else if i == 11 { Counter::AbortWLockBusy }
        else if i == 12 { Counter::AbortUpgradeBusy }
        else if i == 13 { Counter::AbortIdxNotFound }
        else if i == 14 { Counter::AbortLockBusy }
        else if i == 15 { Counter::DeliveryNewOrderNotFound }
        else { Counter::NewOrderRollback }
    }

    pub fn index(&self) -> (r: usize)
        ensures
            r == self.spec_index(),
            r < Counter::LENGTH,
    {
        match self {
            Counter::ReadHit => 0,
            Counter::ReadMiss => 1,
            Counter::ProbeMiss => 2,
            Counter::ReadSchemaMiss => 3,
            Counter::ReadCnt => 4,
            Counter::UpdateCnt => 5,
            Counter::InsertCnt => 6,
            Counter::UpdateSchemaMiss => 7,
            Counter::UpdateHit => 8,
            Counter::UpdateMiss => 9,
            Counter::AbortRLockBusy => 10,
            Counter::AbortWLockBusy => 11,
            Counter::AbortUpgradeBusy => 12,
            Counter::AbortIdxNotFound => 13,
            Counter::AbortLockBusy => 14,
            Counter::DeliveryNewOrderNotFound => 15,
            Counter::NewOrderRollback => 16,
        }
    }

    /// The event with a number.
    pub fn from_num(num: usize) -> (r: Counter)
        requires
            num < Counter::LENGTH,
        ensures
            r.spec_index() == num,
            r == Counter::spec_from_index(num as int),
    {
        match num {
            0 => Counter::ReadHit,
            1 => Counter::ReadMiss,
            2 => Counter::ProbeMiss,
            3 => Counter::ReadSchemaMiss,
            4 => Counter::ReadCnt,
            5 => Counter::UpdateCnt,
            6 => Counter::InsertCnt,
            7 => Counter::UpdateSchemaMiss,
            8 => Counter::UpdateHit,
            9 => Counter::UpdateMiss,
            10 => Counter::AbortRLockBusy,
            11 => Counter::AbortWLockBusy,
            12 => Counter::AbortUpgradeBusy,
            13 => Counter::AbortIdxNotFound,
            14 => Counter::AbortLockBusy,
            15 => Counter::DeliveryNewOrderNotFound,
            _ => Counter::NewOrderRollback,
        }
    }

    /// The name the event's count is reported under.
    pub open spec fn spec_field_name(&self) -> Seq<char> {
        match self {
            Counter::ReadHit => "read_hit"@,
            Counter::ReadMiss => "read_miss"@,
            Counter::UpdateHit => "update_hit"@,
            Counter::UpdateMiss => "update_miss"@,
            Counter::ProbeMiss => "probe_miss"@,
            Counter::ReadSchemaMiss => "read_schema_miss"@,
            Counter::UpdateSchemaMiss => "update_schema_miss"@,
            Counter::ReadCnt => "read_cnt"@,
            Counter::UpdateCnt => "update_cnt"@,
            Counter::InsertCnt => "insert_cnt"@,
            Counter::AbortRLockBusy => "abort_read_lock_busy"@,
            Counter::AbortWLockBusy => "abort_write_lock_busy"@,
            Counter::AbortUpgradeBusy => "abort_upgrade_lock_busy"@,
            Counter::AbortIdxNotFound => "abort_idx_not_found"@,
            Counter::AbortLockBusy => "abort_lock_busy"@,
            Counter::DeliveryNewOrderNotFound => "delivery_new_order_not_found"@,
            Counter::NewOrderRollback => "new_order_rollback"@,
        }
    }

    pub fn field_name(&self) -> (r: &'static str)
        ensures
            r@ == self.spec_field_name(),
    {
        match self {
            Counter::ReadHit => "read_hit",
            Counter::ReadMiss => "read_miss",
            Counter::UpdateHit => "update_hit",
            Counter::UpdateMiss => "update_miss",
            Counter::ProbeMiss => "probe_miss",
            Counter::ReadSchemaMiss => "read_schema_miss",
            Counter::UpdateSchemaMiss => "update_schema_miss",
            Counter::ReadCnt => "read_cnt",
            Counter::UpdateCnt => "update_cnt",
            Counter::InsertCnt => "insert_cnt",
            Counter::AbortRLockBusy => "abort_read_lock_busy",
            Counter::AbortWLockBusy => "abort_write_lock_busy",
            Counter::AbortUpgradeBusy => "abort_upgrade_lock_busy",
            Counter::AbortIdxNotFound => "abort_idx_not_found",
            Counter::AbortLockBusy => "abort_lock_busy",
            Counter::DeliveryNewOrderNotFound => "delivery_new_order_not_found",
            Counter::NewOrderRollback => "new_order_rollback",
        }
    }
}

/// A count for each event.
#[derive(Debug, Clone, Copy)]
pub struct CounterRecorder {
    pub counters: [u64; 17],
}

impl CounterRecorder {
    pub open spec fn wf(&self) -> bool {
        self.counters@.len() == Counter::LENGTH
    }

    pub fn new() -> (r: Self)
        ensures
            r.wf(),
            forall|i: int| 0 <= i < Counter::LENGTH ==> r.counters@[i] == 0,
    {
        CounterRecorder { counters: [0;17] }
    }

    pub fn increment(&mut self, event: Counter, amount: u64)
        requires
            old(self).counters@[event.spec_index() as int] + amount <= u64::MAX,
        ensures
            final(self).wf(),
            final(self).counters@ == old(self).counters@.update(
                event.spec_index() as int,
                (old(self).counters@[event.spec_index() as int] + amount) as u64,
            ),
    {
        let i = event.index();
        self.counters[i] = self.counters[i] + amount;
    }

    pub fn reset(&mut self)
        ensures
            final(self).wf(),
            forall|i: int| 0 <= i < Counter::LENGTH ==> final(self).counters@[i] == 0,
    {
        let mut i: usize = 0;
        while i < Counter::LENGTH
            invariant
                0 <= i <= Counter::LENGTH,
                self.counters@.len() == Counter::LENGTH,
                forall|j: int| 0 <= j < i ==> self.counters@[j] == 0,
            decreases Counter::LENGTH - i,
        {
            self.counters[i] = 0;
            i += 1;
        }
    }

    /// Adds every count of `other` (the `+=` of two recorders).
    pub fn add_assign(&mut self, other: &CounterRecorder)
        requires
            forall|i: int| 0 <= i < Counter::LENGTH ==> old(self).counters@[i] + other.counters@[i] <= u64::MAX,
        ensures
            final(self).wf(),
            forall|i: int| 0 <= i < Counter::LENGTH ==> final(self).counters@[i] == old(self).counters@[i] + other.counters@[i],
    {
        let mut i: usize = 0;
        while i < Counter::LENGTH
            invariant
                0 <= i <= Counter::LENGTH,
                self.counters@.len() == Counter::LENGTH,
                forall|j: int| 0 <= j < Counter::LENGTH ==> old(self).counters@[j] + other.counters@[j] <= u64::MAX,
                forall|j: int| 0 <= j < i ==> self.counters@[j] == old(self).counters@[j] + other.counters@[j],
                forall|j: int| i <= j < Counter::LENGTH ==> self.counters@[j] == old(self).counters@[j],
            decreases Counter::LENGTH - i,
        {
            self.counters[i] = self.counters[i] + other.counters[i];
            i += 1;
        }
    }

    /// The sum of two recorders (the `+` of two recorders).
    pub fn add(&self, other: &CounterRecorder) -> (r: CounterRecorder)
        requires
            forall|i: int| 0 <= i < Counter::LENGTH ==> self.counters@[i] + other.counters@[i] <= u64::MAX,
        ensures
            r.wf(),
            forall|i: int| 0 <= i < Counter::LENGTH ==> r.counters@[i] == self.counters@[i] + other.counters@[i],
    {
        let mut c = CounterRecorder { counters: self.counters };
        c.add_assign(other);
        c
    }

    /// The counts with the names they are reported under, in event order.
    pub fn named_values(&self) -> (r: Vec<(&'static str, u64)>)
        ensures
            r@.len() == Counter::LENGTH,
            forall|i: int| 0 <= i < Counter::LENGTH ==> (#[trigger] r@[i]).1 == self.counters@[i],
            forall|i: int|
                0 <= i < Counter::LENGTH ==> (#[trigger] r@[i]).0@ == Counter::spec_from_index(
                    i,
                ).spec_field_name(),
    {
        let mut out: Vec<(&'static str, u64)> = Vec::new();
        let mut i: usize = 0;
        while i < Counter::LENGTH
            invariant
                0 <= i <= Counter::LENGTH,
                self.counters@.len() == Counter::LENGTH,
                out@.len() == i,
                forall|j: int| 0 <= j < i ==> (#[trigger] out@[j]).1 == self.counters@[j],
                forall|j: int|
                    0 <= j < i ==> (#[trigger] out@[j]).0@ == Counter::spec_from_index(
                        j,
                    ).spec_field_name(),
            decreases Counter::LENGTH - i,
        {
            let c = Counter::from_num(i);
            out.push((c.field_name(), self.counters[i]));
            i += 1;
        }
        out
    }
}

} // verus!

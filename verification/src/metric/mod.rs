pub mod counter;
pub mod ctx_counter;

pub use counter::{Counter, CounterRecorder};
pub use ctx_counter::{CtxCounter, CtxCounterRecorder};

use vstd::prelude::*;

verus! {

/// A thread's metrics: plain event counters and counters per context.
#[derive(Clone)]
pub struct TlsRecorder {
    pub counters: CounterRecorder,
    pub ctx_counters: CtxCounterRecorder,
}

impl TlsRecorder {
    pub open spec fn wf(&self) -> bool {
        self.counters.wf() && self.ctx_counters.wf()
    }

    pub fn new() -> (r: Self)
        ensures
            r.wf(),
            forall|i: int| 0 <= i < Counter::LENGTH ==> r.counters.counters@[i] == 0,
            forall|c: CtxCounter| #[trigger] r.ctx_counters.get_spec(c) is None,
    {
        TlsRecorder { counters: CounterRecorder::new(), ctx_counters: CtxCounterRecorder::new() }
    }

    pub fn increment_counter(&mut self, event: Counter, amount: u64)
        requires
            old(self).wf(),
            old(self).counters.counters@[event.spec_index() as int] + amount <= u64::MAX,
        ensures
            final(self).wf(),
            final(self).ctx_counters == old(self).ctx_counters,
            final(self).counters.counters@ == old(self).counters.counters@.update(
                event.spec_index() as int,
                (old(self).counters.counters@[event.spec_index() as int] + amount) as u64,
            ),
    {
        self.counters.increment(event, amount);
    }

    pub fn ctx_counter(&mut self, event: Counter, amount: u64, tag: CtxCounter)
        requires
            old(self).wf(),
            old(self).ctx_counters.count_spec(tag, event) + amount <= u64::MAX,
        ensures
            final(self).wf(),
            final(self).counters == old(self).counters,
            final(self).ctx_counters.count_spec(tag, event) == old(self).ctx_counters.count_spec(tag, event) + amount,
            final(self).ctx_counters.get_spec(tag) is Some,
            forall|t: CtxCounter, e: Counter| !(t == tag && e == event) ==> #[trigger] final(self).ctx_counters.count_spec(t, e) == old(self).ctx_counters.count_spec(t, e),
    {
        self.ctx_counters.increment(event, amount, tag);
    }

    pub fn reset(&mut self)
        ensures
            final(self).wf(),
            forall|i: int| 0 <= i < Counter::LENGTH ==> final(self).counters.counters@[i] == 0,
            forall|c: CtxCounter| #[trigger] final(self).ctx_counters.get_spec(c) is None,
    {
        self.counters.reset();
        self.ctx_counters.reset();
    }

    /// Whether every count of the two recorders adds up within 64 bits.
    pub open spec fn can_add(&self, other: &TlsRecorder) -> bool {
        &&& forall|i: int| 0 <= i < Counter::LENGTH ==> self.counters.counters@[i] + other.counters.counters@[i] <= u64::MAX
        &&& forall|t: CtxCounter, e: Counter| #[trigger] self.ctx_counters.count_spec(t, e) + other.ctx_counters.count_spec(t, e) <= u64::MAX
    }

    /// The sum of two recorders (the `+` of two recorders).
    pub fn add(&self, other: &TlsRecorder) -> (r: TlsRecorder)
        requires
            self.wf(),
            self.can_add(other),
        ensures
            r.wf(),
            forall|i: int| 0 <= i < Counter::LENGTH ==> r.counters.counters@[i] == self.counters.counters@[i] + other.counters.counters@[i],
            forall|t: CtxCounter, e: Counter| #[trigger] r.ctx_counters.count_spec(t, e) == self.ctx_counters.count_spec(t, e) + other.ctx_counters.count_spec(t, e),
    {
        let counters = self.counters.add(&other.counters);
        let mut ctx_counters = CtxCounterRecorder::new();
        ctx_counters.add_assign(&self.ctx_counters);
        ctx_counters.add_assign(&other.ctx_counters);
        TlsRecorder { counters, ctx_counters }
    }

    /// Whether `self` holds the counts of `a` plus those of `b`.
    pub open spec fn is_sum(&self, a: &TlsRecorder, b: &TlsRecorder) -> bool {
        &&& forall|i: int| 0 <= i < Counter::LENGTH ==> self.counters.counters@[i] == a.counters.counters@[i] + b.counters.counters@[i]
        &&& forall|t: CtxCounter, e: Counter| #[trigger] self.ctx_counters.count_spec(t, e) == a.ctx_counters.count_spec(t, e) + b.ctx_counters.count_spec(t, e)
    }

    /// Whether two recorders hold the same counts.
    pub open spec fn same_counts(&self, a: &TlsRecorder) -> bool {
        &&& forall|i: int| 0 <= i < Counter::LENGTH ==> self.counters.counters@[i] == a.counters.counters@[i]
        &&& forall|t: CtxCounter, e: Counter| #[trigger] self.ctx_counters.count_spec(t, e) == a.ctx_counters.count_spec(t, e)
    }

    /// A recorder with the same counts.
    pub fn duplicate(&self) -> (r: TlsRecorder)
        requires
            self.wf(),
        ensures
            r.wf(),
            r.same_counts(self),
    {
        let empty = TlsRecorder::new();
        proof {
            assert forall|t: CtxCounter, e: Counter| #[trigger] empty.ctx_counters.count_spec(t, e) + self.ctx_counters.count_spec(t, e) <= u64::MAX by {
                assert(empty.ctx_counters.get_spec(t) is None);
            }
        }
        let r = empty.add(self);
        proof {
            assert forall|t: CtxCounter, e: Counter| #[trigger] r.ctx_counters.count_spec(t, e) == self.ctx_counters.count_spec(t, e) by {
                assert(empty.ctx_counters.get_spec(t) is None);
            }
        }
        r
    }
}

/// Optional metrics that are well formed where present.
pub open spec fn metrics_wf(m: Option<TlsRecorder>) -> bool {
    m matches Some(x) ==> x.wf()
}

/// Two optional metrics whose counts add up within 64 bits where both are present.
pub open spec fn metrics_can_merge(a: Option<TlsRecorder>, b: Option<TlsRecorder>) -> bool {
    a is Some && b is Some ==> a.unwrap().can_add(&b.unwrap())
}

/// `r` holds the counts of `a` and `b` together: their sum when both are present, those of
/// the one present otherwise, and nothing when neither is.
pub open spec fn metrics_merged(
    r: Option<TlsRecorder>,
    a: Option<TlsRecorder>,
    b: Option<TlsRecorder>,
) -> bool {
    match (a, b) {
        (Some(x), Some(y)) => r matches Some(z) && z.wf() && z.is_sum(&x, &y),
        (Some(x), None) => r matches Some(z) && z.wf() && z.same_counts(&x),
        (None, Some(y)) => r matches Some(z) && z.wf() && z.same_counts(&y),
        (None, None) => r is None,
    }
}

/// The metrics of two results put together; see `metrics_merged`.
pub fn merge_metrics(a: &Option<TlsRecorder>, b: &Option<TlsRecorder>) -> (r: Option<TlsRecorder>)
    requires
        metrics_wf(*a),
        metrics_wf(*b),
        metrics_can_merge(*a, *b),
    ensures
        metrics_merged(r, *a, *b),
{
    match (a, b) {
        (Some(x), Some(y)) => Some(x.add(y)),
        (Some(x), None) => Some(x.duplicate()),
        (None, Some(y)) => Some(y.duplicate()),
        (None, None) => None,
    }
}

} // verus!

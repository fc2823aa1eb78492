use vstd::prelude::*;

use crate::metric::{merge_metrics, metrics_can_merge, metrics_merged, metrics_wf, TlsRecorder};

verus! {

/// The commits and aborts of one TPCC transaction.
#[derive(Debug, Clone, Copy, PartialEq, Eq, Structural)]
pub struct TransactionResult {
    pub commit: usize,
    pub abort: usize,
}

impl TransactionResult {
    pub fn new(commit: usize, abort: usize) -> (r: TransactionResult)
        ensures
            r.commit == commit,
            r.abort == abort,
    {
        Self { commit, abort }
    }

    pub fn inc_commit(&mut self)
        requires
            old(self).commit < usize::MAX,
        ensures
            final(self).commit == old(self).commit + 1,
            final(self).abort == old(self).abort,
    {
        self.commit = self.commit + 1;
    }

    pub fn inc_abort(&mut self)
        requires
            old(self).abort < usize::MAX,
        ensures
            final(self).abort == old(self).abort + 1,
            final(self).commit == old(self).commit,
    {
        self.abort = self.abort + 1;
    }

    pub fn get_commit(&self) -> (r: usize)
        ensures
            r == self.commit,
    {
        self.commit
    }

    pub fn short_value(&self) -> (r: usize)
        ensures
            r == self.commit,
    {
        self.commit
    }

    /// The `+=` of two results.
    pub fn add_assign(&mut self, b: &TransactionResult)
        requires
            old(self).commit + b.commit <= usize::MAX,
            old(self).abort + b.abort <= usize::MAX,
        ensures
            final(self).commit == old(self).commit + b.commit,
            final(self).abort == old(self).abort + b.abort,
    {
        self.commit = self.commit + b.commit;
        self.abort = self.abort + b.abort;
    }
}

/// The results of every TPCC transaction, with the metrics recorded.
#[derive(Clone)]
pub struct TpccResults {
    pub payment: TransactionResult,
    pub new_order: TransactionResult,
    pub order_status: TransactionResult,
    pub delivery: TransactionResult,
    pub stock_level: TransactionResult,
    pub metrics: Option<TlsRecorder>,
}

impl TpccResults {
    pub fn new() -> (r: Self)
        ensures
            r.payment == (TransactionResult { commit: 0, abort: 0 }),
            r.new_order == (TransactionResult { commit: 0, abort: 0 }),
            r.order_status == (TransactionResult { commit: 0, abort: 0 }),
            r.delivery == (TransactionResult { commit: 0, abort: 0 }),
            r.stock_level == (TransactionResult { commit: 0, abort: 0 }),
            r.metrics is None,
    {
        TpccResults {
            payment: (TransactionResult { commit: 0, abort: 0 }),
            new_order: (TransactionResult { commit: 0, abort: 0 }),
            order_status: (TransactionResult { commit: 0, abort: 0 }),
            delivery: (TransactionResult { commit: 0, abort: 0 }),
            stock_level: (TransactionResult { commit: 0, abort: 0 }),
            metrics: None,
        }
    }

    pub fn set_metric(&mut self, metric: TlsRecorder)
        ensures
            final(self).metrics == Some(metric),
            final(self).payment == old(self).payment,
            final(self).new_order == old(self).new_order,
            final(self).order_status == old(self).order_status,
            final(self).delivery == old(self).delivery,
            final(self).stock_level == old(self).stock_level,
    {
        self.metrics = Some(metric);
    }

    /// The value the benchmark reports: the commits of all transactions.
    pub fn short_value(&self) -> (r: usize)
        requires
            self.new_order.commit + self.payment.commit + self.order_status.commit + self.delivery.commit + self.stock_level.commit <= usize::MAX,
        ensures
            r == self.new_order.commit + self.payment.commit + self.order_status.commit + self.delivery.commit + self.stock_level.commit,
    {
        self.new_order.short_value() + self.payment.short_value() + self.order_status.short_value() + self.delivery.short_value() + self.stock_level.short_value()
    }

    /// Whether every count of the two results adds up within a machine word.
    pub open spec fn can_add(&self, b: &TpccResults) -> bool {
        &&& self.payment.commit + b.payment.commit <= usize::MAX
        &&& self.payment.abort + b.payment.abort <= usize::MAX
        &&& self.new_order.commit + b.new_order.commit <= usize::MAX
        &&& self.new_order.abort + b.new_order.abort <= usize::MAX
        &&& self.order_status.commit + b.order_status.commit <= usize::MAX
        &&& self.order_status.abort + b.order_status.abort <= usize::MAX
        &&& self.delivery.commit + b.delivery.commit <= usize::MAX
        &&& self.delivery.abort + b.delivery.abort <= usize::MAX
        &&& self.stock_level.commit + b.stock_level.commit <= usize::MAX
        &&& self.stock_level.abort + b.stock_level.abort <= usize::MAX
        &&& metrics_wf(self.metrics)
        &&& metrics_wf(b.metrics)
        &&& metrics_can_merge(self.metrics, b.metrics)
    }

    /// `r` holds the counts of `a` and `b` together.
    pub open spec fn is_sum(r: TpccResults, a: TpccResults, b: TpccResults) -> bool {
        &&& r.payment.commit == a.payment.commit + b.payment.commit
        &&& r.payment.abort == a.payment.abort + b.payment.abort
        &&& r.new_order.commit == a.new_order.commit + b.new_order.commit
        &&& r.new_order.abort == a.new_order.abort + b.new_order.abort
        &&& r.order_status.commit == a.order_status.commit + b.order_status.commit
        &&& r.order_status.abort == a.order_status.abort + b.order_status.abort
        &&& r.delivery.commit == a.delivery.commit + b.delivery.commit
        &&& r.delivery.abort == a.delivery.abort + b.delivery.abort
        &&& r.stock_level.commit == a.stock_level.commit + b.stock_level.commit
        &&& r.stock_level.abort == a.stock_level.abort + b.stock_level.abort
    }

    /// Adds the results of `b` (the `+=` of two results); the metrics of `b` are added to
    /// those of `self`, or become them where `self` had none.
    pub fn add_assign(&mut self, b: &TpccResults)
        requires
            old(self).can_add(b),
        ensures
            Self::is_sum(*final(self), *old(self), *b),
            b.metrics is None ==> final(self).metrics == old(self).metrics,
            b.metrics is Some ==> metrics_merged(final(self).metrics, old(self).metrics, b.metrics),
    {
        self.payment.add_assign(&b.payment);
        self.new_order.add_assign(&b.new_order);
        self.order_status.add_assign(&b.order_status);
        self.delivery.add_assign(&b.delivery);
        self.stock_level.add_assign(&b.stock_level);
        if b.metrics.is_some() {
            self.metrics = merge_metrics(&self.metrics, &b.metrics);
        }
    }

    /// The sum of two results (the `+` of two results).
    pub fn add(&self, b: &TpccResults) -> (r: TpccResults)
        requires
            self.can_add(b),
        ensures
            Self::is_sum(r, *self, *b),
            metrics_merged(r.metrics, self.metrics, b.metrics),
    {
        let mut payment = self.payment;
        payment.add_assign(&b.payment);
        let mut new_order = self.new_order;
        new_order.add_assign(&b.new_order);
        let mut order_status = self.order_status;
        order_status.add_assign(&b.order_status);
        let mut delivery = self.delivery;
        delivery.add_assign(&b.delivery);
        let mut stock_level = self.stock_level;
        stock_level.add_assign(&b.stock_level);
        TpccResults {
            payment,
            new_order,
            order_status,
            delivery,
            stock_level,
            metrics: merge_metrics(&self.metrics, &b.metrics),
        }
    }
}

} // verus!

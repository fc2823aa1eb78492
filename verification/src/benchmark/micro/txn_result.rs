use vstd::prelude::*;

use crate::metric::{merge_metrics, metrics_can_merge, metrics_merged, metrics_wf, TlsRecorder};

verus! {

/// The outcome counts of a micro benchmark run, with the metrics recorded.
#[derive(Clone)]
pub struct TransactionResult {
    pub commit: usize,
    pub abort: usize,
    pub metrics: Option<TlsRecorder>,
}

impl TransactionResult {
    pub fn new(commit: usize, abort: usize) -> (r: TransactionResult)
        ensures
            r.commit == commit,
            r.abort == abort,
            r.metrics is None,
    {
        Self { commit, abort, metrics: None }
    }

    pub fn inc_commit(&mut self)
        requires
            old(self).commit < usize::MAX,
        ensures
            final(self).commit == old(self).commit + 1,
            final(self).abort == old(self).abort,
            final(self).metrics == old(self).metrics,
    {
        self.commit = self.commit + 1;
    }

    pub fn inc_abort(&mut self)
        requires
            old(self).abort < usize::MAX,
        ensures
            final(self).abort == old(self).abort + 1,
            final(self).commit == old(self).commit,
            final(self).metrics == old(self).metrics,
    {
        self.abort = self.abort + 1;
    }

    pub fn set_metric(&mut self, metric: TlsRecorder)
        ensures
            final(self).metrics == Some(metric),
            final(self).commit == old(self).commit,
            final(self).abort == old(self).abort,
    {
        self.metrics = Some(metric);
    }

    pub fn get_commit(&self) -> (r: usize)
        ensures
            r == self.commit,
    {
        self.commit
    }

    /// The value a benchmark reports: the commits.
    pub fn short_value(&self) -> (r: usize)
        ensures
            r == self.commit,
    {
        self.commit
    }

    /// Adds the counts of `b` (the `+=` of two results); the metrics of `b` are added to
    /// those of `self`, or become them where `self` had none.
    pub fn add_assign(&mut self, b: &TransactionResult)
        requires
            old(self).commit + b.commit <= usize::MAX,
            old(self).abort + b.abort <= usize::MAX,
            b.metrics matches Some(v) ==> v.wf(),
            old(self).metrics matches Some(a) ==> a.wf(),
            old(self).metrics is Some && b.metrics is Some ==> old(self).metrics.unwrap().can_add(&b.metrics.unwrap()),
        ensures
            final(self).commit == old(self).commit + b.commit,
            final(self).abort == old(self).abort + b.abort,
            b.metrics is None ==> final(self).metrics == old(self).metrics,
            old(self).metrics is None && b.metrics is Some ==> final(self).metrics is Some && final(self).metrics.unwrap().same_counts(&b.metrics.unwrap()),
            old(self).metrics is Some && b.metrics is Some ==> final(self).metrics is Some && final(self).metrics.unwrap().is_sum(&old(self).metrics.unwrap(), &b.metrics.unwrap()),
    {
        self.commit = self.commit + b.commit;
        self.abort = self.abort + b.abort;
        match &b.metrics {
            Some(v) => {
                let merged = match &self.metrics {
                    Some(a_m) => a_m.add(v),
                    None => v.duplicate(),
                };
                self.metrics = Some(merged);
            },
            None => {},
        }
    }

    /// The sum of two results (the `+` of two results): the counts add up, and so do the
    /// metrics (see `metrics_merged`).
    pub fn add(&self, b: &TransactionResult) -> (r: TransactionResult)
        requires
            self.commit + b.commit <= usize::MAX,
            self.abort + b.abort <= usize::MAX,
            metrics_wf(self.metrics),
            metrics_wf(b.metrics),
            metrics_can_merge(self.metrics, b.metrics),
        ensures
            r.commit == self.commit + b.commit,
            r.abort == self.abort + b.abort,
            metrics_merged(r.metrics, self.metrics, b.metrics),
    {
        TransactionResult {
            commit: self.commit + b.commit,
            abort: self.abort + b.abort,
            metrics: merge_metrics(&self.metrics, &b.metrics),
        }
    }
}

} // verus!

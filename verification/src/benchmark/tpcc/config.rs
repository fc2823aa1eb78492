use vstd::prelude::*;

use crate::benchmark::micro::{rng_gen_range_u64, ExThreadRng};
use crate::benchmark::CachePolicy;
use rand::rngs::ThreadRng;

verus! {

#[derive(Debug, Clone, Copy, PartialEq, Eq, Structural)]
pub enum TxnEngine {
    Sync,
    Async,
}

impl TxnEngine {
    pub open spec fn spec_name(&self) -> Seq<char> {
        match self {
            TxnEngine::Sync => "sync"@,
            TxnEngine::Async => "async"@,
        }
    }

    pub fn name(&self) -> (r: &'static str)
        ensures
            r@ == self.spec_name(),
    {
        match self {
            TxnEngine::Sync => "sync",
            TxnEngine::Async => "async",
        }
    }
}

/// The share, in percent, of each TPCC transaction.
#[derive(Debug, Clone, Copy, PartialEq, Eq, Structural)]
pub struct WorkloadMix {
    pub new_order: u64,
    pub payment: u64,
    pub order_status: u64,
    pub delivery: u64,
    pub stock_level: u64,
}

/// A TPCC transaction.
#[derive(Debug, Clone, Copy, PartialEq, Eq, Structural)]
pub enum Workload {
    NewOrder,
    Payment,
    OrderStatus,
    Delivery,
    StockLevel,
}

impl WorkloadMix {
    /// The shares add up to at least 100 percent, within 64 bits.
    pub open spec fn wf(&self) -> bool {
        &&& self.new_order + self.payment + self.order_status + self.delivery + self.stock_level <= u64::MAX
        &&& self.new_order + self.payment + self.order_status + self.delivery + self.stock_level >= 100
    }

    /// The transaction a percentile falls into: the shares are laid end to end, in order.
    pub open spec fn spec_pick(&self, w: u64) -> Workload {
        if w < self.new_order {
            Workload::NewOrder
        } else if w < self.new_order + self.payment {
            Workload::Payment
        } else if w < self.new_order + self.payment + self.order_status {
            Workload::OrderStatus
        } else if w < self.new_order + self.payment + self.order_status + self.delivery {
            Workload::Delivery
        } else {
            Workload::StockLevel
        }
    }

    /// The mix in the form "(new_order-payment-order_status-delivery-stock_level)".
    pub fn shares(&self) -> (r: [u64; 5])
        ensures
            r@ == seq![self.new_order, self.payment, self.order_status, self.delivery, self.stock_level],
    {
        let r = [self.new_order, self.payment, self.order_status, self.delivery, self.stock_level];
        assert(r@ =~= seq![self.new_order, self.payment, self.order_status, self.delivery, self.stock_level]);
        r
    }

    /// The transaction of a percentile `w`; `w` must fall within the shares ("workload not
    /// supported" otherwise).
    pub fn pick(&self, w: u64) -> (r: Workload)
        requires
            self.new_order + self.payment + self.order_status + self.delivery + self.stock_level <= u64::MAX,
            w < self.new_order + self.payment + self.order_status + self.delivery + self.stock_level,
        ensures
            r == self.spec_pick(w),
    {
        let new_order = self.new_order;
        let payment = new_order + self.payment;
        let order_status = payment + self.order_status;
        let delivery = order_status + self.delivery;
        if w < new_order {
            Workload::NewOrder
        } else if w < payment {
            Workload::Payment
        } else if w < order_status {
            Workload::OrderStatus
        } else if w < delivery {
            Workload::Delivery
        } else {
            Workload::StockLevel
        }
    }

    /// A transaction drawn with the mix's shares.
    pub fn gen(&self, rng: &mut ThreadRng) -> (r: Workload)
        requires
            self.wf(),
        ensures
            exists|w: u64| w < 100 && r == self.spec_pick(w),
    {
        let w = rng_gen_range_u64(rng, 0, 100);
        self.pick(w)
    }
}

/// The configuration of the TPCC benchmark.
#[derive(Debug, Clone)]
pub struct Tpcc {
    pub name: String,
    pub time: usize,
    pub threads: Vec<usize>,
    pub warehouse_cnt: usize,
    pub policy: CachePolicy,
    pub txn_engine: TxnEngine,
    pub workload: WorkloadMix,
}

} // verus!

use vstd::prelude::*;

use super::{CUSTOMER_SCALE, DISTRICT_SCALE, ITEM_SCALE};
use crate::benchmark::utils::{
    rand_range_inclusive_u64, rand_range_usize, rand_ratio, NuRandConstants,
};

verus! {

/// The first warehouse of a task: the warehouses are shared evenly among the tasks.
pub open spec fn task_first_warehouse(warehouse_cnt: usize, task_id: usize, task_cnt: usize) -> int {
    (warehouse_cnt / task_cnt) * task_id
}

/// The warehouse after the last one of a task, cut at `warehouse_cnt`.
pub open spec fn task_end_warehouse(warehouse_cnt: usize, task_id: usize, task_cnt: usize) -> int {
    let end = (warehouse_cnt / task_cnt) * (task_id + 1);
    if end < warehouse_cnt {
        end
    } else {
        warehouse_cnt as int
    }
}

/// A task has warehouses of its own to draw from.
pub open spec fn task_warehouses_ok(warehouse_cnt: usize, task_id: usize, task_cnt: usize) -> bool {
    &&& task_cnt > 0
    &&& (warehouse_cnt / task_cnt) * (task_id + 1) <= usize::MAX
    &&& task_first_warehouse(warehouse_cnt, task_id, task_cnt) < task_end_warehouse(
        warehouse_cnt,
        task_id,
        task_cnt,
    )
}

/// A warehouse drawn from those of the task.
fn gen_warehouse(warehouse_cnt: usize, task_id: usize, task_cnt: usize) -> (r: usize)
    requires
        task_warehouses_ok(warehouse_cnt, task_id, task_cnt),
    ensures
        task_first_warehouse(warehouse_cnt, task_id, task_cnt) <= r < task_end_warehouse(
            warehouse_cnt,
            task_id,
            task_cnt,
        ),
        r < warehouse_cnt,
{
    let w_per_thread = warehouse_cnt / task_cnt;
    proof {
        if task_id == usize::MAX {
            assert(w_per_thread == 0) by (nonlinear_arith)
                requires
                    w_per_thread * (task_id + 1) <= usize::MAX,
                    task_id == usize::MAX,
            ;
            assert(w_per_thread * task_id == 0) by (nonlinear_arith)
                requires
                    w_per_thread == 0,
            ;
            assert(w_per_thread * (task_id + 1) == 0) by (nonlinear_arith)
                requires
                    w_per_thread == 0,
            ;
            assert(false);
        }
    }
    assert(w_per_thread * task_id <= w_per_thread * (task_id + 1)) by (nonlinear_arith);
    let low = w_per_thread * task_id;
    let end = w_per_thread * (task_id + 1);
    let high = if end < warehouse_cnt {
        end
    } else {
        warehouse_cnt
    };
    rand_range_usize(low, high)
}

/// The input of a DELIVERY transaction.
#[derive(Debug, Clone, Copy, PartialEq, Eq, Structural)]
pub struct DeliveryInput {
    pub w_id: u32,
    pub o_carrier_id: u32,
}

impl DeliveryInput {
    /// A warehouse of the task, and a carrier from 1 to 10.
    pub fn gen(warehouse_cnt: usize, task_id: usize, task_cnt: usize) -> (r: Self)
        requires
            task_warehouses_ok(warehouse_cnt, task_id, task_cnt),
        ensures
            exists|w: usize|
                task_first_warehouse(warehouse_cnt, task_id, task_cnt) <= w
                    < task_end_warehouse(warehouse_cnt, task_id, task_cnt) && r.w_id == #[trigger] low_u32(w),
            1 <= r.o_carrier_id <= 10,
    {
        let w_id = gen_warehouse(warehouse_cnt, task_id, task_cnt);
        let carrier = rand_range_inclusive_u64(1, 10);
        let w32 = w_id as u32;
        proof {
            assert(w32 == low_u32(w_id));
        }
        Self { w_id: w32, o_carrier_id: carrier as u32 }
    }
}

/// The input of a STOCK-LEVEL transaction.
#[derive(Debug, Clone, Copy, PartialEq, Eq, Structural)]
pub struct StockLevelInput {
    pub w_id: u32,
    pub d_id: u32,
    pub stock_threshold: u32,
}

impl StockLevelInput {
    /// A warehouse of the task, a district and a threshold from 10 to 20.
    pub fn gen(warehouse_cnt: usize, task_id: usize, task_cnt: usize) -> (r: Self)
        requires
            task_warehouses_ok(warehouse_cnt, task_id, task_cnt),
        ensures
            exists|w: usize|
                task_first_warehouse(warehouse_cnt, task_id, task_cnt) <= w
                    < task_end_warehouse(warehouse_cnt, task_id, task_cnt) && r.w_id == #[trigger] low_u32(w),
            r.d_id < DISTRICT_SCALE,
            10 <= r.stock_threshold <= 20,
    {
        let w_id = gen_warehouse(warehouse_cnt, task_id, task_cnt);
        let d_id = rand_range_usize(0, DISTRICT_SCALE);
        let threshold = rand_range_inclusive_u64(10, 20);
        let w32 = w_id as u32;
        proof {
            assert(w32 == low_u32(w_id));
        }
        StockLevelInput { w_id: w32, d_id: d_id as u32, stock_threshold: threshold as u32 }
    }
}

/// How an ORDER-STATUS transaction names its customer.
#[derive(Debug, Clone, Copy, PartialEq, Eq, Structural)]
pub enum CustomerQuery {
    Id(u32),
    LastName(u32),
}

/// The input of an ORDER-STATUS transaction.
#[derive(Debug, Clone, Copy, PartialEq, Eq, Structural)]
pub struct OrderStatusInput {
    pub w_id: u32,
    pub d_id: u32,
    pub c_query: CustomerQuery,
}

impl OrderStatusInput {
    /// A warehouse of the task, a district, and a customer named by last name (60%) or by
    /// id, each a non-uniform draw with the run's constants.
    pub fn gen(warehouse_cnt: usize, task_id: usize, task_cnt: usize, consts: &NuRandConstants) -> (r:
        Self)
        requires
            task_warehouses_ok(warehouse_cnt, task_id, task_cnt),
            consts.wf(),
        ensures
            exists|w: usize|
                task_first_warehouse(warehouse_cnt, task_id, task_cnt) <= w
                    < task_end_warehouse(warehouse_cnt, task_id, task_cnt) && r.w_id == #[trigger] low_u32(w),
            r.d_id < DISTRICT_SCALE,
            match r.c_query {
                CustomerQuery::LastName(n) => n <= 999,
                CustomerQuery::Id(c) => c < CUSTOMER_SCALE,
            },
    {
        let w_id = gen_warehouse(warehouse_cnt, task_id, task_cnt);
        let d_id = rand_range_usize(0, DISTRICT_SCALE);
        let pick = rand_range_inclusive_u64(0, 99);
        let c_query = if pick < 60 {
            CustomerQuery::LastName(consts.nu_rand(255, 0, 999) as u32)
        } else {
            CustomerQuery::Id(consts.nu_rand(1023, 0, (CUSTOMER_SCALE - 1) as u64) as u32)
        };
        let w32 = w_id as u32;
        proof {
            assert(w32 == low_u32(w_id));
        }
        OrderStatusInput { w_id: w32, d_id: d_id as u32, c_query }
    }
}

/// One line of a NEW-ORDER transaction.
#[derive(Debug, Clone, Copy, PartialEq, Eq, Structural)]
pub struct OrderItem {
    pub ol_i_id: u32,
    pub ol_supply_w_id: u16,
    pub ol_quantity: u16,
}

impl OrderItem {
    pub open spec fn spec_empty() -> OrderItem {
        OrderItem { ol_i_id: 0, ol_supply_w_id: 0, ol_quantity: 0 }
    }

    /// The unused line.
    pub fn empty() -> (r: OrderItem)
        ensures
            r == Self::spec_empty(),
    {
        OrderItem { ol_i_id: 0, ol_supply_w_id: 0, ol_quantity: 0 }
    }
}

/// The item id that no item has, which makes a NEW-ORDER transaction roll back.
pub const UNUSED_ITEM_ID: u32 = 100001;

/// The input of a NEW-ORDER transaction.
#[derive(Debug, Clone, Copy, PartialEq, Eq)]
pub struct NewOrderInput {
    pub w_id: u32,
    pub d_id: u32,
    pub c_id: u32,
    pub ol_cnt: u32,
    pub orders: [OrderItem; 15],
    pub o_entry_d: u64,
    pub all_local: bool,
}

/// The low 32 bits of a warehouse id.
pub open spec fn low_u32(s: usize) -> u32 {
    s as u32
}

/// The low 16 bits of a warehouse id.
pub open spec fn low_u16(s: usize) -> u16 {
    s as u16
}

/// The lines of a NEW-ORDER input of `ol_cnt` lines, of which the first `filled` are drawn:
/// those lines ask for consecutive items from
/// `i_id_start` (the last one may ask for the unused item instead), from 1 to 10 of each,
/// from a warehouse below `warehouse_cnt`, which is the home warehouse `w` when the order
/// is all local; the other lines are unused.
pub open spec fn order_lines_ok(
    orders: Seq<OrderItem>,
    filled: int,
    ol_cnt: int,
    i_id_start: u64,
    w: usize,
    warehouse_cnt: usize,
    all_local: bool,
) -> bool {
    &&& orders.len() == 15
    &&& forall|i: int|
        0 <= i < filled ==> {
            &&& ((#[trigger] orders[i]).ol_i_id == i_id_start + i || (i == ol_cnt - 1
                && orders[i].ol_i_id == UNUSED_ITEM_ID))
            &&& 1 <= orders[i].ol_quantity <= 10
            &&& exists|s: usize|
                s < warehouse_cnt && orders[i].ol_supply_w_id == #[trigger] low_u16(s)
            &&& all_local ==> orders[i].ol_supply_w_id == w as u16
        }
    &&& forall|i: int| filled <= i < 15 ==> #[trigger] orders[i] == OrderItem::spec_empty()
}

impl NewOrderInput {
    /// A warehouse of the task, a district, a customer, and 5 to 15 lines (see
    /// `order_lines_ok`); one order in a hundred rolls back, and one line in a hundred comes
    /// from a remote warehouse. `o_entry_d` is the entry time, in seconds.
    pub fn gen(
        warehouse_cnt: usize,
        task_id: usize,
        task_cnt: usize,
        consts: &NuRandConstants,
        o_entry_d: u64,
    ) -> (r: Self)
        requires
            task_warehouses_ok(warehouse_cnt, task_id, task_cnt),
            consts.wf(),
        ensures
            exists|w: usize, i_id_start: u64|
                task_first_warehouse(warehouse_cnt, task_id, task_cnt) <= w
                    < task_end_warehouse(warehouse_cnt, task_id, task_cnt) && r.w_id == #[trigger] low_u32(w)
                    && i_id_start < ITEM_SCALE && #[trigger] order_lines_ok(
                    r.orders@,
                    r.ol_cnt as int,
                    r.ol_cnt as int,
                    i_id_start,
                    w,
                    warehouse_cnt,
                    r.all_local,
                ),
            r.d_id < DISTRICT_SCALE,
            r.c_id < CUSTOMER_SCALE,
            5 <= r.ol_cnt <= 15,
            r.o_entry_d == o_entry_d,
    {
        let w_id = gen_warehouse(warehouse_cnt, task_id, task_cnt);
        let d_id = rand_range_usize(0, DISTRICT_SCALE);
        let c_id = consts.nu_rand(1023, 0, (CUSTOMER_SCALE - 1) as u64);
        let ol_cnt = rand_range_inclusive_u64(5, 15) as usize;
        let rbk = rand_ratio(1, 100);
        let mut orders: [OrderItem; 15] = [OrderItem::empty();15];
        let mut all_local = true;
        let i_id_start = consts.nu_rand(8191, 0, (ITEM_SCALE - 1) as u64);
        let mut i: usize = 0;
        while i < ol_cnt
            invariant
                5 <= ol_cnt <= 15,
                0 <= i <= ol_cnt,
                w_id < warehouse_cnt,
                i_id_start < ITEM_SCALE,
                order_lines_ok(orders@, i as int, ol_cnt as int, i_id_start, w_id, warehouse_cnt, all_local),
            decreases ol_cnt - i,
        {
            let ol_i_id = if i == ol_cnt - 1 && rbk {
                UNUSED_ITEM_ID as u64
            } else {
                i_id_start + i as u64
            };
            let ol_supply_w_id = if rand_ratio(1, 100) {
                all_local = false;
                rand_range_usize(0, warehouse_cnt)
            } else {
                w_id
            };
            let ol_quantity = rand_range_inclusive_u64(1, 10);
            let ghost prev = orders@;
            orders[i] = OrderItem {
                ol_i_id: ol_i_id as u32,
                ol_supply_w_id: ol_supply_w_id as u16,
                ol_quantity: ol_quantity as u16,
            };
            proof {
                let o = orders@;
                assert(o[i as int].ol_supply_w_id == ol_supply_w_id as u16);
                assert(o[i as int].ol_i_id == i_id_start + i || (i == ol_cnt - 1 && o[i as int].ol_i_id
                    == UNUSED_ITEM_ID));
                assert(1 <= o[i as int].ol_quantity <= 10);
                assert(all_local ==> o[i as int].ol_supply_w_id == w_id as u16);
                assert forall|j: int| 0 <= j < i implies #[trigger] o[j] == prev[j] by {}
                assert forall|j: int| i + 1 <= j < 15 implies #[trigger] o[j] == OrderItem::spec_empty() by {
                    assert(o[j] == prev[j]);
                }
                assert forall|j: int| 0 <= j < i + 1 implies exists|s: usize|
                    s < warehouse_cnt && (#[trigger] orders@[j]).ol_supply_w_id == low_u16(s) by {
                    if j == i {
                        assert(orders@[j].ol_supply_w_id == low_u16(ol_supply_w_id));
                    } else {
                        assert(orders@[j] == prev[j]);
                    }
                }
                let ni = i + 1;
                assert forall|j: int| 0 <= j < ni implies ((#[trigger] o[j]).ol_i_id == i_id_start + j
                    || (j == ol_cnt - 1 && o[j].ol_i_id == UNUSED_ITEM_ID)) by {
                    if j < i {
                        assert(o[j] == prev[j]);
                        assert(prev[j].ol_i_id == i_id_start + j || (j == ol_cnt - 1 && prev[j].ol_i_id
                            == UNUSED_ITEM_ID));
                    } else {
                        assert(j == i);
                    }
                }
                assert forall|j: int| 0 <= j < ni implies 1 <= (#[trigger] o[j]).ol_quantity <= 10 by {
                    if j < i {
                        assert(o[j] == prev[j]);
                    }
                }
                assert forall|j: int| 0 <= j < ni && all_local implies (#[trigger] o[j]).ol_supply_w_id
                    == w_id as u16 by {
                    if j < i {
                        assert(o[j] == prev[j]);
                    }
                }
            }
            i += 1;
        }
        let w32 = w_id as u32;
        let r = NewOrderInput {
            w_id: w32,
            d_id: d_id as u32,
            c_id: c_id as u32,
            ol_cnt: ol_cnt as u32,
            orders,
            o_entry_d,
            all_local,
        };
        proof {
            assert(w32 == low_u32(w_id));
            assert(r.ol_cnt as int == ol_cnt as int);
            assert(order_lines_ok(
                r.orders@,
                r.ol_cnt as int,
                r.ol_cnt as int,
                i_id_start,
                w_id,
                warehouse_cnt,
                r.all_local,
            ));
        }
        r
    }
}


/// The input of a PAYMENT transaction: the paying customer, of district `c_d_id` of
/// warehouse `c_w_id`, named by id or by last name, pays `h_amount` (a double, held as its
/// IEEE 754 bits) to district `d_id` of warehouse `w_id` at time `h_date`.
#[derive(Debug, Clone, Copy, PartialEq, Eq, Structural)]
pub struct PaymentInput {
    pub w_id: u32,
    pub d_id: u32,
    pub c_w_id: u32,
    pub c_d_id: u32,
    pub c_query: CustomerQuery,
    pub h_amount: u64,
    pub h_date: u64,
}

impl PaymentInput {
    /// A warehouse of the task, a district, and a customer named by last name (60%) or by
    /// id, each a non-uniform draw with the run's constants; the customer is of the same
    /// district (85%) or of a district of any warehouse. The amount `h_amount` (the bits of
    /// a double drawn by the caller) and the time `h_date` are given.
    pub fn gen(
        warehouse_cnt: usize,
        task_id: usize,
        task_cnt: usize,
        consts: &NuRandConstants,
        h_amount: u64,
        h_date: u64,
    ) -> (r: Self)
        requires
            task_warehouses_ok(warehouse_cnt, task_id, task_cnt),
            consts.wf(),
        ensures
            exists|w: usize|
                task_first_warehouse(warehouse_cnt, task_id, task_cnt) <= w
                    < task_end_warehouse(warehouse_cnt, task_id, task_cnt) && r.w_id == #[trigger] low_u32(w),
            r.d_id < DISTRICT_SCALE,
            match r.c_query {
                CustomerQuery::LastName(n) => n <= 999,
                CustomerQuery::Id(c) => c < CUSTOMER_SCALE,
            },
            (r.c_w_id == r.w_id && r.c_d_id == r.d_id) || (exists|cw: usize|
                cw < warehouse_cnt && r.c_w_id == #[trigger] low_u32(cw)) && r.c_d_id < DISTRICT_SCALE,
            r.h_amount == h_amount,
            r.h_date == h_date,
    {
        let w_id = gen_warehouse(warehouse_cnt, task_id, task_cnt);
        let d_id = rand_range_usize(0, DISTRICT_SCALE);
        let pick = rand_range_inclusive_u64(0, 99);
        let c_query = if pick < 60 {
            CustomerQuery::LastName(consts.nu_rand(255, 0, 999) as u32)
        } else {
            CustomerQuery::Id(consts.nu_rand(1023, 0, (CUSTOMER_SCALE - 1) as u64) as u32)
        };
        let w32 = w_id as u32;
        proof {
            assert(w32 == low_u32(w_id));
        }
        let home = rand_range_inclusive_u64(0, 99);
        let (c_w_id, c_d_id) = if home < 85 {
            (w32, d_id as u32)
        } else {
            let cw = rand_range_usize(0, warehouse_cnt);
            let cd = rand_range_usize(0, DISTRICT_SCALE);
            let cw32 = cw as u32;
            proof {
                assert(cw32 == low_u32(cw));
            }
            (cw32, cd as u32)
        };
        PaymentInput { w_id: w32, d_id: d_id as u32, c_w_id, c_d_id, c_query, h_amount, h_date }
    }
}
} // verus!

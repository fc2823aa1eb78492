use vstd::prelude::*;

use super::schemas::GeneralSchema;
use super::tables::{
    CustomerTuple, DistrictTuple, ItemTuple, OrderLineTuple, OrderTuple, StockTuple,
    WarehouseTuple,
};
use super::schemas::{
    district_row_key, lemma_district_key_fields, lemma_warehouse_key_fields, warehouse_row_key,
    order_row_key, customer_row_key, item_row_key, lemma_customer_key_fields, lemma_item_key_fields,
    lemma_order_line_key_fields, lemma_stock_key_fields, order_line_row_key, stock_row_key,
};
use super::tables::{
    customer_balance, customer_credit, customer_delivery_cnt, customer_discount, customer_key,
    customer_middle, customer_payment_cnt, customer_ytd_payment, item_price, last_name_key,
    district_key, district_next_o_id, district_ytd, warehouse_ytd,
    le_word, lemma_word_at, order_line_amount, order_line_delivery_d, order_line_item,
    order_line_key, stock_key, stock_order_cnt, stock_quantity, stock_remote_cnt,
    stock_ytd, word64_at,
};
use super::tables::{lemma_key_shifts, new_order_key, NewOrderTuple};
use super::workload::{bad_credit, customer_middle_name};
use crate::async_task::test_utils::shuffle_u64;
use super::workload::{unlocked, TpccTable, TpccWorkload};
use super::{CUSTOMER_SCALE, DISTRICT_SCALE, ITEM_SCALE};
use crate::attribute_cache::clock_cache::cache_inner::ClockNode;
use crate::attribute_cache::clock_cache::oid::{lemma_lock_byte, oid_locked};
use crate::attribute_cache::{Rid, Schema, RID_SENTINEL};
use crate::benchmark::utils::{
    align_up, last_name_bytes, last_name_gen, rand_range_inclusive_u64, rand_range_usize,
    rand_ratio, zip_gen, FixedString, NuRandConstants,
};
use crate::table::DbTable;
use crate::index::{Art, DbIndex, RawArt};
use crate::metric::CtxCounter;
use vstd::string::StringSliceAdditionalSpecFns;

verus! {

broadcast use Rid::lemma_spec_from_u32;

/// A megabyte, in bytes.
pub const MB: usize = 1048576;

/// `size` rounded up to a multiple of `align`, a power of two, as `align_up` computes it.
pub open spec fn spec_align_up(size: int, align: int) -> int {
    ((size + align - 1) as usize & !((align - 1) as usize)) as int
}

/// Every schema of type `S` is consistent.
pub open spec fn schemas_wf<S: Schema>() -> bool {
    forall|s: S| #[trigger] s.wf()
}

/// A table of `rows` rows under schema `S`, whose cache takes `cache` bytes of nodes, can
/// be built: the sizes fit in memory, the cache holds at least one node and no
/// more than a 32-bit count, and the storage, rounded up to whole megabytes, holds fewer
/// rows than a record id can name.
pub open spec fn table_fits<S: Schema>(rows: int, cache: int) -> bool {
    let row = vstd::layout::size_of::<S::Tuple>() as int;
    let node = vstd::layout::size_of::<ClockNode<S::Field>>() as int;
    &&& row > 0
    &&& node > 0
    &&& rows * row + MB <= usize::MAX
    &&& spec_align_up(rows * row, MB as int) / row < RID_SENTINEL
    &&& 0 <= cache <= usize::MAX
    &&& 0 < cache / node <= u32::MAX
}

/// The number of orders a run is expected to hold: the `CUSTOMER_SCALE` loaded in each
/// district, and 1,100,000 per thread, scaled by `1 - threads / 50`; none when that sum is
/// negative.
pub open spec fn order_estimate(warehouse_cnt: int, thread_cnt: int) -> int {
    let e = warehouse_cnt * 30000 + 22000 * thread_cnt * (50 - thread_cnt);
    if e < 0 {
        0
    } else {
        e
    }
}

/// `order_estimate` for warehouse counts below 2^32.
fn order_estimate_exec(warehouse_cnt: u64, thread_cnt: usize) -> (r: u64)
    requires
        warehouse_cnt <= u32::MAX,
    ensures
        r == order_estimate(warehouse_cnt as int, thread_cnt as int),
{
    let initial: u64 = warehouse_cnt * 30000;
    if thread_cnt <= 50 {
        let t = thread_cnt as u64;
        assert(0 <= 22000 * t * (50 - t) <= 22000 * 50 * 50) by (nonlinear_arith)
            requires
                t <= 50,
        ;
        let grow: u64 = 22000 * t * (50 - t);
        assert(grow == 22000 * (thread_cnt as int) * (50 - thread_cnt as int));
        initial + grow
    } else if thread_cnt >= 0x10_0000 {
        let ghost t = thread_cnt as int;
        assert(22000 * t * (t - 50) >= 22000 * 0x10_0000 * (0x10_0000 - 50)) by (nonlinear_arith)
            requires
                t >= 0x10_0000,
        ;
        assert(22000 * t * (50 - t) == -(22000 * t * (t - 50))) by (nonlinear_arith);
        0
    } else {
        let t = thread_cnt as u64;
        assert(22000 * t * (t - 50) <= 22000 * 0x10_0000 * 0x10_0000) by (nonlinear_arith)
            requires
                50 < t < 0x10_0000,
        ;
        assert(22000 * t * (50 - t) == -(22000 * t * (t - 50))) by (nonlinear_arith);
        let deficit: u64 = 22000 * t * (t - 50);
        assert(deficit == 22000 * (thread_cnt as int) * (thread_cnt as int - 50));
        if deficit >= initial {
            0
        } else {
            initial - deficit
        }
    }
}

/// Rounding up to whole megabytes adds less than one.
proof fn lemma_align_up_bounds(size: int)
    requires
        0 <= size,
        size + MB <= usize::MAX,
    ensures
        size <= spec_align_up(size, MB as int) <= size + MB - 1,
{
    let s = size as usize;
    let t = (s + 1048575usize) as usize;
    assert(s <= (t & !1048575usize) && (t & !1048575usize) <= t) by (bit_vector)
        requires
            t == s + 1048575usize,
    ;
}

/// A table that fits holds fewer rows than a record id can name.
proof fn lemma_rows_fit<S: Schema>(rows: int, cache: int)
    requires
        0 <= rows,
        table_fits::<S>(rows, cache),
    ensures
        rows < RID_SENTINEL,
        rows <= rows * vstd::layout::size_of::<S::Tuple>(),
{
    let row = vstd::layout::size_of::<S::Tuple>() as int;
    assert(rows <= rows * row) by (nonlinear_arith)
        requires
            row > 0,
            rows >= 0,
    ;
    lemma_align_up_bounds(rows * row);
    let a = spec_align_up(rows * row, MB as int);
    assert(rows <= a / row) by (nonlinear_arith)
        requires
            row > 0,
            rows >= 0,
            rows * row <= a,
    ;
}

/// The bytes of storage of a table of `rows` rows of type `T`, rounded up to whole
/// megabytes.
fn storage_bytes<T>(rows: usize) -> (r: usize)
    requires
        rows * vstd::layout::size_of::<T>() + MB <= usize::MAX,
    ensures
        r == spec_align_up(rows * vstd::layout::size_of::<T>(), MB as int),
{
    align_up(rows * core::mem::size_of::<T>(), MB)
}

/// The schema keys each row whose key, as `key` computes it from the row, fits in 64 bits:
/// by that key.
pub open spec fn keyed_by<S: Schema>(s: S, key: spec_fn(<S::Tuple as View>::V) -> int) -> bool {
    forall|t: <S::Tuple as View>::V|
        #![trigger s.key_ok(t)]
        #![trigger s.spec_key(t)]
        key(t) <= u64::MAX ==> s.key_ok(t) && s.spec_key(t) == key(t) as usize
}

/// The entries `e` with the key `key(j)` leading to record `base + j`, for each `j` below
/// `n`.
pub open spec fn entries_with_keys(
    e: Map<usize, Rid>,
    key: spec_fn(int) -> usize,
    base: int,
    n: int,
) -> Map<usize, Rid>
    decreases n,
{
    if n <= 0 {
        e
    } else {
        entries_with_keys(e, key, base, n - 1).insert(
            key(n - 1),
            Rid::spec_from_u32((base + n - 1) as u32),
        )
    }
}

/// Keys that agree below `n` give the same entries.
proof fn lemma_entries_with_keys_agree(
    e: Map<usize, Rid>,
    k1: spec_fn(int) -> usize,
    k2: spec_fn(int) -> usize,
    base: int,
    n: int,
)
    requires
        forall|j: int| 0 <= j < n ==> #[trigger] k1(j) == k2(j),
    ensures
        entries_with_keys(e, k1, base, n) == entries_with_keys(e, k2, base, n),
    decreases n,
{
    if n > 0 {
        lemma_entries_with_keys_agree(e, k1, k2, base, n - 1);
    }
}

/// A stock row as loaded: that of item `i_id` in warehouse `w_id`, holding from 10 to 100 of
/// it, with nothing sold yet.
pub open spec fn loaded_stock(row: Seq<u8>, w_id: u64, i_id: u64) -> bool {
    &&& stock_row_key(row) == stock_key(w_id, i_id)
    &&& 10 <= stock_quantity(row) <= 100
    &&& stock_ytd(row) == 0
    &&& stock_order_cnt(row) == 0
    &&& stock_remote_cnt(row) == 0
}

/// An item row as loaded: that of item `i_id`, priced `price`, with an image id from 1 to
/// 10,000.
pub open spec fn loaded_item(row: Seq<u8>, i_id: u64, price: u64) -> bool {
    &&& item_row_key(row) == i_id
    &&& item_price(row) == price
    &&& 1 <= word64_at(row, 8) <= 10000
}

/// The bits of the double 50,000.0: the credit limit of every customer.
pub const CREDIT_LIMIT: u64 = 0x40e8_6a00_0000_0000;

/// The bits of the double -10.0: the balance every customer starts with.
pub const INITIAL_BALANCE: u64 = 0xc024_0000_0000_0000;

/// The bits of the double 10.0: the year-to-date payment every customer starts with.
pub const INITIAL_YTD_PAYMENT: u64 = 0x4024_0000_0000_0000;

/// The bytes of the credit of a customer in good standing.
pub open spec fn good_credit() -> Seq<u8> {
    seq![71u8, 67u8]
}

/// The last name of a customer row.
pub open spec fn customer_last(c: Seq<u8>) -> Seq<u8> {
    c.subrange(30, 46)
}

/// A customer row as loaded: customer `c_id` of district `d_id` of warehouse `w_id`, a
/// customer since `since`, with the last name of `seed`, the middle name "OE", either
/// credit, the discount `discount` (the bits of a double), and the starting balance,
/// payments and credit limit.
pub open spec fn loaded_customer(
    row: Seq<u8>,
    w_id: u64,
    d_id: u64,
    c_id: u64,
    since: u64,
    seed: u32,
    discount: u64,
) -> bool {
    &&& customer_row_key(row) == customer_key(w_id, d_id, c_id)
    &&& customer_last(row) == last_name_bytes(seed)
    &&& customer_middle(row) == customer_middle_name()
    &&& (customer_credit(row) == bad_credit() || customer_credit(row) == good_credit())
    &&& word64_at(row, 132) == since
    &&& word64_at(row, 142) == CREDIT_LIMIT
    &&& customer_discount(row) == discount
    &&& customer_balance(row) == INITIAL_BALANCE
    &&& customer_ytd_payment(row) == INITIAL_YTD_PAYMENT
    &&& customer_payment_cnt(row) == 1
    &&& customer_delivery_cnt(row) == 0
}

/// The first order id of a district that loading leaves undelivered.
pub const FIRST_NEW_ORDER: u64 = 2101;

/// The amounts a district's loading takes: fifteen, the most lines an order has, for each
/// order it leaves undelivered.
pub const NEW_ORDER_AMOUNTS: usize = 13485;

/// The entries `e` with the key `key(j)` leading to record `j`, for each `j` from `lo` up to
/// `hi`.
pub open spec fn entries_with_records(
    e: Map<usize, Rid>,
    key: spec_fn(int) -> usize,
    lo: int,
    hi: int,
) -> Map<usize, Rid>
    decreases hi - lo,
{
    if hi <= lo {
        e
    } else {
        entries_with_records(e, key, lo, hi - 1).insert(key(hi - 1), Rid::spec_from_u32((hi - 1) as u32))
    }
}

/// Keys that agree on the records give the same entries.
proof fn lemma_entries_with_records_agree(
    e: Map<usize, Rid>,
    k1: spec_fn(int) -> usize,
    k2: spec_fn(int) -> usize,
    lo: int,
    hi: int,
)
    requires
        forall|j: int| lo <= j < hi ==> #[trigger] k1(j) == k2(j),
    ensures
        entries_with_records(e, k1, lo, hi) == entries_with_records(e, k2, lo, hi),
    decreases hi - lo,
{
    if hi > lo {
        lemma_entries_with_records_agree(e, k1, k2, lo, hi - 1);
    }
}

/// Entering the records from `lo` up to `mid`, then those up to `hi`, enters those from
/// `lo` up to `hi`.
proof fn lemma_entries_with_records_split(
    e: Map<usize, Rid>,
    key: spec_fn(int) -> usize,
    lo: int,
    mid: int,
    hi: int,
)
    requires
        lo <= mid <= hi,
    ensures
        entries_with_records(entries_with_records(e, key, lo, mid), key, mid, hi)
            == entries_with_records(e, key, lo, hi),
    decreases hi - mid,
{
    if hi > mid {
        lemma_entries_with_records_split(e, key, lo, mid, hi - 1);
    }
}

/// The amount (the bits of a double) of line `l` of order `o_id` as loaded: nothing for a
/// delivered order, else one of `amounts`, fifteen to an order.
pub open spec fn line_amount(amounts: Seq<u64>, o_id: u64, l: int) -> u64 {
    if o_id < FIRST_NEW_ORDER {
        0
    } else {
        amounts[(o_id - FIRST_NEW_ORDER) * 15 + l]
    }
}

/// An order-line row as loaded: a line of order `o_id` of district `d_id` of warehouse
/// `w_id`, which has `cnt` lines and was entered at `entry_d`, for five of item `i_id` from
/// the same warehouse, worth `amount`, delivered at the entry for an order below
/// `FIRST_NEW_ORDER` and not yet after.
pub open spec fn loaded_order_line(
    row: Seq<u8>,
    w_id: u64,
    d_id: u64,
    o_id: u64,
    cnt: u64,
    entry_d: u64,
    amount: u64,
    i_id: u64,
) -> bool {
    &&& word64_at(row, 0) == o_id
    &&& word64_at(row, 8) == d_id
    &&& order_line_item(row) == i_id
    &&& word64_at(row, 24) == w_id
    &&& word64_at(row, 32) == 5
    &&& order_line_delivery_d(row) == if o_id < FIRST_NEW_ORDER {
        entry_d
    } else {
        0
    }
    &&& order_line_amount(row) == amount
    &&& word64_at(row, 56) == cnt
    &&& word64_at(row, 64) == w_id
    &&& order_line_row_key(row) == order_line_key(w_id, d_id, o_id, i_id)
}

/// The entries `e` of the new-order index with each key `key(o)`, for the orders `o` from
/// `lo` up to `hi`, leading to itself.
pub open spec fn new_orders_with(
    e: Map<usize, usize>,
    key: spec_fn(int) -> usize,
    lo: int,
    hi: int,
) -> Map<usize, usize>
    decreases hi - lo,
{
    if hi <= lo {
        e
    } else {
        new_orders_with(e, key, lo, hi - 1).insert(key(hi - 1), key(hi - 1))
    }
}

/// Keys that agree on the orders give the same entries.
proof fn lemma_new_orders_with_agree(
    e: Map<usize, usize>,
    k1: spec_fn(int) -> usize,
    k2: spec_fn(int) -> usize,
    lo: int,
    hi: int,
)
    requires
        forall|j: int| lo <= j < hi ==> #[trigger] k1(j) == k2(j),
    ensures
        new_orders_with(e, k1, lo, hi) == new_orders_with(e, k2, lo, hi),
    decreases hi - lo,
{
    if hi > lo {
        lemma_new_orders_with_agree(e, k1, k2, lo, hi - 1);
    }
}

/// An order row as loaded: order `o_id` of district `d_id` of warehouse `w_id`, entered at
/// `entry_d`, all local, with from 5 to 15 lines, and a carrier from 1 to 10 for an order
/// below `FIRST_NEW_ORDER` and none after.
pub open spec fn loaded_order(row: Seq<u64>, w_id: u64, d_id: u64, o_id: u64, entry_d: u64) -> bool {
    &&& row.len() == 8
    &&& row[0] == o_id
    &&& row[2] == entry_d
    &&& if o_id < FIRST_NEW_ORDER {
        1 <= row[3] <= 10
    } else {
        row[3] == 0
    }
    &&& row[4] == d_id
    &&& row[5] == w_id
    &&& 5 <= row[6] <= 15
    &&& row[7] == 1
}

/// The number of lines of the first `n` of the orders from record `base` of `orders`.
pub open spec fn lines_before(orders: Seq<Seq<u64>>, base: int, n: int) -> int
    decreases n,
{
    if n <= 0 {
        0
    } else {
        lines_before(orders, base, n - 1) + orders[base + n - 1][6]
    }
}

/// Orders whose line counts agree have as many lines before each of them.
proof fn lemma_lines_before_agree(a: Seq<Seq<u64>>, b: Seq<Seq<u64>>, base: int, n: int)
    requires
        forall|j: int| 0 <= j < n ==> #[trigger] a[base + j][6] == b[base + j][6],
    ensures
        lines_before(a, base, n) == lines_before(b, base, n),
    decreases n,
{
    if n > 0 {
        lemma_lines_before_agree(a, b, base, n - 1);
    }
}

/// The lines before an order are no more than those before a later one.
proof fn lemma_lines_before_monotone(orders: Seq<Seq<u64>>, base: int, a: int, b: int)
    requires
        0 <= a <= b,
    ensures
        lines_before(orders, base, a) <= lines_before(orders, base, b),
    decreases b - a,
{
    if a < b {
        lemma_lines_before_monotone(orders, base, a, b - 1);
    }
}

/// Orders of at most fifteen lines have at most fifteen lines each before them.
proof fn lemma_lines_before_bounded(orders: Seq<Seq<u64>>, base: int, n: int)
    requires
        0 <= n,
        forall|j: int| 0 <= j < n ==> #[trigger] orders[base + j][6] <= 15,
    ensures
        lines_before(orders, base, n) <= 15 * n,
    decreases n,
{
    if n > 0 {
        lemma_lines_before_bounded(orders, base, n - 1);
        assert(orders[base + (n - 1)][6] <= 15);
    }
}

/// A permutation of the numbers below `n` holds only numbers below `n`.
proof fn lemma_permutation_below(v: Seq<u64>, n: nat)
    requires
        v.to_multiset() == Seq::new(n, |c: int| c as u64).to_multiset(),
        n <= u64::MAX,
    ensures
        forall|k: int| 0 <= k < v.len() ==> #[trigger] v[k] < n,
{
    broadcast use vstd::seq_lib::group_to_multiset_ensures;

    let s = Seq::new(n, |c: int| c as u64);
    assert forall|k: int| 0 <= k < v.len() implies #[trigger] v[k] < n by {
        assert(v.contains(v[k]));
        assert(v.to_multiset().count(v[k]) > 0);
        assert(s.contains(v[k]));
        let j = choose|j: int| 0 <= j < s.len() && s[j] == v[k];
        assert(s[j] == j as u64);
    }
}

/// The bits of the double 300,000.0: the year-to-date balance every warehouse starts with.
pub const WAREHOUSE_YTD: u64 = 0x4112_4f80_0000_0000;

/// The bits of the double 30,000.0: the year-to-date balance every district starts with.
pub const DISTRICT_YTD: u64 = 0x40dd_4c00_0000_0000;

/// The next order id of every district after loading.
pub const FIRST_NEXT_O_ID: u64 = 3001;

/// A warehouse row as loaded: warehouse `w_id`, with the tax rate `tax` (the bits of a
/// double) and the starting balance.
pub open spec fn loaded_warehouse(row: Seq<u8>, w_id: u64, tax: u64) -> bool {
    &&& warehouse_row_key(row) == w_id
    &&& word64_at(row, 88) == tax
    &&& warehouse_ytd(row) == WAREHOUSE_YTD
}

/// A district row as loaded: district `d_id` of warehouse `w_id`, with the tax rate `tax`
/// (the bits of a double), the starting balance, and `FIRST_NEXT_O_ID` as its next order
/// id.
pub open spec fn loaded_district(row: Seq<u8>, w_id: u64, d_id: u64, tax: u64) -> bool {
    &&& district_row_key(row) == district_key(w_id, d_id)
    &&& word64_at(row, 96) == tax
    &&& district_ytd(row) == DISTRICT_YTD
    &&& district_next_o_id(row) == FIRST_NEXT_O_ID
}

/// Inserts `record` into table `t`, none of whose records is locked, and gives its write
/// lock back at once: the record gets the next record id, and its key leads to it.
fn insert_row<S: Schema>(t: &mut DbTable<Art, S>, record: S::Tuple, guard: &<Art as DbIndex>::Guard) -> (r: Rid)
    requires
        old(t).wf(),
        unlocked(*old(t)),
        old(t).spec_cache().len() < old(t).spec_cache().capacity(),
        old(t).spec_cache().spec_schema().key_ok(record@),
    ensures
        final(t).wf(),
        unlocked(*final(t)),
        r == Rid::spec_from_u32(old(t).spec_cache().len() as u32),
        final(t).spec_cache().len() == old(t).spec_cache().len() + 1,
        final(t).spec_cache().records() == old(t).spec_cache().records().push(record@),
        final(t).entries() == old(t).entries().insert(
            old(t).spec_cache().spec_schema().spec_key(record@),
            r,
        ),
        final(t).spec_cache().spec_schema() == old(t).spec_cache().spec_schema(),
        final(t).spec_cache().capacity() == old(t).spec_cache().capacity(),
{
    let ghost before = *t;
    let (rid, lock) = t.insert(record, guard);
    let ghost inserted = *t;
    proof {
        assert(inserted.spec_cache().records().len() == before.spec_cache().records().len() + 1);
    }
    t.write_unlock(rid, lock);
    proof {
        assert forall|q: int| 0 <= q < t.spec_cache().len() implies !oid_locked(
            #[trigger] t.spec_cache().locks()[q].word(),
        ) by {
            if q != rid.id() {
                assert(q < before.spec_cache().len());
                assert(t.spec_cache().locks()[q] == inserted.spec_cache().locks()[q]);
                lemma_lock_byte(
                    inserted.spec_cache().locks()[q].word(),
                    before.spec_cache().locks()[q].word(),
                );
            }
        }
        broadcast use Rid::lemma_id_determines;

        Rid::lemma_spec_from_u32(before.spec_cache().len() as u32);
    }
    rid
}

impl<W, D, C, I, S, O, OL> TpccWorkload<W, D, C, I, S, O, OL> where
    GeneralSchema<W>: Schema<Tuple = WarehouseTuple>,
    GeneralSchema<D>: Schema<Tuple = DistrictTuple>,
    GeneralSchema<C>: Schema<Tuple = CustomerTuple>,
    GeneralSchema<I>: Schema<Tuple = ItemTuple>,
    GeneralSchema<S>: Schema<Tuple = StockTuple>,
    GeneralSchema<O>: Schema<Tuple = OrderTuple>,
    GeneralSchema<OL>: Schema<Tuple = OrderLineTuple>,
 {
    /// Empty tables sized for `warehouse_cnt` warehouses and a run of `thread_cnt` threads:
    /// each storage holds the rows of its table (the orders as `order_estimate` counts them,
    /// twelve order lines to an order), rounded up to whole megabytes; each cache takes the
    /// megabytes given for it, the order lines' ten. Every table probes `probe_len` slots
    /// but the order and order-line tables, which probe none.
    pub fn new(
        warehouse_cnt: usize,
        thread_cnt: usize,
        probe_len: Option<usize>,
        w_cache_size_mb: usize,
        d_cache_size_mb: usize,
        c_cache_size_mb: usize,
        i_cache_size_mb: usize,
        s_cache_size_mb: usize,
        o_cache_size_mb: usize,
    ) -> (r: Self)
        requires
            schemas_wf::<GeneralSchema<W>>(),
            schemas_wf::<GeneralSchema<D>>(),
            schemas_wf::<GeneralSchema<C>>(),
            schemas_wf::<GeneralSchema<I>>(),
            schemas_wf::<GeneralSchema<S>>(),
            schemas_wf::<GeneralSchema<O>>(),
            schemas_wf::<GeneralSchema<OL>>(),
            table_fits::<GeneralSchema<W>>(warehouse_cnt as int, w_cache_size_mb * MB),
            table_fits::<GeneralSchema<D>>(warehouse_cnt * DISTRICT_SCALE, d_cache_size_mb * MB),
            table_fits::<GeneralSchema<C>>(
                warehouse_cnt * DISTRICT_SCALE * CUSTOMER_SCALE,
                c_cache_size_mb * MB,
            ),
            table_fits::<GeneralSchema<I>>(ITEM_SCALE as int, i_cache_size_mb * MB),
            table_fits::<GeneralSchema<S>>(warehouse_cnt * ITEM_SCALE, s_cache_size_mb * MB),
            table_fits::<GeneralSchema<O>>(
                order_estimate(warehouse_cnt as int, thread_cnt as int),
                o_cache_size_mb * MB,
            ),
            table_fits::<GeneralSchema<OL>>(
                order_estimate(warehouse_cnt as int, thread_cnt as int) * 12,
                10 * MB,
            ),
        ensures
            r.wf(),
            r.unlocked(),
            r.warehouse_cnt == warehouse_cnt,
            r.warehouse.spec_cache().len() == 0,
            r.district.spec_cache().len() == 0,
            r.customer.spec_cache().len() == 0,
            r.item.spec_cache().len() == 0,
            r.stock.spec_cache().len() == 0,
            r.order.spec_cache().len() == 0,
            r.order_line.spec_cache().len() == 0,
            r.c_last_idx.entries().is_empty(),
            r.new_order.entries().is_empty(),
            r.warehouse.spec_cache().capacity() == spec_align_up(
                warehouse_cnt * vstd::layout::size_of::<WarehouseTuple>(),
                MB as int,
            ) / (vstd::layout::size_of::<WarehouseTuple>() as int),
            r.district.spec_cache().capacity() == spec_align_up(
                warehouse_cnt * DISTRICT_SCALE * vstd::layout::size_of::<DistrictTuple>(),
                MB as int,
            ) / (vstd::layout::size_of::<DistrictTuple>() as int),
            r.customer.spec_cache().capacity() == spec_align_up(
                warehouse_cnt * DISTRICT_SCALE * CUSTOMER_SCALE * vstd::layout::size_of::<
                    CustomerTuple,
                >(),
                MB as int,
            ) / (vstd::layout::size_of::<CustomerTuple>() as int),
            r.item.spec_cache().capacity() == spec_align_up(
                ITEM_SCALE * vstd::layout::size_of::<ItemTuple>(),
                MB as int,
            ) / (vstd::layout::size_of::<ItemTuple>() as int),
            r.stock.spec_cache().capacity() == spec_align_up(
                warehouse_cnt * ITEM_SCALE * vstd::layout::size_of::<StockTuple>(),
                MB as int,
            ) / (vstd::layout::size_of::<StockTuple>() as int),
            r.order.spec_cache().capacity() == spec_align_up(
                order_estimate(warehouse_cnt as int, thread_cnt as int) * vstd::layout::size_of::<
                    OrderTuple,
                >(),
                MB as int,
            ) / (vstd::layout::size_of::<OrderTuple>() as int),
            r.order_line.spec_cache().capacity() == spec_align_up(
                order_estimate(warehouse_cnt as int, thread_cnt as int) * 12
                    * vstd::layout::size_of::<OrderLineTuple>(),
                MB as int,
            ) / (vstd::layout::size_of::<OrderLineTuple>() as int),
    {
        proof {
            lemma_rows_fit::<GeneralSchema<W>>(warehouse_cnt as int, w_cache_size_mb * MB);
            lemma_rows_fit::<GeneralSchema<D>>(warehouse_cnt * DISTRICT_SCALE, d_cache_size_mb * MB);
            lemma_rows_fit::<GeneralSchema<C>>(
                warehouse_cnt * DISTRICT_SCALE * CUSTOMER_SCALE,
                c_cache_size_mb * MB,
            );
            lemma_rows_fit::<GeneralSchema<S>>(warehouse_cnt * ITEM_SCALE, s_cache_size_mb * MB);
            lemma_rows_fit::<GeneralSchema<OL>>(
                order_estimate(warehouse_cnt as int, thread_cnt as int) * 12,
                10 * MB,
            );
        }
        let w_size = storage_bytes::<WarehouseTuple>(warehouse_cnt);
        let warehouse = TpccTable::<W>::builder().cache(w_cache_size_mb * MB).storage(
            w_size,
        ).schema(GeneralSchema::new()).probe_len(probe_len).build();
        let d_size = storage_bytes::<DistrictTuple>(warehouse_cnt * DISTRICT_SCALE);
        let district = TpccTable::<D>::builder().cache(d_cache_size_mb * MB).storage(
            d_size,
        ).schema(GeneralSchema::new()).probe_len(probe_len).build();
        let c_size = storage_bytes::<CustomerTuple>(
            warehouse_cnt * DISTRICT_SCALE * CUSTOMER_SCALE,
        );
        let customer = TpccTable::<C>::builder().cache(c_cache_size_mb * MB).storage(
            c_size,
        ).schema(GeneralSchema::new()).metric_context(CtxCounter::Customer).probe_len(
            probe_len,
        ).build();
        let i_size = storage_bytes::<ItemTuple>(ITEM_SCALE);
        let item = TpccTable::<I>::builder().cache(i_cache_size_mb * MB).storage(i_size).schema(
            GeneralSchema::new(),
        ).probe_len(probe_len).build();
        let s_size = storage_bytes::<StockTuple>(warehouse_cnt * ITEM_SCALE);
        let stock = TpccTable::<S>::builder().cache(s_cache_size_mb * MB).storage(
            s_size,
        ).schema(GeneralSchema::new()).metric_context(CtxCounter::Stock).probe_len(
            probe_len,
        ).build();
        let o_cnt = order_estimate_exec(warehouse_cnt as u64, thread_cnt) as usize;
        let o_size = storage_bytes::<OrderTuple>(o_cnt);
        let order = TpccTable::<O>::builder().cache(o_cache_size_mb * MB).storage(
            o_size,
        ).schema(GeneralSchema::new()).metric_context(CtxCounter::Order).probe_len(
            Some(0),
        ).build();
        // Order lines come about ten to an order, mostly in sequence, and so fast that a
        // cache of them would only flood: theirs is kept small.
        let ol_size = storage_bytes::<OrderLineTuple>(o_cnt * 12);
        let order_line = TpccTable::<OL>::builder().cache(10 * MB).storage(ol_size).schema(
            GeneralSchema::new(),
        ).probe_len(Some(0)).build();
        TpccWorkload {
            warehouse_cnt: warehouse_cnt as u32,
            warehouse,
            district,
            customer,
            c_last_idx: Art::new(),
            item,
            stock,
            order,
            order_line,
            new_order: RawArt::new(),
        }
    }

    /// What `load_stock` leaves `after` holding, from `self`, for warehouse `w_id`: a stock
    /// row for each of the `ITEM_SCALE` items follows the records of `self`, as loaded, and
    /// the key of each leads to it; nothing else changes.
    pub open spec fn stock_loaded(&self, after: Self, w_id: u64) -> bool {
        &&& after.stock.spec_cache().len() == self.stock.spec_cache().len() + ITEM_SCALE
        &&& after.stock.spec_cache().records().take(self.stock.spec_cache().len() as int)
            == self.stock.spec_cache().records()
        &&& forall|i: int|
            0 <= i < ITEM_SCALE ==> loaded_stock(
                #[trigger] after.stock.spec_cache().records()[self.stock.spec_cache().len() + i],
                w_id,
                i as u64,
            )
        &&& after.stock.entries() == entries_with_keys(
            self.stock.entries(),
            |j: int| stock_key(w_id, j as u64) as usize,
            self.stock.spec_cache().len() as int,
            ITEM_SCALE as int,
        )
        &&& after.stock.spec_cache().spec_schema() == self.stock.spec_cache().spec_schema()
        &&& after.stock.spec_cache().capacity() == self.stock.spec_cache().capacity()
        &&& after.warehouse == self.warehouse
        &&& after.district == self.district
        &&& after.customer == self.customer
        &&& after.item == self.item
        &&& after.order == self.order
        &&& after.order_line == self.order_line
        &&& after.c_last_idx == self.c_last_idx
        &&& after.new_order == self.new_order
        &&& after.warehouse_cnt == self.warehouse_cnt
    }

    /// Loads the stock of warehouse `w_id`: a row for each of the `ITEM_SCALE` items, in
    /// order, holding from 10 to 100 of it with nothing sold yet, and random strings, a tenth
    /// of whose data holds "ORIGINAL" at a random place. The rows take the next record ids
    /// and their keys lead to them; no other table changes.
    pub fn load_stock(&mut self, w_id: u64)
        requires
            old(self).wf(),
            unlocked(old(self).stock),
            w_id < 0x1_0000_0000,
            old(self).stock.spec_cache().len() + ITEM_SCALE <= old(self).stock.spec_cache().capacity(),
            keyed_by(old(self).stock.spec_cache().spec_schema(), |t: Seq<u8>| stock_row_key(t)),
        ensures
            final(self).wf(),
            unlocked(final(self).stock),
            old(self).stock_loaded(*final(self), w_id),
    {
        let guard = self.stock.pin();
        let ghost s0 = self.stock;
        let ghost base = s0.spec_cache().len() as int;
        let ghost key = |j: int| stock_key(w_id, j as u64) as usize;
        let mut i: u64 = 0;
        while i < ITEM_SCALE as u64
            invariant
                0 <= i <= ITEM_SCALE,
                w_id < 0x1_0000_0000,
                s0 == old(self).stock,
                base == s0.spec_cache().len(),
                base + ITEM_SCALE <= s0.spec_cache().capacity(),
                keyed_by(s0.spec_cache().spec_schema(), |t: Seq<u8>| stock_row_key(t)),
                key == |j: int| stock_key(w_id, j as u64) as usize,
                self.wf(),
                unlocked(self.stock),
                self.stock.spec_cache().len() == base + i,
                self.stock.spec_cache().records().take(base) == s0.spec_cache().records(),
                forall|j: int|
                    0 <= j < i ==> loaded_stock(
                        #[trigger] self.stock.spec_cache().records()[base + j],
                        w_id,
                        j as u64,
                    ),
                self.stock.entries() == entries_with_keys(s0.entries(), key, base, i as int),
                self.stock.spec_cache().spec_schema() == s0.spec_cache().spec_schema(),
                self.stock.spec_cache().capacity() == s0.spec_cache().capacity(),
                self.warehouse == old(self).warehouse,
                self.district == old(self).district,
                self.customer == old(self).customer,
                self.item == old(self).item,
                self.order == old(self).order,
                self.order_line == old(self).order_line,
                self.c_last_idx == old(self).c_last_idx,
                self.new_order == old(self).new_order,
                self.warehouse_cnt == old(self).warehouse_cnt,
            decreases ITEM_SCALE - i,
        {
            let mut s_data = FixedString::<24>::rand_gen();
            if rand_ratio(1, 10) {
                proof {
                    reveal_strlit("ORIGINAL");
                    vstd::string::is_ascii_spec_bytes("ORIGINAL");
                    assert(vstd::string::is_ascii("ORIGINAL"));
                    assert("ORIGINAL".spec_bytes().len() == 8);
                }
                // "ORIGINAL" goes at a random place where it fits in the data.
                let start = rand_range_usize(0, 16);
                s_data.copy_from("ORIGINAL", start);
            }
            let row = StockTuple {
                s_i_id: i,
                s_w_id: w_id,
                s_quantity: rand_range_inclusive_u64(10, 100),
                s_ytd: 0,
                s_order_cnt: 0,
                s_remote_cnt: 0,
                s_data,
                s_dist01: FixedString::rand_gen(),
                s_dist02: FixedString::rand_gen(),
                s_dist03: FixedString::rand_gen(),
                s_dist04: FixedString::rand_gen(),
                s_dist05: FixedString::rand_gen(),
                s_dist06: FixedString::rand_gen(),
                s_dist07: FixedString::rand_gen(),
                s_dist08: FixedString::rand_gen(),
                s_dist09: FixedString::rand_gen(),
                s_dist10: FixedString::rand_gen(),
            };
            let ghost before = self.stock;
            proof {
                row.lemma_words();
                lemma_stock_key_fields(row);
                lemma_key_shifts();
                assert((w_id << 32u64) <= 0xffff_ffff_0000_0000u64);
                assert(stock_row_key(row@) == stock_key(w_id, i));
                assert(s0.spec_cache().spec_schema().key_ok(row@));
                assert(s0.spec_cache().spec_schema().spec_key(row@) == key(i as int));
            }
            insert_row(&mut self.stock, row, &guard);
            proof {
                assert(self.stock.spec_cache().records().take(base) =~= s0.spec_cache().records());
                assert forall|j: int| 0 <= j < i + 1 implies loaded_stock(
                    #[trigger] self.stock.spec_cache().records()[base + j],
                    w_id,
                    j as u64,
                ) by {
                    if j < i {
                        assert(self.stock.spec_cache().records()[base + j]
                            == before.spec_cache().records()[base + j]);
                    }
                }
            }
            i += 1;
        }
    }

    /// Loads the `ITEM_SCALE` items, in order: item `i` is priced `prices[i]` (the bits of a
    /// double) and has an image id from 1 to 10,000 and random strings, a tenth of whose
    /// data holds "ORIGINAL" at a random place. The rows take the next record ids and their keys
    /// lead to them; no other table changes.
    pub fn load_item(&mut self, prices: &[u64])
        requires
            old(self).wf(),
            unlocked(old(self).item),
            prices@.len() == ITEM_SCALE,
            old(self).item.spec_cache().len() + ITEM_SCALE <= old(self).item.spec_cache().capacity(),
            keyed_by(old(self).item.spec_cache().spec_schema(), |t: Seq<u8>| item_row_key(t)),
        ensures
            final(self).wf(),
            unlocked(final(self).item),
            final(self).item.spec_cache().len() == old(self).item.spec_cache().len() + ITEM_SCALE,
            final(self).item.spec_cache().records().take(old(self).item.spec_cache().len() as int)
                == old(self).item.spec_cache().records(),
            forall|i: int|
                0 <= i < ITEM_SCALE ==> loaded_item(
                    #[trigger] final(self).item.spec_cache().records()[old(self).item.spec_cache().len() + i],
                    i as u64,
                    prices@[i],
                ),
            final(self).item.entries() == entries_with_keys(
                old(self).item.entries(),
                |j: int| j as usize,
                old(self).item.spec_cache().len() as int,
                ITEM_SCALE as int,
            ),
            final(self).item.spec_cache().spec_schema() == old(self).item.spec_cache().spec_schema(),
            final(self).item.spec_cache().capacity() == old(self).item.spec_cache().capacity(),
            final(self).warehouse == old(self).warehouse,
            final(self).district == old(self).district,
            final(self).customer == old(self).customer,
            final(self).stock == old(self).stock,
            final(self).order == old(self).order,
            final(self).order_line == old(self).order_line,
            final(self).c_last_idx == old(self).c_last_idx,
            final(self).new_order == old(self).new_order,
            final(self).warehouse_cnt == old(self).warehouse_cnt,
    {
        let guard = self.item.pin();
        let ghost t0 = self.item;
        let ghost base = t0.spec_cache().len() as int;
        let ghost key = |j: int| j as usize;
        let mut i: u64 = 0;
        while i < ITEM_SCALE as u64
            invariant
                0 <= i <= ITEM_SCALE,
                prices@.len() == ITEM_SCALE,
                t0 == old(self).item,
                base == t0.spec_cache().len(),
                base + ITEM_SCALE <= t0.spec_cache().capacity(),
                keyed_by(t0.spec_cache().spec_schema(), |t: Seq<u8>| item_row_key(t)),
                key == |j: int| j as usize,
                self.wf(),
                unlocked(self.item),
                self.item.spec_cache().len() == base + i,
                self.item.spec_cache().records().take(base) == t0.spec_cache().records(),
                forall|j: int|
                    0 <= j < i ==> loaded_item(
                        #[trigger] self.item.spec_cache().records()[base + j],
                        j as u64,
                        prices@[j],
                    ),
                self.item.entries() == entries_with_keys(t0.entries(), key, base, i as int),
                self.item.spec_cache().spec_schema() == t0.spec_cache().spec_schema(),
                self.item.spec_cache().capacity() == t0.spec_cache().capacity(),
                self.warehouse == old(self).warehouse,
                self.district == old(self).district,
                self.customer == old(self).customer,
                self.stock == old(self).stock,
                self.order == old(self).order,
                self.order_line == old(self).order_line,
                self.c_last_idx == old(self).c_last_idx,
                self.new_order == old(self).new_order,
                self.warehouse_cnt == old(self).warehouse_cnt,
            decreases ITEM_SCALE - i,
        {
            let i_im_id = rand_range_inclusive_u64(1, 10_000);
            let i_name = FixedString::<24>::rand_gen();
            let mut i_data = FixedString::<50>::rand_gen();
            if rand_ratio(1, 10) {
                proof {
                    reveal_strlit("ORIGINAL");
                    vstd::string::is_ascii_spec_bytes("ORIGINAL");
                    assert(vstd::string::is_ascii("ORIGINAL"));
                    assert("ORIGINAL".spec_bytes().len() == 8);
                }
                let start = rand_range_usize(0, 42);
                i_data.copy_from("ORIGINAL", start);
            }
            let row = ItemTuple { i_id: i, i_im_id, i_price: prices[i as usize], i_name, i_data };
            let ghost before = self.item;
            proof {
                row.lemma_price();
                lemma_item_key_fields(row);
                row.lemma_len();
                row.i_name.lemma_len();
                row.i_data.lemma_len();
                vstd::bytes::lemma_auto_spec_u64_to_from_le_bytes();
                assert(row@.subrange(8, 16) =~= le_word(row.i_im_id));
                lemma_word_at(row@, 8, row.i_im_id);
                assert(item_row_key(row@) == i);
                assert(t0.spec_cache().spec_schema().key_ok(row@));
                assert(t0.spec_cache().spec_schema().spec_key(row@) == key(i as int));
            }
            insert_row(&mut self.item, row, &guard);
            proof {
                assert(self.item.spec_cache().records().take(base) =~= t0.spec_cache().records());
                assert forall|j: int| 0 <= j < i + 1 implies loaded_item(
                    #[trigger] self.item.spec_cache().records()[base + j],
                    j as u64,
                    prices@[j],
                ) by {
                    if j < i {
                        assert(self.item.spec_cache().records()[base + j]
                            == before.spec_cache().records()[base + j]);
                    }
                }
            }
            i += 1;
        }
    }

    /// Loads customer `c_id` of district `d_id` of warehouse `w_id`, a customer since
    /// `customer_since`, whose discount is `discount` (the bits of a double): the last name is
    /// that of a seed drawn from 0 to 999, uniformly for the first thousand customers and by
    /// `nu_rand(255, 0, 999)` after; a tenth of the customers have bad credit. The row takes
    /// the next record id, its key leads to it, and so does its key in the last-name index.
    pub fn load_one_customer(
        &mut self,
        c_id: u64,
        d_id: u64,
        w_id: u64,
        customer_since: u64,
        discount: u64,
        consts: &NuRandConstants,
        art_guard: &congee::epoch::Guard,
    )
        requires
            old(self).wf(),
            unlocked(old(self).customer),
            consts.wf(),
            w_id < 0x1_0000,
            d_id < 0x1_0000,
            c_id < 0x1_0000_0000,
            old(self).customer.spec_cache().len() < old(self).customer.spec_cache().capacity(),
            keyed_by(old(self).customer.spec_cache().spec_schema(), |t: Seq<u8>| customer_row_key(t)),
        ensures
            final(self).wf(),
            unlocked(final(self).customer),
            final(self).customer.spec_cache().records() == old(self).customer.spec_cache().records().push(
                final(self).customer.spec_cache().records()[old(self).customer.spec_cache().len() as int],
            ),
            final(self).customer.spec_cache().len() == old(self).customer.spec_cache().len() + 1,
            final(self).customer.entries() == old(self).customer.entries().insert(
                customer_key(w_id, d_id, c_id) as usize,
                Rid::spec_from_u32(old(self).customer.spec_cache().len() as u32),
            ),
            exists|seed: u32|
                seed <= 999 && #[trigger] loaded_customer(
                    final(self).customer.spec_cache().records()[old(self).customer.spec_cache().len() as int],
                    w_id,
                    d_id,
                    c_id,
                    customer_since,
                    seed,
                    discount,
                ) && final(self).c_last_idx.entries() == old(self).c_last_idx.entries().insert(
                    last_name_key(w_id as u16, d_id as u16, seed as u16, c_id as u16) as usize,
                    Rid::spec_from_u32(old(self).customer.spec_cache().len() as u32),
                ),
            final(self).customer.spec_cache().spec_schema() == old(self).customer.spec_cache().spec_schema(),
            final(self).customer.spec_cache().capacity() == old(self).customer.spec_cache().capacity(),
            final(self).warehouse == old(self).warehouse,
            final(self).district == old(self).district,
            final(self).item == old(self).item,
            final(self).stock == old(self).stock,
            final(self).order == old(self).order,
            final(self).order_line == old(self).order_line,
            final(self).new_order == old(self).new_order,
            final(self).warehouse_cnt == old(self).warehouse_cnt,
    {
        // The seed of the last name, as TPC-C loads customers.
        let seed = if c_id < 1000 {
            rand_range_inclusive_u64(0, 999)
        } else {
            consts.nu_rand(255, 0, 999)
        };
        proof {
            reveal_strlit("BC");
            reveal_strlit("GC");
            reveal_strlit("OE");
            vstd::string::is_ascii_spec_bytes("BC");
            vstd::string::is_ascii_spec_bytes("GC");
            vstd::string::is_ascii_spec_bytes("OE");
            assert(vstd::string::is_ascii("BC"));
            assert(vstd::string::is_ascii("GC"));
            assert(vstd::string::is_ascii("OE"));
            assert("BC".spec_bytes() =~= bad_credit());
            assert("GC".spec_bytes() =~= good_credit());
            assert("OE".spec_bytes() =~= customer_middle_name());
        }
        let credit = if rand_ratio(1, 10) {
            FixedString::<2>::from_str("BC")
        } else {
            FixedString::<2>::from_str("GC")
        };
        let c_middle = FixedString::<2>::from_str("OE");
        proof {
            assert(bad_credit().subrange(0, 2) =~= bad_credit());
            assert(good_credit().subrange(0, 2) =~= good_credit());
            assert(customer_middle_name().subrange(0, 2) =~= customer_middle_name());
        }
        match (credit, c_middle) {
            (Ok(c_credit), Ok(c_middle)) => {
                let tuple = CustomerTuple {
                    c_id,
                    c_first: FixedString::rand_gen(),
                    c_middle,
                    c_last: last_name_gen(seed as u32),
                    c_street1: FixedString::rand_gen(),
                    c_street2: FixedString::rand_gen(),
                    c_city: FixedString::rand_gen(),
                    c_state: FixedString::rand_gen(),
                    c_zip: zip_gen(),
                    c_phone: FixedString::rand_gen(),
                    c_since: customer_since,
                    c_credit,
                    c_credit_lim: CREDIT_LIMIT,
                    c_discount: discount,
                    c_balance: INITIAL_BALANCE,
                    c_ytd_payment: INITIAL_YTD_PAYMENT,
                    c_payment_cnt: 1,
                    c_delivery_cnt: 0,
                    c_w_id: w_id,
                    c_d_id: d_id,
                    c_data: FixedString::rand_gen(),
                };
                let last_key = CustomerTuple::idx_key_lastname(
                    w_id as u16,
                    d_id as u16,
                    seed as u16,
                    c_id as u16,
                );
                let ghost c0 = self.customer;
                proof {
                    tuple.lemma_payment();
                    tuple.lemma_delivery();
                    lemma_customer_key_fields(tuple);
                    tuple.c_last.lemma_len();
                    vstd::bytes::lemma_auto_spec_u64_to_from_le_bytes();
                    assert(tuple@.subrange(30, 46) =~= tuple.c_last@);
                    assert(tuple@.subrange(132, 140) =~= le_word(tuple.c_since));
                    lemma_word_at(tuple@, 132, tuple.c_since);
                    assert(tuple@.subrange(142, 150) =~= le_word(tuple.c_credit_lim));
                    lemma_word_at(tuple@, 142, tuple.c_credit_lim);
                    lemma_key_shifts();
                    assert(customer_key(w_id, d_id, c_id) <= u64::MAX) by {
                        assert((w_id << 48u64) <= 0xffff_0000_0000_0000u64 && (d_id << 32u64)
                            <= 0xffff_0000_0000u64);
                    }
                    assert(customer_row_key(tuple@) == customer_key(w_id, d_id, c_id));
                    assert(c0.spec_cache().spec_schema().key_ok(tuple@));
                    assert(loaded_customer(tuple@, w_id, d_id, c_id, customer_since, seed as u32, discount));
                }
                let c_rid = insert_row(&mut self.customer, tuple, art_guard);
                self.c_last_idx.insert(last_key, c_rid, art_guard);
                proof {
                    assert forall|k: usize| #[trigger] self.c_last_idx.entries().contains_key(k)
                        implies self.c_last_idx.entries()[k].id() < self.customer.spec_cache().len() by {
                        if k != last_key {
                            assert(old(self).c_last_idx.entries().contains_key(k));
                        }
                    }
                    assert(self.customer.spec_cache().records()[c0.spec_cache().len() as int] == tuple@);
                    assert(self.customer.spec_cache().records() =~= c0.spec_cache().records().push(tuple@));
                }
            },
            _ => {
                proof {
                    assert(false);
                }
            },
        }
    }

    /// Loads the `cnt` lines of order `o_id` of district `d_id` of warehouse `w_id`, entered
    /// at `entry_d`: line `l` is for item `i_start + l`, from a start drawn below
    /// `ITEM_SCALE - cnt`, which comes back. The rows take the next record ids and their keys
    /// lead to them.
    fn load_order_lines(
        &mut self,
        w_id: u64,
        d_id: u64,
        o_id: u64,
        cnt: u64,
        entry_d: u64,
        amounts: &[u64],
        guard: &congee::epoch::Guard,
    ) -> (i_start: u64)
        requires
            old(self).wf(),
            unlocked(old(self).order_line),
            w_id < 0x1_0000,
            d_id < 0x100,
            o_id < CUSTOMER_SCALE,
            5 <= cnt <= 15,
            amounts@.len() == NEW_ORDER_AMOUNTS,
            old(self).order_line.spec_cache().len() + cnt <= old(self).order_line.spec_cache().capacity(),
            keyed_by(old(self).order_line.spec_cache().spec_schema(), |t: Seq<u8>| order_line_row_key(t)),
        ensures
            final(self).wf(),
            unlocked(final(self).order_line),
            final(self).order_line.spec_cache().len() == old(self).order_line.spec_cache().len() + cnt,
            final(self).order_line.spec_cache().records().take(old(self).order_line.spec_cache().len() as int)
                == old(self).order_line.spec_cache().records(),
            i_start + cnt < ITEM_SCALE,
            order_line_item(final(self).order_line.spec_cache().records()[old(self).order_line.spec_cache().len() as int])
                == i_start,
            forall|l: int|
                0 <= l < cnt ==> loaded_order_line(
                    #[trigger] final(self).order_line.spec_cache().records()[old(self).order_line.spec_cache().len() + l],
                    w_id,
                    d_id,
                    o_id,
                    cnt,
                    entry_d,
                    line_amount(amounts@, o_id, l),
                    (i_start + l) as u64,
                ),
            final(self).order_line.entries() == entries_with_records(
                old(self).order_line.entries(),
                |j: int| order_line_row_key(final(self).order_line.spec_cache().records()[j]) as usize,
                old(self).order_line.spec_cache().len() as int,
                old(self).order_line.spec_cache().len() + cnt,
            ),
            final(self).order_line.spec_cache().spec_schema() == old(self).order_line.spec_cache().spec_schema(),
            final(self).order_line.spec_cache().capacity() == old(self).order_line.spec_cache().capacity(),
            final(self).warehouse == old(self).warehouse,
            final(self).district == old(self).district,
            final(self).customer == old(self).customer,
            final(self).item == old(self).item,
            final(self).stock == old(self).stock,
            final(self).order == old(self).order,
            final(self).c_last_idx == old(self).c_last_idx,
            final(self).new_order == old(self).new_order,
            final(self).warehouse_cnt == old(self).warehouse_cnt,
    {
        let i_start = rand_range_inclusive_u64(0, ITEM_SCALE as u64 - cnt - 1);
        let ghost t0 = self.order_line;
        let ghost base = t0.spec_cache().len() as int;
        let mut l: u64 = 0;
        while l < cnt
            invariant
                0 <= l <= cnt,
                5 <= cnt <= 15,
                w_id < 0x1_0000,
                d_id < 0x100,
                o_id < CUSTOMER_SCALE,
                i_start + cnt < ITEM_SCALE,
                amounts@.len() == NEW_ORDER_AMOUNTS,
                t0 == old(self).order_line,
                base == t0.spec_cache().len(),
                base + cnt <= t0.spec_cache().capacity(),
                keyed_by(t0.spec_cache().spec_schema(), |t: Seq<u8>| order_line_row_key(t)),
                self.wf(),
                unlocked(self.order_line),
                self.order_line.spec_cache().len() == base + l,
                l > 0 ==> order_line_item(self.order_line.spec_cache().records()[base]) == i_start,
                self.order_line.spec_cache().records().take(base) == t0.spec_cache().records(),
                forall|k: int|
                    0 <= k < l ==> loaded_order_line(
                        #[trigger] self.order_line.spec_cache().records()[base + k],
                        w_id,
                        d_id,
                        o_id,
                        cnt,
                        entry_d,
                        line_amount(amounts@, o_id, k),
                        (i_start + k) as u64,
                    ),
                self.order_line.entries() == entries_with_records(
                    t0.entries(),
                    |j: int| order_line_row_key(self.order_line.spec_cache().records()[j]) as usize,
                    base,
                    base + l,
                ),
                self.order_line.spec_cache().spec_schema() == t0.spec_cache().spec_schema(),
                self.order_line.spec_cache().capacity() == t0.spec_cache().capacity(),
                self.warehouse == old(self).warehouse,
                self.district == old(self).district,
                self.customer == old(self).customer,
                self.item == old(self).item,
                self.stock == old(self).stock,
                self.order == old(self).order,
                self.c_last_idx == old(self).c_last_idx,
                self.new_order == old(self).new_order,
                self.warehouse_cnt == old(self).warehouse_cnt,
            decreases cnt - l,
        {
            let delivered = o_id < FIRST_NEW_ORDER;
            let amount = if delivered {
                0
            } else {
                amounts[((o_id - FIRST_NEW_ORDER) * 15 + l) as usize]
            };
            let row = OrderLineTuple {
                ol_o_id: o_id,
                ol_d_id: d_id,
                ol_i_id: i_start + l,
                ol_supply_w_id: w_id,
                ol_quantity: 5,
                ol_delivery_d: if delivered {
                    entry_d
                } else {
                    0
                },
                ol_amount: amount,
                ol_number: cnt,
                ol_w_id: w_id,
                ol_dist_info: FixedString::rand_gen(),
            };
            let ghost before = self.order_line;
            proof {
                lemma_order_line_key_fields(row);
                row.lemma_len();
                row.lemma_amount();
                row.ol_dist_info.lemma_len();
                vstd::bytes::lemma_auto_spec_u64_to_from_le_bytes();
                assert(row@.subrange(24, 32) =~= le_word(row.ol_supply_w_id));
                lemma_word_at(row@, 24, row.ol_supply_w_id);
                assert(row@.subrange(32, 40) =~= le_word(row.ol_quantity));
                lemma_word_at(row@, 32, row.ol_quantity);
                assert(row@.subrange(40, 48) =~= le_word(row.ol_delivery_d));
                lemma_word_at(row@, 40, row.ol_delivery_d);
                assert(row@.subrange(56, 64) =~= le_word(row.ol_number));
                lemma_word_at(row@, 56, row.ol_number);
                let i_id = (i_start + l) as u64;
                lemma_key_shifts();
                assert((w_id << 48u64) <= 0xffff_0000_0000_0000u64 && (d_id << 40u64)
                    <= 0xff00_0000_0000u64 && (o_id << 20u64) <= 0xff_fff0_0000u64);
                assert(order_line_row_key(row@) == order_line_key(w_id, d_id, o_id, i_id));
                assert(t0.spec_cache().spec_schema().key_ok(row@));
                assert(loaded_order_line(row@, w_id, d_id, o_id, cnt, entry_d, line_amount(amounts@, o_id, l as int), i_id));
            }
            insert_row(&mut self.order_line, row, guard);
            proof {
                let recs = self.order_line.spec_cache().records();
                assert(recs.take(base) =~= t0.spec_cache().records());
                assert forall|k: int| 0 <= k < l + 1 implies loaded_order_line(
                    #[trigger] recs[base + k],
                    w_id,
                    d_id,
                    o_id,
                    cnt,
                    entry_d,
                    line_amount(amounts@, o_id, k),
                    (i_start + k) as u64,
                ) by {
                    if k < l {
                        assert(recs[base + k] == before.spec_cache().records()[base + k]);
                    }
                }
                if l > 0 {
                    assert(recs[base] == before.spec_cache().records()[base]);
                }
                lemma_entries_with_records_agree(
                    t0.entries(),
                    |j: int| order_line_row_key(before.spec_cache().records()[j]) as usize,
                    |j: int| order_line_row_key(recs[j]) as usize,
                    base,
                    base + l,
                );
            }
            l += 1;
        }
        i_start
    }

    /// What `load_order` leaves `after` holding, from `self`, for district `d_id` of
    /// warehouse `w_id`: the district's orders follow the records of `self`, one for each
    /// customer, and their rows are as loaded; their lines follow those of `self`, in the
    /// orders' order, as loaded, for items in a row from the first line's; every new row's key
    /// leads to it, and the orders from `FIRST_NEW_ORDER` on are entered as new orders.
    pub open spec fn orders_loaded(
        &self,
        after: Self,
        w_id: u64,
        d_id: u64,
        entry_d: u64,
        amounts: Seq<u64>,
    ) -> bool {
        let ob = self.order.spec_cache().len() as int;
        let lb = self.order_line.spec_cache().len() as int;
        let orders = after.order.spec_cache().records();
        let lines = after.order_line.spec_cache().records();
        &&& after.order.spec_cache().len() == ob + CUSTOMER_SCALE
        &&& orders.len() == ob + CUSTOMER_SCALE
        &&& orders.take(ob) == self.order.spec_cache().records()
        &&& forall|o: int|
            0 <= o < CUSTOMER_SCALE ==> loaded_order(#[trigger] orders[ob + o], w_id, d_id, o as u64, entry_d)
        &&& Seq::new(CUSTOMER_SCALE as nat, |o: int| orders[ob + o][1]).to_multiset()
            == Seq::new(CUSTOMER_SCALE as nat, |c: int| c as u64).to_multiset()
        &&& after.order.entries() == entries_with_records(
            self.order.entries(),
            |j: int| order_row_key(orders[j]) as usize,
            ob,
            ob + CUSTOMER_SCALE,
        )
        &&& after.order_line.spec_cache().len() == lb + lines_before(orders, ob, CUSTOMER_SCALE as int)
        &&& lines.len() == lb + lines_before(orders, ob, CUSTOMER_SCALE as int)
        &&& lines.take(lb) == self.order_line.spec_cache().records()
        &&& forall|o: int, l: int|
            0 <= o < CUSTOMER_SCALE && 0 <= l < orders[ob + o][6] ==> loaded_order_line(
                #[trigger] lines[lb + lines_before(orders, ob, o) + l],
                w_id,
                d_id,
                o as u64,
                orders[ob + o][6],
                entry_d,
                line_amount(amounts, o as u64, l),
                (order_line_item(lines[lb + lines_before(orders, ob, o)]) + l) as u64,
            )
        &&& forall|o: int|
            0 <= o < CUSTOMER_SCALE ==> order_line_item(
                #[trigger] lines[lb + lines_before(orders, ob, o)],
            ) + orders[ob + o][6] < ITEM_SCALE
        &&& after.order_line.entries() == entries_with_records(
            self.order_line.entries(),
            |j: int| order_line_row_key(lines[j]) as usize,
            lb,
            lb + lines_before(orders, ob, CUSTOMER_SCALE as int),
        )
        &&& after.new_order.entries() == new_orders_with(
            self.new_order.entries(),
            |o: int| new_order_key(w_id, d_id, o as u64, orders[ob + o][1]) as usize,
            FIRST_NEW_ORDER as int,
            CUSTOMER_SCALE as int,
        )
    }

    /// Loads the orders of district `d_id` of warehouse `w_id`, entered at `entry_d`: one for
    /// each of the `CUSTOMER_SCALE` customers, in a random order, order `o` for the `o`-th
    /// of them; each has from 5 to 15 lines, for items in a row from a random start. The
    /// orders below `FIRST_NEW_ORDER` are delivered, with a carrier and their lines' delivery
    /// date at the entry; the others wait in the new-order index, their lines' amounts taken
    /// from `amounts`, fifteen to an order. The rows take the next record ids and their keys
    /// lead to them.
    #[verifier::rlimit(50)]
    pub fn load_order(&mut self, w_id: u64, d_id: u64, entry_d: u64, amounts: &[u64])
        requires
            old(self).wf(),
            unlocked(old(self).order),
            unlocked(old(self).order_line),
            w_id < 0x1_0000,
            d_id < 0x100,
            amounts@.len() == NEW_ORDER_AMOUNTS,
            old(self).order.spec_cache().len() + CUSTOMER_SCALE <= old(self).order.spec_cache().capacity(),
            old(self).order_line.spec_cache().len() + 15 * CUSTOMER_SCALE
                <= old(self).order_line.spec_cache().capacity(),
            keyed_by(old(self).order.spec_cache().spec_schema(), |t: Seq<u64>| order_row_key(t)),
            keyed_by(old(self).order_line.spec_cache().spec_schema(), |t: Seq<u8>| order_line_row_key(t)),
        ensures
            final(self).wf(),
            unlocked(final(self).order),
            unlocked(final(self).order_line),
            old(self).orders_loaded(*final(self), w_id, d_id, entry_d, amounts@),
            final(self).order.spec_cache().spec_schema() == old(self).order.spec_cache().spec_schema(),
            final(self).order.spec_cache().capacity() == old(self).order.spec_cache().capacity(),
            final(self).order_line.spec_cache().spec_schema() == old(self).order_line.spec_cache().spec_schema(),
            final(self).order_line.spec_cache().capacity() == old(self).order_line.spec_cache().capacity(),
            final(self).warehouse == old(self).warehouse,
            final(self).district == old(self).district,
            final(self).customer == old(self).customer,
            final(self).item == old(self).item,
            final(self).stock == old(self).stock,
            final(self).c_last_idx == old(self).c_last_idx,
            final(self).warehouse_cnt == old(self).warehouse_cnt,
    {
        let mut o_c_ids: Vec<u64> = Vec::new();
        let mut c: u64 = 0;
        while c < CUSTOMER_SCALE as u64
            invariant
                0 <= c <= CUSTOMER_SCALE,
                o_c_ids@ == Seq::new(c as nat, |k: int| k as u64),
            decreases CUSTOMER_SCALE - c,
        {
            o_c_ids.push(c);
            c += 1;
            proof {
                assert(o_c_ids@ =~= Seq::new(c as nat, |k: int| k as u64));
            }
        }
        shuffle_u64(&mut o_c_ids);
        let ghost cs = o_c_ids@;
        proof {
            lemma_permutation_below(cs, CUSTOMER_SCALE as nat);
        }
        let guard = self.order.pin();
        let ghost o0 = self.order;
        let ghost l0 = self.order_line;
        let ghost n0 = self.new_order;
        let ghost ob = o0.spec_cache().len() as int;
        let ghost lb = l0.spec_cache().len() as int;
        let ghost nkey = |o: int| new_order_key(w_id, d_id, o as u64, cs[o]) as usize;
        let mut o: u64 = 0;
        while o < CUSTOMER_SCALE as u64
            invariant
                0 <= o <= CUSTOMER_SCALE,
                w_id < 0x1_0000,
                d_id < 0x100,
                amounts@.len() == NEW_ORDER_AMOUNTS,
                o_c_ids@ == cs,
                cs.len() == CUSTOMER_SCALE,
                cs.to_multiset() == Seq::new(CUSTOMER_SCALE as nat, |c: int| c as u64).to_multiset(),
                forall|k: int| 0 <= k < cs.len() ==> #[trigger] cs[k] < CUSTOMER_SCALE,
                nkey == |o: int| new_order_key(w_id, d_id, o as u64, cs[o]) as usize,
                o0 == old(self).order,
                l0 == old(self).order_line,
                n0 == old(self).new_order,
                ob == o0.spec_cache().len(),
                lb == l0.spec_cache().len(),
                ob + CUSTOMER_SCALE <= o0.spec_cache().capacity(),
                lb + 15 * CUSTOMER_SCALE <= l0.spec_cache().capacity(),
                keyed_by(o0.spec_cache().spec_schema(), |t: Seq<u64>| order_row_key(t)),
                keyed_by(l0.spec_cache().spec_schema(), |t: Seq<u8>| order_line_row_key(t)),
                self.wf(),
                unlocked(self.order),
                unlocked(self.order_line),
                ({
                    let orders = self.order.spec_cache().records();
                    let lines = self.order_line.spec_cache().records();
                    &&& orders.len() == ob + o
                    &&& orders.take(ob) == o0.spec_cache().records()
                    &&& forall|k: int|
                        0 <= k < o ==> loaded_order(#[trigger] orders[ob + k], w_id, d_id, k as u64, entry_d)
                            && orders[ob + k][1] == cs[k]
                    &&& self.order.entries() == entries_with_records(
                        o0.entries(),
                        |j: int| order_row_key(orders[j]) as usize,
                        ob,
                        ob + o,
                    )
                    &&& lines_before(orders, ob, o as int) <= 15 * o
                    &&& lines.len() == lb + lines_before(orders, ob, o as int)
                    &&& lines.take(lb) == l0.spec_cache().records()
                    &&& forall|k: int, l: int|
                        0 <= k < o && 0 <= l < orders[ob + k][6] ==> loaded_order_line(
                            #[trigger] lines[lb + lines_before(orders, ob, k) + l],
                            w_id,
                            d_id,
                            k as u64,
                            orders[ob + k][6],
                            entry_d,
                            line_amount(amounts@, k as u64, l),
                            (order_line_item(lines[lb + lines_before(orders, ob, k)]) + l) as u64,
                        )
                    &&& forall|k: int|
                        0 <= k < o ==> order_line_item(
                            #[trigger] lines[lb + lines_before(orders, ob, k)],
                        ) + orders[ob + k][6] < ITEM_SCALE
                    &&& self.order_line.entries() == entries_with_records(
                        l0.entries(),
                        |j: int| order_line_row_key(lines[j]) as usize,
                        lb,
                        lb + lines_before(orders, ob, o as int),
                    )
                }),
                self.new_order.entries() == new_orders_with(
                    n0.entries(),
                    nkey,
                    FIRST_NEW_ORDER as int,
                    if o < FIRST_NEW_ORDER {
                        FIRST_NEW_ORDER as int
                    } else {
                        o as int
                    },
                ),
                self.order.spec_cache().spec_schema() == o0.spec_cache().spec_schema(),
                self.order.spec_cache().capacity() == o0.spec_cache().capacity(),
                self.order_line.spec_cache().spec_schema() == l0.spec_cache().spec_schema(),
                self.order_line.spec_cache().capacity() == l0.spec_cache().capacity(),
                self.warehouse == old(self).warehouse,
                self.district == old(self).district,
                self.customer == old(self).customer,
                self.item == old(self).item,
                self.stock == old(self).stock,
                self.c_last_idx == old(self).c_last_idx,
                self.warehouse_cnt == old(self).warehouse_cnt,
            decreases CUSTOMER_SCALE - o,
        {
            let o_c_id = o_c_ids[o as usize];
            let o_carrier_id = if o < FIRST_NEW_ORDER {
                rand_range_inclusive_u64(1, 10)
            } else {
                0
            };
            let o_ol_cnt = rand_range_inclusive_u64(5, 15);
            let order = OrderTuple {
                o_id: o,
                o_c_id,
                o_entry_d: entry_d,
                o_carrier_id,
                o_d_id: d_id,
                o_w_id: w_id,
                o_ol_cnt,
                o_all_local: 1,
            };
            let ghost ords0 = self.order.spec_cache().records();
            let ghost lines0 = self.order_line.spec_cache().records();
            let ghost lsize0 = lines_before(ords0, ob, o as int);
            proof {
                assert(o_c_id < 3000);
                lemma_key_shifts();
                assert((w_id << 48u64) <= 0xffff_0000_0000_0000u64 && (d_id << 32u64)
                    <= 0xff_0000_0000u64 && (o_c_id << 16u64) <= 0xbb8_0000u64);
                assert(order_row_key(order@) <= u64::MAX);
                assert(o0.spec_cache().spec_schema().key_ok(order@));
            }
            insert_row(&mut self.order, order, &guard);
            let ghost ords1 = self.order.spec_cache().records();
            proof {
                assert(ords1 == ords0.push(order@));
                assert forall|j: int| 0 <= j < o implies #[trigger] ords0[ob + j][6] == ords1[ob + j][6] by {
                    assert(ords0[ob + j] == ords1[ob + j]);
                }
                lemma_lines_before_agree(ords0, ords1, ob, o as int);
                assert(lines_before(ords1, ob, o + 1) == lsize0 + o_ol_cnt);
                lemma_entries_with_records_agree(
                    o0.entries(),
                    |j: int| order_row_key(ords0[j]) as usize,
                    |j: int| order_row_key(ords1[j]) as usize,
                    ob,
                    ob + o,
                );
            }
            let i_start = self.load_order_lines(w_id, d_id, o, o_ol_cnt, entry_d, amounts, &guard);
            if o >= FIRST_NEW_ORDER {
                proof {
                    lemma_key_shifts();
                    assert((w_id << 48u64) <= 0xffff_0000_0000_0000u64 && (d_id << 32u64)
                        <= 0xff_0000_0000u64 && (o << 16u64) <= 0xbb8_0000u64);
                }
                let key = NewOrderTuple::make_key(w_id, d_id, o, o_c_id);
                let ghost before = self.new_order;
                self.new_order.insert(key, key, &guard);
                proof {
                    assert forall|k: usize| #[trigger] self.new_order.entries().contains_key(k)
                        implies self.new_order.entries()[k] == k by {
                        if k != key {
                            assert(before.entries().contains_key(k));
                        }
                    }
                }
            }
            proof {
                let orders = self.order.spec_cache().records();
                let lines = self.order_line.spec_cache().records();
                assert(orders == ords1);
                assert(lines.take(lb + lsize0) == lines0);
                lemma_lines_before_monotone(ords0, ob, 0, o as int);
                assert(lines.take(lb) =~= l0.spec_cache().records()) by {
                    assert(lines0.take(lb) == l0.spec_cache().records());
                    assert(lines.take(lb) =~= lines.take(lb + lsize0).take(lb));
                }
                assert(orders.take(ob) =~= o0.spec_cache().records()) by {
                    assert(ords0.take(ob) == o0.spec_cache().records());
                }
                assert forall|k: int|
                    0 <= k < o + 1 implies loaded_order(#[trigger] orders[ob + k], w_id, d_id, k as u64, entry_d)
                        && orders[ob + k][1] == cs[k] by {
                    if k < o {
                        assert(orders[ob + k] == ords0[ob + k]);
                    }
                }
                assert forall|k: int| 0 <= k < o implies lines_before(orders, ob, k) + orders[ob + k][6]
                    <= lsize0 by {
                    lemma_lines_before_monotone(orders, ob, k + 1, o as int);
                    lemma_lines_before_agree(ords0, orders, ob, o as int);
                }
                assert forall|k: int, l: int|
                    0 <= k < o + 1 && 0 <= l < orders[ob + k][6] implies loaded_order_line(
                        #[trigger] lines[lb + lines_before(orders, ob, k) + l],
                        w_id,
                        d_id,
                        k as u64,
                        orders[ob + k][6],
                        entry_d,
                        line_amount(amounts@, k as u64, l),
                        (order_line_item(lines[lb + lines_before(orders, ob, k)]) + l) as u64,
                    ) by {
                    if k < o {
                        lemma_lines_before_agree(ords0, orders, ob, k);
                        lemma_lines_before_monotone(orders, ob, k + 1, o as int);
                        lemma_lines_before_agree(ords0, orders, ob, o as int);
                        lemma_lines_before_monotone(orders, ob, 0, k);
                        let idx = lb + lines_before(orders, ob, k) + l;
                        assert(idx < lb + lsize0);
                        assert(lines.take(lb + lsize0)[idx] == lines[idx]);
                        assert(lines[lb + lines_before(orders, ob, k) + l]
                            == lines0[lb + lines_before(ords0, ob, k) + l]);
                        assert(lines[lb + lines_before(orders, ob, k)]
                            == lines0[lb + lines_before(ords0, ob, k)]);
                        assert(orders[ob + k] == ords0[ob + k]);
                    } else {
                        assert(lines_before(orders, ob, k) == lsize0);
                        assert(order_line_item(lines[lb + lsize0]) == i_start);
                    }
                }
                assert forall|k: int|
                    0 <= k < o + 1 implies order_line_item(
                        #[trigger] lines[lb + lines_before(orders, ob, k)],
                    ) + orders[ob + k][6] < ITEM_SCALE by {
                    if k < o {
                        lemma_lines_before_agree(ords0, orders, ob, k);
                        lemma_lines_before_monotone(orders, ob, k + 1, o as int);
                        lemma_lines_before_agree(ords0, orders, ob, o as int);
                        lemma_lines_before_monotone(orders, ob, 0, k);
                        let idx = lb + lines_before(orders, ob, k);
                        assert(orders[ob + k] == ords0[ob + k]);
                        assert(idx < lb + lsize0);
                        assert(lines.take(lb + lsize0)[idx] == lines[idx]);
                        assert(lines[lb + lines_before(orders, ob, k)]
                            == lines0[lb + lines_before(ords0, ob, k)]);
                        assert(orders[ob + k] == ords0[ob + k]);
                    } else {
                        assert(lines_before(orders, ob, k) == lsize0);
                        assert(order_line_item(lines[lb + lsize0]) == i_start);
                    }
                }
                lemma_entries_with_records_agree(
                    l0.entries(),
                    |j: int| order_line_row_key(lines0[j]) as usize,
                    |j: int| order_line_row_key(lines[j]) as usize,
                    lb,
                    lb + lsize0,
                );
                lemma_entries_with_records_split(
                    l0.entries(),
                    |j: int| order_line_row_key(lines[j]) as usize,
                    lb,
                    lb + lsize0,
                    lb + lsize0 + o_ol_cnt,
                );
                assert(self.new_order.entries() == new_orders_with(
                    n0.entries(),
                    nkey,
                    FIRST_NEW_ORDER as int,
                    if o + 1 < FIRST_NEW_ORDER {
                        FIRST_NEW_ORDER as int
                    } else {
                        o + 1
                    },
                ));
            }
            o += 1;
        }
        proof {
            let orders = self.order.spec_cache().records();
            assert(Seq::new(CUSTOMER_SCALE as nat, |k: int| orders[ob + k][1]) =~= cs);
            lemma_new_orders_with_agree(
                n0.entries(),
                nkey,
                |k: int| new_order_key(w_id, d_id, k as u64, orders[ob + k][1]) as usize,
                FIRST_NEW_ORDER as int,
                CUSTOMER_SCALE as int,
            );
        }
    }

    /// The customers of district `d_id` of warehouse `w_id` as `after` holds them, from
    /// `self`, when their last names are those of `seeds`: a row for each of the
    /// `CUSTOMER_SCALE` customers follows the records of `self`, as loaded, customer `c` a
    /// customer since `since`, with the last name of `seeds[c]`, a seed from 0 to 999, and
    /// the discount `discounts[c]`; and the last-name index leads the key of each last name
    /// to its customer.
    pub open spec fn customers_seeded(
        &self,
        after: Self,
        w_id: u64,
        d_id: u64,
        since: u64,
        discounts: Seq<u64>,
        seeds: Seq<u32>,
    ) -> bool {
        let cb = self.customer.spec_cache().len() as int;
        let rows = after.customer.spec_cache().records();
        &&& seeds.len() == CUSTOMER_SCALE
        &&& forall|c: int|
            0 <= c < CUSTOMER_SCALE ==> #[trigger] seeds[c] <= 999 && loaded_customer(
                rows[cb + c],
                w_id,
                d_id,
                c as u64,
                since,
                seeds[c],
                discounts[c],
            )
        &&& after.c_last_idx.entries() == entries_with_keys(
            self.c_last_idx.entries(),
            |c: int| last_name_key(w_id as u16, d_id as u16, seeds[c] as u16, c as u16) as usize,
            cb,
            CUSTOMER_SCALE as int,
        )
    }

    /// What loading the customers of district `d_id` of warehouse `w_id` leaves `after`
    /// holding, from `self`: their rows follow the records of `self`, as loaded from some
    /// seeds (see `customers_seeded`), and the key of each leads to it.
    pub open spec fn customers_loaded(
        &self,
        after: Self,
        w_id: u64,
        d_id: u64,
        since: u64,
        discounts: Seq<u64>,
    ) -> bool {
        let cb = self.customer.spec_cache().len() as int;
        let rows = after.customer.spec_cache().records();
        &&& after.customer.spec_cache().len() == cb + CUSTOMER_SCALE
        &&& rows.len() == cb + CUSTOMER_SCALE
        &&& rows.take(cb) == self.customer.spec_cache().records()
        &&& exists|seeds: Seq<u32>| #[trigger]
            self.customers_seeded(after, w_id, d_id, since, discounts, seeds)
        &&& after.customer.entries() == entries_with_records(
            self.customer.entries(),
            |j: int| customer_row_key(rows[j]) as usize,
            cb,
            cb + CUSTOMER_SCALE,
        )
    }

    /// What `load_district` leaves `after` holding, from `self`, for district `d_id` of
    /// warehouse `w_id`: the district's row follows the records of `self`, as loaded with the
    /// tax rate `tax`, and its key leads to it; its customers and its orders are loaded, from
    /// `discounts` and `amounts`, at `since`; the warehouse, item and stock tables do not
    /// change.
    pub open spec fn district_loaded(
        &self,
        after: Self,
        w_id: u64,
        d_id: u64,
        tax: u64,
        since: u64,
        discounts: Seq<u64>,
        amounts: Seq<u64>,
    ) -> bool {
        let db = self.district.spec_cache().len() as int;
        &&& after.district.spec_cache().len() == db + 1
        &&& after.district.spec_cache().records() == self.district.spec_cache().records().push(
            after.district.spec_cache().records()[db],
        )
        &&& loaded_district(after.district.spec_cache().records()[db], w_id, d_id, tax)
        &&& after.district.entries() == self.district.entries().insert(
            district_key(w_id, d_id) as usize,
            Rid::spec_from_u32(db as u32),
        )
        &&& self.customers_loaded(after, w_id, d_id, since, discounts)
        &&& self.orders_loaded(after, w_id, d_id, since, amounts)
        &&& after.district.spec_cache().spec_schema() == self.district.spec_cache().spec_schema()
        &&& after.district.spec_cache().capacity() == self.district.spec_cache().capacity()
        &&& after.customer.spec_cache().spec_schema() == self.customer.spec_cache().spec_schema()
        &&& after.customer.spec_cache().capacity() == self.customer.spec_cache().capacity()
        &&& after.order.spec_cache().spec_schema() == self.order.spec_cache().spec_schema()
        &&& after.order.spec_cache().capacity() == self.order.spec_cache().capacity()
        &&& after.order_line.spec_cache().spec_schema() == self.order_line.spec_cache().spec_schema()
        &&& after.order_line.spec_cache().capacity() == self.order_line.spec_cache().capacity()
        &&& after.warehouse == self.warehouse
        &&& after.item == self.item
        &&& after.stock == self.stock
        &&& after.warehouse_cnt == self.warehouse_cnt
    }

    /// The loading of warehouse `w_id`, from `self` to `after`, through the states `steps`:
    /// `steps[0]` is `self` with the warehouse's row, as loaded with the tax rate `w_tax`,
    /// whose key leads to it; each next state loads the next district (see
    /// `district_loaded`), district `d` with the tax rate `d_taxes[d]` and its shares of
    /// `discounts` and `amounts`; and `after` loads the warehouse's stock on the last.
    pub open spec fn warehouse_loaded_through(
        &self,
        after: Self,
        w_id: u64,
        since: u64,
        w_tax: u64,
        d_taxes: Seq<u64>,
        discounts: Seq<u64>,
        amounts: Seq<u64>,
        steps: Seq<Self>,
    ) -> bool {
        let wb = self.warehouse.spec_cache().len() as int;
        let first = steps[0];
        &&& steps.len() == DISTRICT_SCALE + 1
        &&& first.warehouse.spec_cache().records() == self.warehouse.spec_cache().records().push(
            first.warehouse.spec_cache().records()[wb],
        )
        &&& loaded_warehouse(first.warehouse.spec_cache().records()[wb], w_id, w_tax)
        &&& first.warehouse.entries() == self.warehouse.entries().insert(
            w_id as usize,
            Rid::spec_from_u32(wb as u32),
        )
        &&& first.warehouse.spec_cache().spec_schema() == self.warehouse.spec_cache().spec_schema()
        &&& first.warehouse.spec_cache().capacity() == self.warehouse.spec_cache().capacity()
        &&& first.district == self.district
        &&& first.customer == self.customer
        &&& first.item == self.item
        &&& first.stock == self.stock
        &&& first.order == self.order
        &&& first.order_line == self.order_line
        &&& first.c_last_idx == self.c_last_idx
        &&& first.new_order == self.new_order
        &&& first.warehouse_cnt == self.warehouse_cnt
        &&& forall|d: int|
            0 <= d < DISTRICT_SCALE ==> #[trigger] steps[d].district_loaded(
                steps[d + 1],
                w_id,
                d as u64,
                d_taxes[d],
                since,
                discounts.subrange(d * CUSTOMER_SCALE, (d + 1) * CUSTOMER_SCALE),
                amounts.subrange(d * NEW_ORDER_AMOUNTS, (d + 1) * NEW_ORDER_AMOUNTS),
            )
        &&& steps[DISTRICT_SCALE as int].stock_loaded(after, w_id)
    }

    /// Loads district `d_id` of warehouse `w_id`: its row, with the tax rate `d_tax` (the
    /// bits of a double), the starting balance and `FIRST_NEXT_O_ID` as its next order id;
    /// its customers (see `load_one_customer`), customer `c` a customer since `since` with
    /// the discount `discounts[c]`; and its orders (see `load_order`), entered at `since`.
    pub fn load_district(
        &mut self,
        w_id: u64,
        d_id: u64,
        d_tax: u64,
        since: u64,
        discounts: &[u64],
        amounts: &[u64],
        consts: &NuRandConstants,
        guard: &congee::epoch::Guard,
    )
        requires
            old(self).wf(),
            old(self).unlocked(),
            consts.wf(),
            w_id < 0x1_0000,
            d_id < 0x100,
            discounts@.len() == CUSTOMER_SCALE,
            amounts@.len() == NEW_ORDER_AMOUNTS,
            old(self).district.spec_cache().len() < old(self).district.spec_cache().capacity(),
            old(self).customer.spec_cache().len() + CUSTOMER_SCALE <= old(self).customer.spec_cache().capacity(),
            old(self).order.spec_cache().len() + CUSTOMER_SCALE <= old(self).order.spec_cache().capacity(),
            old(self).order_line.spec_cache().len() + 15 * CUSTOMER_SCALE
                <= old(self).order_line.spec_cache().capacity(),
            keyed_by(old(self).district.spec_cache().spec_schema(), |t: Seq<u8>| district_row_key(t)),
            keyed_by(old(self).customer.spec_cache().spec_schema(), |t: Seq<u8>| customer_row_key(t)),
            keyed_by(old(self).order.spec_cache().spec_schema(), |t: Seq<u64>| order_row_key(t)),
            keyed_by(old(self).order_line.spec_cache().spec_schema(), |t: Seq<u8>| order_line_row_key(t)),
        ensures
            final(self).wf(),
            final(self).unlocked(),
            old(self).district_loaded(*final(self), w_id, d_id, d_tax, since, discounts@, amounts@),
    {
        let row = DistrictTuple {
            d_id,
            d_w_id: w_id,
            d_name: FixedString::rand_gen(),
            d_street1: FixedString::rand_gen(),
            d_street2: FixedString::rand_gen(),
            d_city: FixedString::rand_gen(),
            d_state: FixedString::rand_gen(),
            d_zip: zip_gen(),
            d_tax,
            d_ytd: DISTRICT_YTD,
            d_next_o_id: FIRST_NEXT_O_ID,
        };
        proof {
            row.lemma_payment();
            row.lemma_next_o_id();
            lemma_district_key_fields(row);
            vstd::bytes::lemma_auto_spec_u64_to_from_le_bytes();
            assert(row@.subrange(96, 104) =~= le_word(row.d_tax));
            lemma_word_at(row@, 96, row.d_tax);
            lemma_key_shifts();
            assert((w_id << 48u64) <= 0xffff_0000_0000_0000u64);
            assert(old(self).district.spec_cache().spec_schema().key_ok(row@));
        }
        insert_row(&mut self.district, row, guard);
        let ghost s1 = *self;
        let ghost c0 = self.customer;
        let ghost cb = c0.spec_cache().len() as int;
        let ghost l0 = self.c_last_idx.entries();
        let ghost mut seeds: Seq<u32> = Seq::empty();
        let mut c: u64 = 0;
        while c < CUSTOMER_SCALE as u64
            invariant
                0 <= c <= CUSTOMER_SCALE,
                consts.wf(),
                w_id < 0x1_0000,
                d_id < 0x100,
                discounts@.len() == CUSTOMER_SCALE,
                c0 == old(self).customer,
                l0 == old(self).c_last_idx.entries(),
                cb == c0.spec_cache().len(),
                cb + CUSTOMER_SCALE <= c0.spec_cache().capacity(),
                keyed_by(c0.spec_cache().spec_schema(), |t: Seq<u8>| customer_row_key(t)),
                self.wf(),
                unlocked(self.customer),
                self.customer.spec_cache().len() == cb + c,
                self.customer.spec_cache().records().take(cb) == c0.spec_cache().records(),
                seeds.len() == c,
                forall|k: int|
                    0 <= k < c ==> #[trigger] seeds[k] <= 999 && loaded_customer(
                        self.customer.spec_cache().records()[cb + k],
                        w_id,
                        d_id,
                        k as u64,
                        since,
                        seeds[k],
                        discounts@[k],
                    ),
                self.c_last_idx.entries() == entries_with_keys(
                    l0,
                    |k: int| last_name_key(w_id as u16, d_id as u16, seeds[k] as u16, k as u16) as usize,
                    cb,
                    c as int,
                ),
                self.customer.entries() == entries_with_records(
                    c0.entries(),
                    |j: int| customer_row_key(self.customer.spec_cache().records()[j]) as usize,
                    cb,
                    cb + c,
                ),
                self.customer.spec_cache().spec_schema() == c0.spec_cache().spec_schema(),
                self.customer.spec_cache().capacity() == c0.spec_cache().capacity(),
                self.warehouse == s1.warehouse,
                self.district == s1.district,
                self.item == s1.item,
                self.stock == s1.stock,
                self.order == s1.order,
                self.order_line == s1.order_line,
                self.new_order == s1.new_order,
                self.warehouse_cnt == s1.warehouse_cnt,
            decreases CUSTOMER_SCALE - c,
        {
            let ghost before = *self;
            self.load_one_customer(c, d_id, w_id, since, discounts[c as usize], consts, guard);
            proof {
                let rows = self.customer.spec_cache().records();
                assert(rows.take(cb) =~= c0.spec_cache().records()) by {
                    assert(before.customer.spec_cache().records().take(cb) == c0.spec_cache().records());
                }
                let seed = choose|seed: u32|
                    seed <= 999 && #[trigger] loaded_customer(
                        rows[cb + c],
                        w_id,
                        d_id,
                        c as u64,
                        since,
                        seed,
                        discounts@[c as int],
                    ) && self.c_last_idx.entries() == before.c_last_idx.entries().insert(
                        last_name_key(w_id as u16, d_id as u16, seed as u16, c as u16) as usize,
                        Rid::spec_from_u32((cb + c) as u32),
                    );
                let seeds1 = seeds.push(seed);
                assert forall|k: int| 0 <= k < c + 1 implies #[trigger] seeds1[k] <= 999
                    && loaded_customer(
                    rows[cb + k],
                    w_id,
                    d_id,
                    k as u64,
                    since,
                    seeds1[k],
                    discounts@[k],
                ) by {
                    if k < c {
                        assert(rows[cb + k] == before.customer.spec_cache().records()[cb + k]);
                        assert(seeds1[k] == seeds[k]);
                    }
                }
                lemma_entries_with_keys_agree(
                    l0,
                    |k: int| last_name_key(w_id as u16, d_id as u16, seeds[k] as u16, k as u16) as usize,
                    |k: int| last_name_key(w_id as u16, d_id as u16, seeds1[k] as u16, k as u16) as usize,
                    cb,
                    c as int,
                );
                seeds = seeds1;
                lemma_entries_with_records_agree(
                    c0.entries(),
                    |j: int| customer_row_key(before.customer.spec_cache().records()[j]) as usize,
                    |j: int| customer_row_key(rows[j]) as usize,
                    cb,
                    cb + c,
                );
            }
            c += 1;
        }
        proof {
            assert(old(self).customers_seeded(*self, w_id, d_id, since, discounts@, seeds));
        }
        let ghost s2 = *self;
        self.load_order(w_id, d_id, since, amounts);
        proof {
            assert(old(self).customers_seeded(*self, w_id, d_id, since, discounts@, seeds));
        }
    }

    /// Loads warehouse `w_id`, a warehouse since `since`: its row, with the tax rate `w_tax`
    /// (the bits of a double) and the starting balance; its `DISTRICT_SCALE` districts (see
    /// `load_district`), district `d` with the tax rate `d_taxes[d]` and the `d`-th shares of
    /// `discounts`, `CUSTOMER_SCALE` to a district, and of `amounts`, `NEW_ORDER_AMOUNTS` to a
    /// district; and its stock (see `load_stock`).
    pub fn load_warehouse(
        &mut self,
        w_id: u64,
        since: u64,
        w_tax: u64,
        d_taxes: &[u64],
        discounts: &[u64],
        amounts: &[u64],
        consts: &NuRandConstants,
    )
        requires
            old(self).wf(),
            old(self).unlocked(),
            consts.wf(),
            w_id < 0x1_0000,
            d_taxes@.len() == DISTRICT_SCALE,
            discounts@.len() == DISTRICT_SCALE * CUSTOMER_SCALE,
            amounts@.len() == DISTRICT_SCALE * NEW_ORDER_AMOUNTS,
            old(self).warehouse.spec_cache().len() < old(self).warehouse.spec_cache().capacity(),
            old(self).district.spec_cache().len() + DISTRICT_SCALE <= old(self).district.spec_cache().capacity(),
            old(self).customer.spec_cache().len() + DISTRICT_SCALE * CUSTOMER_SCALE
                <= old(self).customer.spec_cache().capacity(),
            old(self).order.spec_cache().len() + DISTRICT_SCALE * CUSTOMER_SCALE
                <= old(self).order.spec_cache().capacity(),
            old(self).order_line.spec_cache().len() + 15 * DISTRICT_SCALE * CUSTOMER_SCALE
                <= old(self).order_line.spec_cache().capacity(),
            old(self).stock.spec_cache().len() + ITEM_SCALE <= old(self).stock.spec_cache().capacity(),
            keyed_by(old(self).warehouse.spec_cache().spec_schema(), |t: Seq<u8>| warehouse_row_key(t)),
            keyed_by(old(self).district.spec_cache().spec_schema(), |t: Seq<u8>| district_row_key(t)),
            keyed_by(old(self).customer.spec_cache().spec_schema(), |t: Seq<u8>| customer_row_key(t)),
            keyed_by(old(self).order.spec_cache().spec_schema(), |t: Seq<u64>| order_row_key(t)),
            keyed_by(old(self).order_line.spec_cache().spec_schema(), |t: Seq<u8>| order_line_row_key(t)),
            keyed_by(old(self).stock.spec_cache().spec_schema(), |t: Seq<u8>| stock_row_key(t)),
        ensures
            final(self).wf(),
            final(self).unlocked(),
            exists|steps: Seq<Self>| #[trigger]
                old(self).warehouse_loaded_through(
                    *final(self),
                    w_id,
                    since,
                    w_tax,
                    d_taxes@,
                    discounts@,
                    amounts@,
                    steps,
                ),
    {
        let guard = self.c_last_idx.pin();
        let row = WarehouseTuple {
            w_id,
            w_name: FixedString::rand_gen(),
            w_street1: FixedString::rand_gen(),
            w_street2: FixedString::rand_gen(),
            w_city: FixedString::rand_gen(),
            w_state: FixedString::rand_gen(),
            w_zip: zip_gen(),
            w_tax,
            w_ytd: WAREHOUSE_YTD,
        };
        proof {
            row.lemma_payment();
            lemma_warehouse_key_fields(row);
            vstd::bytes::lemma_auto_spec_u64_to_from_le_bytes();
            assert(row@.subrange(88, 96) =~= le_word(row.w_tax));
            lemma_word_at(row@, 88, row.w_tax);
            assert(old(self).warehouse.spec_cache().spec_schema().key_ok(row@));
        }
        insert_row(&mut self.warehouse, row, &guard);
        let ghost s0 = *old(self);
        let ghost mut steps: Seq<Self> = seq![*self];
        let mut d: u64 = 0;
        while d < DISTRICT_SCALE as u64
            invariant
                0 <= d <= DISTRICT_SCALE,
                s0 == *old(self),
                consts.wf(),
                w_id < 0x1_0000,
                d_taxes@.len() == DISTRICT_SCALE,
                discounts@.len() == DISTRICT_SCALE * CUSTOMER_SCALE,
                amounts@.len() == DISTRICT_SCALE * NEW_ORDER_AMOUNTS,
                steps.len() == d + 1,
                steps[d as int] == *self,
                self.wf(),
                self.unlocked(),
                ({
                    let wb = s0.warehouse.spec_cache().len() as int;
                    let first = steps[0];
                    &&& first.warehouse.spec_cache().records() == s0.warehouse.spec_cache().records().push(
                        first.warehouse.spec_cache().records()[wb],
                    )
                    &&& loaded_warehouse(first.warehouse.spec_cache().records()[wb], w_id, w_tax)
                    &&& first.warehouse.entries() == s0.warehouse.entries().insert(
                        w_id as usize,
                        Rid::spec_from_u32(wb as u32),
                    )
                    &&& first.warehouse.spec_cache().spec_schema() == s0.warehouse.spec_cache().spec_schema()
                    &&& first.warehouse.spec_cache().capacity() == s0.warehouse.spec_cache().capacity()
                    &&& first.district == s0.district
                    &&& first.customer == s0.customer
                    &&& first.item == s0.item
                    &&& first.stock == s0.stock
                    &&& first.order == s0.order
                    &&& first.order_line == s0.order_line
                    &&& first.c_last_idx == s0.c_last_idx
                    &&& first.new_order == s0.new_order
                    &&& first.warehouse_cnt == s0.warehouse_cnt
                }),
                forall|k: int|
                    0 <= k < d ==> #[trigger] steps[k].district_loaded(
                        steps[k + 1],
                        w_id,
                        k as u64,
                        d_taxes@[k],
                        since,
                        discounts@.subrange(k * CUSTOMER_SCALE, (k + 1) * CUSTOMER_SCALE),
                        amounts@.subrange(k * NEW_ORDER_AMOUNTS, (k + 1) * NEW_ORDER_AMOUNTS),
                    ),
                self.district.spec_cache().len() == s0.district.spec_cache().len() + d,
                self.customer.spec_cache().len() == s0.customer.spec_cache().len() + d * CUSTOMER_SCALE,
                self.order.spec_cache().len() == s0.order.spec_cache().len() + d * CUSTOMER_SCALE,
                self.order_line.spec_cache().len() <= s0.order_line.spec_cache().len() + 15 * d * CUSTOMER_SCALE,
                self.district.spec_cache().capacity() == s0.district.spec_cache().capacity(),
                self.customer.spec_cache().capacity() == s0.customer.spec_cache().capacity(),
                self.order.spec_cache().capacity() == s0.order.spec_cache().capacity(),
                self.order_line.spec_cache().capacity() == s0.order_line.spec_cache().capacity(),
                self.district.spec_cache().spec_schema() == s0.district.spec_cache().spec_schema(),
                self.customer.spec_cache().spec_schema() == s0.customer.spec_cache().spec_schema(),
                self.order.spec_cache().spec_schema() == s0.order.spec_cache().spec_schema(),
                self.order_line.spec_cache().spec_schema() == s0.order_line.spec_cache().spec_schema(),
                s0.district.spec_cache().len() + DISTRICT_SCALE <= s0.district.spec_cache().capacity(),
                s0.customer.spec_cache().len() + DISTRICT_SCALE * CUSTOMER_SCALE
                    <= s0.customer.spec_cache().capacity(),
                s0.order.spec_cache().len() + DISTRICT_SCALE * CUSTOMER_SCALE
                    <= s0.order.spec_cache().capacity(),
                s0.order_line.spec_cache().len() + 15 * DISTRICT_SCALE * CUSTOMER_SCALE
                    <= s0.order_line.spec_cache().capacity(),
                keyed_by(s0.district.spec_cache().spec_schema(), |t: Seq<u8>| district_row_key(t)),
                keyed_by(s0.customer.spec_cache().spec_schema(), |t: Seq<u8>| customer_row_key(t)),
                keyed_by(s0.order.spec_cache().spec_schema(), |t: Seq<u64>| order_row_key(t)),
                keyed_by(s0.order_line.spec_cache().spec_schema(), |t: Seq<u8>| order_line_row_key(t)),
                self.stock == s0.stock,
                self.item == s0.item,
                self.warehouse == steps[0].warehouse,
                self.warehouse_cnt == s0.warehouse_cnt,
            decreases DISTRICT_SCALE - d,
        {
            let dc = d as usize;
            let ghost before = *self;
            self.load_district(
                w_id,
                d,
                d_taxes[dc],
                since,
                &discounts[dc * CUSTOMER_SCALE..(dc + 1) * CUSTOMER_SCALE],
                &amounts[dc * NEW_ORDER_AMOUNTS..(dc + 1) * NEW_ORDER_AMOUNTS],
                consts,
                &guard,
            );
            proof {
                let ob = before.order.spec_cache().len() as int;
                let orders = self.order.spec_cache().records();
                assert forall|j: int| 0 <= j < CUSTOMER_SCALE implies #[trigger] orders[ob + j][6] <= 15 by {
                    assert(loaded_order(orders[ob + j], w_id, d, j as u64, since));
                }
                lemma_lines_before_bounded(orders, ob, CUSTOMER_SCALE as int);
                let steps1 = steps.push(*self);
                assert forall|k: int|
                    0 <= k < d + 1 implies #[trigger] steps1[k].district_loaded(
                        steps1[k + 1],
                        w_id,
                        k as u64,
                        d_taxes@[k],
                        since,
                        discounts@.subrange(k * CUSTOMER_SCALE, (k + 1) * CUSTOMER_SCALE),
                        amounts@.subrange(k * NEW_ORDER_AMOUNTS, (k + 1) * NEW_ORDER_AMOUNTS),
                    ) by {
                    if k < d {
                        assert(steps1[k] == steps[k]);
                        assert(steps1[k + 1] == steps[k + 1]);
                    }
                }
                steps = steps1;
            }
            d += 1;
        }
        let ghost last = *self;
        self.load_stock(w_id);
        proof {
            assert(s0.warehouse_loaded_through(
                *self,
                w_id,
                since,
                w_tax,
                d_taxes@,
                discounts@,
                amounts@,
                steps,
            ));
        }
    }

    /// The reloading of the orders, from `self` to `after`, through the states `steps`:
    /// `steps[0]` is `self` with the order and order-line tables and the new-order index
    /// emptied; each next state loads the orders (see `orders_loaded`) of the next district,
    /// the districts of each warehouse in turn, district `k` of them with the `k`-th share of
    /// `amounts`, `NEW_ORDER_AMOUNTS` to a district; `after` is the last.
    pub open spec fn orders_reloaded_through(
        &self,
        after: Self,
        entry_d: u64,
        amounts: Seq<u64>,
        steps: Seq<Self>,
    ) -> bool {
        let n = self.warehouse_cnt * DISTRICT_SCALE;
        let first = steps[0];
        &&& steps.len() == n + 1
        &&& first.order.spec_cache().len() == 0
        &&& first.order.entries().is_empty()
        &&& first.order.spec_cache().spec_schema() == self.order.spec_cache().spec_schema()
        &&& first.order.spec_cache().capacity() == self.order.spec_cache().capacity()
        &&& first.order_line.spec_cache().len() == 0
        &&& first.order_line.entries().is_empty()
        &&& first.order_line.spec_cache().spec_schema() == self.order_line.spec_cache().spec_schema()
        &&& first.order_line.spec_cache().capacity() == self.order_line.spec_cache().capacity()
        &&& first.new_order.entries().is_empty()
        &&& first.warehouse == self.warehouse
        &&& first.district == self.district
        &&& first.customer == self.customer
        &&& first.item == self.item
        &&& first.stock == self.stock
        &&& first.c_last_idx == self.c_last_idx
        &&& first.warehouse_cnt == self.warehouse_cnt
        &&& forall|k: int|
            0 <= k < n ==> #[trigger] steps[k].orders_loaded(
                steps[k + 1],
                (k / DISTRICT_SCALE as int) as u64,
                (k % DISTRICT_SCALE as int) as u64,
                entry_d,
                amounts.subrange(k * NEW_ORDER_AMOUNTS, (k + 1) * NEW_ORDER_AMOUNTS),
            )
        &&& forall|k: int|
            0 <= k < n ==> {
                &&& (#[trigger] steps[k + 1]).warehouse == self.warehouse
                &&& steps[k + 1].district == self.district
                &&& steps[k + 1].customer == self.customer
                &&& steps[k + 1].item == self.item
                &&& steps[k + 1].stock == self.stock
                &&& steps[k + 1].c_last_idx == self.c_last_idx
                &&& steps[k + 1].warehouse_cnt == self.warehouse_cnt
            }
        &&& steps[n] == after
    }

    /// Empties the order and order-line tables and the new-order index, then loads the
    /// orders of every district again (see `load_order`), entered at `entry_d`, warehouse by
    /// warehouse, the `k`-th district with the `k`-th share of `amounts`, `NEW_ORDER_AMOUNTS`
    /// to a district; for benchmarks that start each run from the same orders.
    pub fn reset_order(&mut self, entry_d: u64, amounts: &[u64])
        requires
            old(self).wf(),
            unlocked(old(self).order),
            unlocked(old(self).order_line),
            old(self).warehouse_cnt < 0x1_0000,
            amounts@.len() == old(self).warehouse_cnt * DISTRICT_SCALE * NEW_ORDER_AMOUNTS,
            old(self).warehouse_cnt * DISTRICT_SCALE * CUSTOMER_SCALE <= old(self).order.spec_cache().capacity(),
            old(self).warehouse_cnt * DISTRICT_SCALE * 15 * CUSTOMER_SCALE
                <= old(self).order_line.spec_cache().capacity(),
            keyed_by(old(self).order.spec_cache().spec_schema(), |t: Seq<u64>| order_row_key(t)),
            keyed_by(old(self).order_line.spec_cache().spec_schema(), |t: Seq<u8>| order_line_row_key(t)),
        ensures
            final(self).wf(),
            unlocked(final(self).order),
            unlocked(final(self).order_line),
            exists|steps: Seq<Self>| #[trigger]
                old(self).orders_reloaded_through(*final(self), entry_d, amounts@, steps),
    {
        self.order_line.reset();
        self.order.reset();
        self.new_order = RawArt::new();
        let ghost s0 = *old(self);
        let ghost mut steps: Seq<Self> = seq![*self];
        let n = self.warehouse_cnt as usize * DISTRICT_SCALE;
        let mut k: usize = 0;
        while k < n
            invariant
                0 <= k <= n,
                s0 == *old(self),
                n == s0.warehouse_cnt * DISTRICT_SCALE,
                s0.warehouse_cnt < 0x1_0000,
                amounts@.len() == n * NEW_ORDER_AMOUNTS,
                n * CUSTOMER_SCALE <= s0.order.spec_cache().capacity(),
                n * 15 * CUSTOMER_SCALE <= s0.order_line.spec_cache().capacity(),
                keyed_by(s0.order.spec_cache().spec_schema(), |t: Seq<u64>| order_row_key(t)),
                keyed_by(s0.order_line.spec_cache().spec_schema(), |t: Seq<u8>| order_line_row_key(t)),
                steps.len() == k + 1,
                steps[k as int] == *self,
                self.wf(),
                unlocked(self.order),
                unlocked(self.order_line),
                ({
                    let first = steps[0];
                    &&& first.order.spec_cache().len() == 0
                    &&& first.order.entries().is_empty()
                    &&& first.order.spec_cache().spec_schema() == s0.order.spec_cache().spec_schema()
                    &&& first.order.spec_cache().capacity() == s0.order.spec_cache().capacity()
                    &&& first.order_line.spec_cache().len() == 0
                    &&& first.order_line.entries().is_empty()
                    &&& first.order_line.spec_cache().spec_schema() == s0.order_line.spec_cache().spec_schema()
                    &&& first.order_line.spec_cache().capacity() == s0.order_line.spec_cache().capacity()
                    &&& first.new_order.entries().is_empty()
                    &&& first.warehouse == s0.warehouse
                    &&& first.district == s0.district
                    &&& first.customer == s0.customer
                    &&& first.item == s0.item
                    &&& first.stock == s0.stock
                    &&& first.c_last_idx == s0.c_last_idx
                    &&& first.warehouse_cnt == s0.warehouse_cnt
                }),
                forall|j: int|
                    0 <= j < k ==> #[trigger] steps[j].orders_loaded(
                        steps[j + 1],
                        (j / DISTRICT_SCALE as int) as u64,
                        (j % DISTRICT_SCALE as int) as u64,
                        entry_d,
                        amounts@.subrange(j * NEW_ORDER_AMOUNTS, (j + 1) * NEW_ORDER_AMOUNTS),
                    ),
                forall|j: int|
                    0 <= j < k ==> {
                        &&& (#[trigger] steps[j + 1]).warehouse == s0.warehouse
                        &&& steps[j + 1].district == s0.district
                        &&& steps[j + 1].customer == s0.customer
                        &&& steps[j + 1].item == s0.item
                        &&& steps[j + 1].stock == s0.stock
                        &&& steps[j + 1].c_last_idx == s0.c_last_idx
                        &&& steps[j + 1].warehouse_cnt == s0.warehouse_cnt
                    },
                self.warehouse == s0.warehouse,
                self.district == s0.district,
                self.customer == s0.customer,
                self.item == s0.item,
                self.stock == s0.stock,
                self.c_last_idx == s0.c_last_idx,
                self.warehouse_cnt == s0.warehouse_cnt,
                self.order.spec_cache().len() == k * CUSTOMER_SCALE,
                self.order_line.spec_cache().len() <= k * 15 * CUSTOMER_SCALE,
                self.order.spec_cache().capacity() == s0.order.spec_cache().capacity(),
                self.order_line.spec_cache().capacity() == s0.order_line.spec_cache().capacity(),
                self.order.spec_cache().spec_schema() == s0.order.spec_cache().spec_schema(),
                self.order_line.spec_cache().spec_schema() == s0.order_line.spec_cache().spec_schema(),
            decreases n - k,
        {
            let w_id = (k / DISTRICT_SCALE) as u64;
            let d_id = (k % DISTRICT_SCALE) as u64;
            let ghost before = *self;
            proof {
                assert(k * NEW_ORDER_AMOUNTS + NEW_ORDER_AMOUNTS <= n * NEW_ORDER_AMOUNTS) by (nonlinear_arith)
                    requires
                        k < n,
                ;
                assert(k * CUSTOMER_SCALE + CUSTOMER_SCALE <= n * CUSTOMER_SCALE) by (nonlinear_arith)
                    requires
                        k < n,
                ;
                assert(k * 15 * CUSTOMER_SCALE + 15 * CUSTOMER_SCALE <= n * 15 * CUSTOMER_SCALE) by (nonlinear_arith)
                    requires
                        k < n,
                ;
            }
            self.load_order(
                w_id,
                d_id,
                entry_d,
                &amounts[k * NEW_ORDER_AMOUNTS..(k + 1) * NEW_ORDER_AMOUNTS],
            );
            proof {
                let ob = before.order.spec_cache().len() as int;
                let orders = self.order.spec_cache().records();
                assert forall|j: int| 0 <= j < CUSTOMER_SCALE implies #[trigger] orders[ob + j][6] <= 15 by {
                    assert(loaded_order(orders[ob + j], w_id, d_id, j as u64, entry_d));
                }
                lemma_lines_before_bounded(orders, ob, CUSTOMER_SCALE as int);
                let steps1 = steps.push(*self);
                assert forall|j: int|
                    0 <= j < k + 1 implies #[trigger] steps1[j].orders_loaded(
                        steps1[j + 1],
                        (j / DISTRICT_SCALE as int) as u64,
                        (j % DISTRICT_SCALE as int) as u64,
                        entry_d,
                        amounts@.subrange(j * NEW_ORDER_AMOUNTS, (j + 1) * NEW_ORDER_AMOUNTS),
                    ) by {
                    if j < k {
                        assert(steps1[j] == steps[j]);
                        assert(steps1[j + 1] == steps[j + 1]);
                    }
                }
                assert forall|j: int|
                    0 <= j < k + 1 implies {
                        &&& (#[trigger] steps1[j + 1]).warehouse == s0.warehouse
                        &&& steps1[j + 1].district == s0.district
                        &&& steps1[j + 1].customer == s0.customer
                        &&& steps1[j + 1].item == s0.item
                        &&& steps1[j + 1].stock == s0.stock
                        &&& steps1[j + 1].c_last_idx == s0.c_last_idx
                        &&& steps1[j + 1].warehouse_cnt == s0.warehouse_cnt
                    } by {
                    if j < k {
                        assert(steps1[j + 1] == steps[j + 1]);
                    }
                }
                steps = steps1;
            }
            k += 1;
        }
        proof {
            assert(s0.orders_reloaded_through(*self, entry_d, amounts@, steps));
        }
    }
}

} // verus!

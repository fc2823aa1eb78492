use vstd::prelude::*;

use super::schemas::GeneralSchema;
use super::query::{
    CustomerQuery, DeliveryInput, NewOrderInput, OrderItem, OrderStatusInput, PaymentInput,
    StockLevelInput,
};
use super::tables::{
    customer_c_id, customer_key, district_key, district_next_o_id, last_name_key, order_key,
    order_line_item, order_line_key, stock_key,
    stock_quantity, new_order_key, order_line_amount, overwrite, le_word, lemma_overwrite_word,
    lemma_word_update, lemma_overwrite_twice, word_update_data, ORDER_LINE_ROW_LEN, NewOrderTuple,
    customer_balance, customer_delivery_cnt, le_word32, lemma_field_update, word32_update_data,
    CUSTOMER_ROW_LEN, item_price, stock_after_line, stock_line_ok, stock_left, stock_ytd,
    stock_order_cnt, stock_remote_cnt, stock_dist10, STOCK_ROW_LEN, DISTRICT_ROW_LEN,
    warehouse_name, warehouse_ytd, district_name, district_ytd, customer_middle, customer_credit,
    customer_discount, customer_ytd_payment, customer_payment_cnt, customer_data,
    WAREHOUSE_ROW_LEN, HistoryTuple, lemma_word_at, word64_at,
    CustomerTuple, DistrictTuple, ItemTuple, OrderLineTuple, OrderTuple,
    StockTuple, WarehouseTuple,
};
use crate::attribute_cache::clock_cache::oid::{
    lemma_lock_byte, oid_locked, OidWriteGuard, LOCK_MASK, LOCK_WRITER,
};
use crate::attribute_cache::{Rid, Schema};
use crate::benchmark::utils::{rand_ratio, FixedString};
use crate::error::TransactionError;
use crate::index::{Art, DbIndex, RawArt};
use crate::index::{keys_in_range, range_scanned};
use crate::query::{Field, FieldsMeta, UpdateQuery};
use crate::table::{keys_lead_to_records, range_into, DbTable};
use vstd::string::StringSliceAdditionalSpecFns;
use super::{CUSTOMER_SCALE, ITEM_SCALE};

verus! {

/// A table of the workload, indexed by a radix tree.
pub type TpccTable<F> = DbTable<Art, GeneralSchema<F>>;

/// No record of a table is locked.
pub open spec fn unlocked<S: Schema>(t: DbTable<Art, S>) -> bool {
    forall|r: int|
        0 <= r < t.spec_cache().len() ==> !oid_locked(#[trigger] t.spec_cache().locks()[r].word())
}

/// The chance, in tenths, that a read sets the reference bit of a cached record (and that a
/// promotion probes the cache), table by table.
pub const WAREHOUSE_REF_TENTHS: u32 = 5;
pub const DISTRICT_REF_TENTHS: u32 = 5;
pub const CUSTOMER_REF_TENTHS: u32 = 5;
pub const ITEM_REF_TENTHS: u32 = 9;
pub const STOCK_REF_TENTHS: u32 = 5;
pub const ORDER_REF_TENTHS: u32 = 0;
pub const ORDER_LINE_REF_TENTHS: u32 = 0;

/// A draw that is `true` with chance `tenths / 10`: always at ten tenths, never at none.
fn ref_draw(tenths: u32) -> (r: bool)
    requires
        tenths <= 10,
    ensures
        tenths == 10 ==> r,
        tenths == 0 ==> !r,
{
    rand_ratio(tenths, 10)
}

/// `n` copies of the record id 0.
pub open spec fn zero_rids(n: nat) -> Seq<Rid> {
    Seq::new(n, |i: int| Rid::spec_from_u32(0))
}

/// A buffer of `n` record ids 0.
fn zero_rid_buffer(n: usize) -> (r: Vec<Rid>)
    ensures
        r@ == zero_rids(n as nat),
{
    let mut v: Vec<Rid> = Vec::new();
    let mut i: usize = 0;
    while i < n
        invariant
            0 <= i <= n,
            v@ == zero_rids(i as nat),
        decreases n - i,
    {
        v.push(Rid::from_u32(0));
        i += 1;
        assert(v@ =~= zero_rids(i as nat));
    }
    v
}

/// The key of the stock row of the item of order line `rid`, in warehouse `w_id`.
pub open spec fn line_stock_key(ol: Seq<Seq<u8>>, w_id: u64, rid: Rid) -> int {
    stock_key(w_id, order_line_item(ol[rid.id() as int]))
}

/// Whether, for each of the first `n` order lines of `rids`, the stock of its item in
/// warehouse `w_id` has a row.
pub open spec fn stock_present(
    ol: Seq<Seq<u8>>,
    stock_entries: Map<usize, Rid>,
    w_id: u64,
    rids: Seq<Rid>,
    n: int,
) -> bool {
    forall|i: int|
        0 <= i < n ==> stock_entries.contains_key(#[trigger] line_stock_key(ol, w_id, rids[i]) as usize)
}

/// The number of the first `n` order lines of `rids` whose item's stock row in warehouse
/// `w_id` reads a quantity below `threshold`.
pub open spec fn low_stock_count(
    ol: Seq<Seq<u8>>,
    stock_entries: Map<usize, Rid>,
    stock: Seq<Seq<u8>>,
    w_id: u64,
    rids: Seq<Rid>,
    n: int,
    threshold: u32,
) -> nat
    decreases n,
{
    if n <= 0 {
        0
    } else {
        let s = stock[stock_entries[line_stock_key(ol, w_id, rids[n - 1]) as usize].id() as int];
        low_stock_count(ol, stock_entries, stock, w_id, rids, n - 1, threshold) + if stock_quantity(s)
            < threshold {
            1nat
        } else {
            0nat
        }
    }
}

/// The low-stock count counts a scanned line exactly when its stock row holds strictly fewer
/// than the threshold: the count of the first `n` lines is that of the first `n - 1` plus
/// one when line `n - 1`'s stock quantity is below the threshold, and the same when it is at
/// or above it (so a quantity equal to the threshold is not counted). No more lines are
/// counted than were scanned, none when every stock quantity is at or above the threshold,
/// and all of them when every one is below.
pub proof fn lemma_low_stock_counts_strictly_below(
    ol: Seq<Seq<u8>>,
    stock_entries: Map<usize, Rid>,
    stock: Seq<Seq<u8>>,
    w_id: u64,
    rids: Seq<Rid>,
    n: int,
    threshold: u32,
)
    requires
        n >= 0,
    ensures
        low_stock_count(ol, stock_entries, stock, w_id, rids, n, threshold) <= n,
        n >= 1 ==> {
            let s = stock[stock_entries[line_stock_key(ol, w_id, rids[n - 1]) as usize].id() as int];
            &&& stock_quantity(s) < threshold ==> low_stock_count(ol, stock_entries, stock, w_id, rids, n, threshold)
                == low_stock_count(ol, stock_entries, stock, w_id, rids, n - 1, threshold) + 1
            &&& stock_quantity(s) >= threshold ==> low_stock_count(ol, stock_entries, stock, w_id, rids, n, threshold)
                == low_stock_count(ol, stock_entries, stock, w_id, rids, n - 1, threshold)
        },
        (forall|i: int|
            0 <= i < n ==> stock_quantity(
                #[trigger] stock[stock_entries[line_stock_key(ol, w_id, rids[i]) as usize].id() as int],
            ) >= threshold) ==> low_stock_count(ol, stock_entries, stock, w_id, rids, n, threshold) == 0,
        (forall|i: int|
            0 <= i < n ==> stock_quantity(
                #[trigger] stock[stock_entries[line_stock_key(ol, w_id, rids[i]) as usize].id() as int],
            ) < threshold) ==> low_stock_count(ol, stock_entries, stock, w_id, rids, n, threshold) == n,
    decreases n,
{
    if n >= 1 {
        lemma_low_stock_counts_strictly_below(ol, stock_entries, stock, w_id, rids, n - 1, threshold);
    }
}

/// The lowest key of the order lines of district `d_id` of warehouse `w_id`.
pub open spec fn recent_lines_low(w_id: u32, d_id: u32) -> int {
    order_line_key(w_id as u64, d_id as u64, 0, 0)
}

/// The key past the order lines of the orders of district `d_id` of warehouse `w_id` below
/// order `next_o_id`.
pub open spec fn recent_lines_high(w_id: u32, d_id: u32, next_o_id: u64) -> int {
    order_line_key(w_id as u64, d_id as u64, next_o_id as usize as u64, 0xffff)
}

/// The record ids a range scan of a table writes lead to records of the table.
proof fn lemma_scanned_rids<S: Schema>(
    t: DbTable<Art, S>,
    low: usize,
    high: usize,
    before: Seq<Rid>,
    after: Seq<Rid>,
    n: usize,
)
    requires
        t.wf(),
        range_into(t.spec_index().raw_entries(), low, high, before, after, n),
    ensures
        after.len() == before.len(),
        n <= after.len(),
        forall|i: int| 0 <= i < n ==> (#[trigger] after[i]).id() < t.spec_cache().len(),
{
    let raw = t.spec_index().raw_entries();
    let out = choose|out: Seq<(usize, usize)>|
        {
            &&& out.len() == before.len()
            &&& after.len() == before.len()
            &&& #[trigger] crate::index::range_scanned(raw, low, high, out, n)
            &&& forall|i: int|
                0 <= i < n ==> after[i] == Rid::spec_from_u32((#[trigger] out[i]).1 as u32)
            &&& forall|i: int| n <= i < before.len() ==> after[i] == before[i]
        };
    t.spec_index().lemma_raw_entries();
    assert forall|i: int| 0 <= i < n implies (#[trigger] after[i]).id() < t.spec_cache().len() by {
        assert(raw.contains_key(out[i].0));
        assert(t.entries().contains_key(out[i].0));
    }
}

/// A table whose locks are those of an unlocked table but for one, which has no reader and
/// no writer, is unlocked.
proof fn lemma_unlocked_again<S: Schema>(before: DbTable<Art, S>, after: DbTable<Art, S>, r: int)
    requires
        unlocked(before),
        0 <= r < before.spec_cache().len(),
        after.spec_cache().locks() == before.spec_cache().locks().update(
            r,
            after.spec_cache().locks()[r],
        ),
        after.spec_cache().locks()[r].spec_read_cnt() == 0,
        !after.spec_cache().locks()[r].spec_write_locked(),
    ensures
        unlocked(after),
{
    lemma_lock_byte(after.spec_cache().locks()[r].word(), 0);
    assert forall|q: int| 0 <= q < after.spec_cache().len() implies !oid_locked(
        #[trigger] after.spec_cache().locks()[q].word(),
    ) by {
        if q != r {
            assert(after.spec_cache().locks()[q] == before.spec_cache().locks()[q]);
        }
    }
}

/// A table whose lock bytes are those of an unlocked table, but for the lock of record `r`,
/// which is free, is unlocked.
proof fn lemma_unlocked_but<S: Schema>(before: DbTable<Art, S>, after: DbTable<Art, S>, r: int)
    requires
        unlocked(before),
        after.spec_cache().len() == before.spec_cache().len(),
        forall|q: int|
            0 <= q < before.spec_cache().len() && q != r ==> #[trigger] after.spec_cache().locks()[q].word()
                & LOCK_MASK == before.spec_cache().locks()[q].word() & LOCK_MASK,
        0 <= r < before.spec_cache().len() ==> !oid_locked(after.spec_cache().locks()[r].word()),
    ensures
        unlocked(after),
{
    assert forall|q: int| 0 <= q < after.spec_cache().len() implies !oid_locked(
        #[trigger] after.spec_cache().locks()[q].word(),
    ) by {
        if q != r {
            lemma_lock_byte(after.spec_cache().locks()[q].word(), before.spec_cache().locks()[q].word());
        }
    }
}

/// The customer ids of the customer rows fit the order keys of district `d_id` of warehouse
/// `w_id`, and the order ids of the order rows fit its order-line keys.
pub open spec fn status_keys_fit(
    customers: Seq<Seq<u8>>,
    orders: Seq<Seq<u64>>,
    w_id: u32,
    d_id: u32,
) -> bool {
    &&& forall|r: int|
        0 <= r < customers.len() ==> order_key(
            w_id as u64,
            d_id as u64,
            customer_c_id(#[trigger] customers[r]),
            0xffff,
        ) <= u64::MAX
    &&& forall|r: int|
        0 <= r < orders.len() ==> order_line_key(
            w_id as u64,
            d_id as u64,
            (#[trigger] orders[r])[0] as usize as u64,
            0xffff,
        ) <= u64::MAX
}

/// The customer key an ORDER-STATUS or PAYMENT transaction looks up by id.
pub open spec fn query_customer_key(w_id: u32, d_id: u32, id: u32) -> int {
    customer_key(w_id as u64, d_id as u64, id as u64)
}

/// Every record of a table of order lines reads as the bytes of an order line.
proof fn lemma_order_line_rows<S: Schema<Tuple = OrderLineTuple>>(t: DbTable<Art, S>)
    requires
        t.wf(),
    ensures
        forall|r: int|
            0 <= r < t.spec_cache().len() ==> (#[trigger] t.spec_cache().records()[r]).len()
                == ORDER_LINE_ROW_LEN,
{
    t.spec_cache().lemma_records_stored();
    assert forall|r: int| 0 <= r < t.spec_cache().len() implies (
    #[trigger] t.spec_cache().records()[r]).len() == ORDER_LINE_ROW_LEN by {
        t.spec_cache().spec_storage()@[r].unwrap().lemma_len();
    }
}

/// `after` is `before` with the delivery date `delivery_d` written into each of the first
/// `n` order lines of `rids`, and `amounts` are their amounts, in order.
pub open spec fn delivered_lines(
    before: Seq<Seq<u8>>,
    after: Seq<Seq<u8>>,
    rids: Seq<Rid>,
    n: int,
    amounts: Seq<u64>,
    delivery_d: u64,
) -> bool {
    &&& after.len() == before.len()
    &&& amounts.len() == n
    &&& forall|i: int|
        0 <= i < n ==> amounts[i] == order_line_amount(before[(#[trigger] rids[i]).id() as int])
    &&& forall|r: int|
        0 <= r < before.len() ==> #[trigger] after[r] == if exists|i: int|
            0 <= i < n && (#[trigger] rids[i]).id() == r {
            overwrite(before[r], 40, le_word(delivery_d))
        } else {
            before[r]
        }
}

/// The lowest key of the order lines of order `o_id` of district `d_id` of warehouse `w_id`.
pub open spec fn order_lines_low(w_id: u32, d_id: u64, o_id: u64) -> int {
    order_line_key(w_id as u64, d_id as usize as u64, o_id as usize as u64, 0)
}

/// The key past the order lines of order `o_id`: its key with the number of items.
pub open spec fn order_lines_high(w_id: u32, d_id: u64, o_id: u64) -> int {
    order_line_key(w_id as u64, d_id as usize as u64, o_id as usize as u64, ITEM_SCALE as u64)
}

/// Every record of a table of customers reads as the bytes of a customer.
proof fn lemma_customer_rows<S: Schema<Tuple = CustomerTuple>>(t: DbTable<Art, S>)
    requires
        t.wf(),
    ensures
        forall|r: int|
            0 <= r < t.spec_cache().len() ==> (#[trigger] t.spec_cache().records()[r]).len()
                == CUSTOMER_ROW_LEN,
{
    t.spec_cache().lemma_records_stored();
    assert forall|r: int| 0 <= r < t.spec_cache().len() implies (
    #[trigger] t.spec_cache().records()[r]).len() == CUSTOMER_ROW_LEN by {
        t.spec_cache().spec_storage()@[r].unwrap().lemma_len();
    }
}

/// Every record of a table of orders reads as the eight words of an order.
proof fn lemma_order_rows<S: Schema<Tuple = OrderTuple>>(t: DbTable<Art, S>)
    requires
        t.wf(),
    ensures
        forall|r: int|
            0 <= r < t.spec_cache().len() ==> (#[trigger] t.spec_cache().records()[r]).len() == 8,
{
    t.spec_cache().lemma_records_stored();
}

/// Record `r` of the table is write-locked and no other record is locked.
pub open spec fn write_held<S: Schema>(t: DbTable<Art, S>, r: Rid) -> bool {
    &&& r.id() < t.spec_cache().len()
    &&& t.spec_cache().locks()[r.id() as int].word() & LOCK_MASK == LOCK_WRITER
    &&& forall|q: int|
        0 <= q < t.spec_cache().len() && q != r.id() ==> !oid_locked(
            #[trigger] t.spec_cache().locks()[q].word(),
        )
}

/// The keys of the new orders of district `d_id` of warehouse `w_id`.
pub open spec fn district_new_orders(no: Map<usize, usize>, w_id: u32, d_id: u64) -> Set<usize> {
    keys_in_range(
        no,
        new_order_key(w_id as u64, d_id, 0, 0) as usize,
        new_order_key(w_id as u64, d_id, 0xffff, 0xffff) as usize,
    )
}

/// The smallest of a set of keys.
pub open spec fn oldest_key(keys: Set<usize>) -> usize {
    choose|k: usize| keys.contains(k) && forall|k2: usize| #[trigger] keys.contains(k2) ==> k <= k2
}

/// The order id a new-order key carries.
pub open spec fn key_o_id(k: usize) -> usize {
    (k & 0x0000_0000_ffff_0000) >> 16usize
}

/// The customer id a new-order key carries.
pub open spec fn key_c_id(k: usize) -> usize {
    k & 0x0000_0000_0000_ffff
}

/// The key of the order a new-order key names, in district `d_id` of warehouse `w_id`.
pub open spec fn key_order(w_id: u32, d_id: u64, k: usize) -> usize {
    order_key(w_id as u64, d_id, key_c_id(k) as u64, key_o_id(k) as u64) as usize
}

/// The key of the customer a new-order key names, in district `d_id` of warehouse `w_id`.
pub open spec fn key_customer(w_id: u32, d_id: u64, k: usize) -> usize {
    customer_key(w_id as u64, d_id, key_c_id(k) as u64) as usize
}

/// The order that each new order of the district names, if it has a row, is an order of
/// the customer the new order names.
pub open spec fn new_orders_consistent(
    no: Map<usize, usize>,
    oe: Map<usize, Rid>,
    orders: Seq<Seq<u64>>,
    w_id: u32,
    d_id: u64,
) -> bool {
    forall|k: usize| #[trigger]
        district_new_orders(no, w_id, d_id).contains(k) && oe.contains_key(key_order(w_id, d_id, k))
            ==> orders[oe[key_order(w_id, d_id, k)].id() as int][1] == key_c_id(k) as u64
}

/// A district whose oldest new order was delivered up to the balance of its customer: the
/// order and the customer stay write-locked. The amounts of the order lines and the balance
/// are the bits of doubles.
pub struct DeliveredOrder {
    pub o_rid: Rid,
    pub o_lock: OidWriteGuard,
    pub c_rid: Rid,
    pub c_lock: OidWriteGuard,
    pub amounts: Vec<u64>,
    pub c_balance: u64,
    pub c_delivery_cnt: u32,
}

/// What a district step of a delivery came to.
pub enum DeliveryStep {
    /// The district has no new order: the delivery ends.
    NoNewOrder,
    Delivered(DeliveredOrder),
}

/// The key of the stock row a line of a new order takes from: its supplying warehouse above
/// its item.
pub open spec fn line_supply_key(l: OrderItem) -> usize {
    stock_key(l.ol_supply_w_id as u64, l.ol_i_id as u64) as usize
}

/// What stops the locking of line `i` of a new order, if anything: an unknown item rolls the
/// order back, a missing stock row is not found, and a stock row that an earlier line holds
/// is busy.
pub open spec fn line_error(
    ie: Map<usize, Rid>,
    se: Map<usize, Rid>,
    lines: Seq<OrderItem>,
    i: int,
) -> Option<TransactionError> {
    if !ie.contains_key(lines[i].ol_i_id as usize) {
        Some(TransactionError::UserAbort)
    } else if !se.contains_key(line_supply_key(lines[i])) {
        Some(TransactionError::IndexNotFound)
    } else if exists|j: int|
        0 <= j < i && se.contains_key(line_supply_key(#[trigger] lines[j])) && se[line_supply_key(
            lines[j],
        )] == se[line_supply_key(lines[i])] {
        Some(TransactionError::WriteLockBusy)
    } else {
        None
    }
}

/// The first error that the locking of the first `n` lines of a new order meets, if any.
pub open spec fn lines_error(
    ie: Map<usize, Rid>,
    se: Map<usize, Rid>,
    lines: Seq<OrderItem>,
    n: int,
) -> Option<TransactionError>
    decreases n,
{
    if n <= 0 {
        None
    } else {
        match lines_error(ie, se, lines, n - 1) {
            Some(e) => Some(e),
            None => line_error(ie, se, lines, n - 1),
        }
    }
}

/// Once the locking of a prefix of the lines meets an error, that is the error of every
/// longer prefix.
proof fn lemma_lines_error_stays(
    ie: Map<usize, Rid>,
    se: Map<usize, Rid>,
    lines: Seq<OrderItem>,
    m: int,
    n: int,
)
    requires
        0 <= m <= n,
        lines_error(ie, se, lines, m) is Some,
    ensures
        lines_error(ie, se, lines, n) == lines_error(ie, se, lines, m),
    decreases n - m,
{
    if m < n {
        lemma_lines_error_stays(ie, se, lines, m, n - 1);
    }
}

/// When the locking of the first `n` lines meets no error, the stock row of each of them is
/// there.
proof fn lemma_lines_error_none_present(
    ie: Map<usize, Rid>,
    se: Map<usize, Rid>,
    lines: Seq<OrderItem>,
    i: int,
    n: int,
)
    requires
        0 <= i < n,
        lines_error(ie, se, lines, n) is None,
    ensures
        se.contains_key(line_supply_key(lines[i])),
        ie.contains_key(lines[i].ol_i_id as usize),
    decreases n,
{
    if i < n - 1 {
        lemma_lines_error_none_present(ie, se, lines, i, n - 1);
    }
}

/// A line of a new order whose stock row is write-locked; the price of its item is the bits
/// of a double.
pub struct LockedLine {
    pub s_rid: Rid,
    pub s_lock: OidWriteGuard,
    pub i_price: u64,
}

/// The stock record ids of locked lines.
pub open spec fn held_rids(v: Seq<LockedLine>) -> Seq<Rid> {
    v.map_values(|l: LockedLine| l.s_rid)
}

/// The records `rids`, all different, are write-locked, and no other record is locked.
pub open spec fn held_exactly<S: Schema>(t: DbTable<Art, S>, rids: Seq<Rid>) -> bool {
    &&& forall|i: int| 0 <= i < rids.len() ==> (#[trigger] rids[i]).id() < t.spec_cache().len()
    &&& forall|i: int, j: int| 0 <= i < j < rids.len() ==> (#[trigger] rids[i]).id() != (
    #[trigger] rids[j]).id()
    &&& forall|i: int|
        0 <= i < rids.len() ==> t.spec_cache().locks()[(#[trigger] rids[i]).id() as int].word()
            & LOCK_MASK == LOCK_WRITER
    &&& forall|q: int|
        0 <= q < t.spec_cache().len() && (forall|i: int|
            0 <= i < rids.len() ==> (#[trigger] rids[i]).id() != q) ==> !oid_locked(
            #[trigger] t.spec_cache().locks()[q].word(),
        )
}

/// Every record of a table of stock reads as the bytes of a stock row.
proof fn lemma_stock_rows<S: Schema<Tuple = StockTuple>>(t: DbTable<Art, S>)
    requires
        t.wf(),
    ensures
        forall|r: int|
            0 <= r < t.spec_cache().len() ==> (#[trigger] t.spec_cache().records()[r]).len()
                == STOCK_ROW_LEN,
{
    t.spec_cache().lemma_records_stored();
    assert forall|r: int| 0 <= r < t.spec_cache().len() implies (
    #[trigger] t.spec_cache().records()[r]).len() == STOCK_ROW_LEN by {
        t.spec_cache().spec_storage()@[r].unwrap().lemma_len();
    }
}

/// Whether the line of a new order takes from another warehouse.
pub open spec fn line_remote(input: NewOrderInput, i: int) -> bool {
    input.orders@[i].ol_supply_w_id as u32 != input.w_id
}

/// Every record of a table of districts reads as the bytes of a district.
proof fn lemma_district_rows<S: Schema<Tuple = DistrictTuple>>(t: DbTable<Art, S>)
    requires
        t.wf(),
    ensures
        forall|r: int|
            0 <= r < t.spec_cache().len() ==> (#[trigger] t.spec_cache().records()[r]).len()
                == DISTRICT_ROW_LEN,
{
    t.spec_cache().lemma_records_stored();
    assert forall|r: int| 0 <= r < t.spec_cache().len() implies (
    #[trigger] t.spec_cache().records()[r]).len() == DISTRICT_ROW_LEN by {
        t.spec_cache().spec_storage()@[r].unwrap().lemma_len();
    }
}

/// The order row a new order inserts, with order id `o_id`.
pub open spec fn new_order_row(input: NewOrderInput, o_id: u64) -> OrderTuple {
    OrderTuple {
        o_id,
        o_c_id: input.c_id as u64,
        o_entry_d: input.o_entry_d,
        o_carrier_id: 0,
        o_d_id: input.d_id as u64,
        o_w_id: input.w_id as u64,
        o_ol_cnt: input.ol_cnt as u64,
        o_all_local: if input.all_local {
            1
        } else {
            0
        },
    }
}

/// The order a new order writes carries its input: its words are the order id, the
/// customer, the entry date, no carrier yet, the district, the warehouse, the number of
/// lines and whether every line is supplied by the home warehouse (1) or not (0).
pub proof fn lemma_new_order_row_carries_the_input(input: NewOrderInput, o_id: u64)
    ensures
        new_order_row(input, o_id)@.len() == 8,
        new_order_row(input, o_id)@[0] == o_id,
        new_order_row(input, o_id)@[1] == input.c_id as u64,
        new_order_row(input, o_id)@[2] == input.o_entry_d,
        new_order_row(input, o_id)@[3] == 0,
        new_order_row(input, o_id)@[4] == input.d_id as u64,
        new_order_row(input, o_id)@[5] == input.w_id as u64,
        new_order_row(input, o_id)@[6] == input.ol_cnt as u64,
        input.all_local ==> new_order_row(input, o_id)@[7] == 1,
        !input.all_local ==> new_order_row(input, o_id)@[7] == 0,
{
}

/// The warehouse, the district and the customer of a new order, write-locked; `o_id` is the
/// district's next order id.
pub struct HeadLocks {
    pub w_rid: Rid,
    pub w_lock: OidWriteGuard,
    pub d_rid: Rid,
    pub d_lock: OidWriteGuard,
    pub c_rid: Rid,
    pub c_lock: OidWriteGuard,
    pub o_id: u64,
}

/// The rows that none of the first `n` lines holds read the same before and after.
pub open spec fn other_rows_kept(
    before: Seq<Seq<u8>>,
    after: Seq<Seq<u8>>,
    lines: Seq<LockedLine>,
    n: int,
) -> bool {
    forall|q: int|
        0 <= q < before.len() && (forall|i: int| 0 <= i < n ==> (#[trigger] lines[i]).s_rid.id() != q)
            ==> #[trigger] after[q] == before[q]
}

/// A new order locked and written up to its order lines: the warehouse, the district and
/// the customer stay write-locked, and so do the stock rows of the lines; `o_id` is the id
/// the order got. The prices of the lines' items and the stock rows' tenth district
/// informations are what the order lines need.
pub struct PreparedOrder {
    pub w_rid: Rid,
    pub w_lock: OidWriteGuard,
    pub d_rid: Rid,
    pub d_lock: OidWriteGuard,
    pub c_rid: Rid,
    pub c_lock: OidWriteGuard,
    pub o_id: u64,
    pub lines: Vec<LockedLine>,
    pub dist_infos: Vec<FixedString<24>>,
}

/// Order line `i` of a new order with order id `o_id`, its amount (the bits of a double) and
/// the district information of its stock row.
pub open spec fn new_order_line_row(
    input: NewOrderInput,
    o_id: u64,
    i: int,
    amount: u64,
    dist: FixedString<24>,
) -> OrderLineTuple {
    OrderLineTuple {
        ol_o_id: o_id,
        ol_d_id: input.d_id as u64,
        ol_i_id: input.orders@[i].ol_i_id as u64,
        ol_supply_w_id: input.orders@[i].ol_supply_w_id as u64,
        ol_quantity: input.orders@[i].ol_quantity as u64,
        ol_delivery_d: 0,
        ol_amount: amount,
        ol_number: i as u64,
        ol_w_id: input.w_id as u64,
        ol_dist_info: dist,
    }
}

/// The rows of the order lines of a new order.
pub open spec fn new_order_line_rows(
    input: NewOrderInput,
    o_id: u64,
    amounts: Seq<u64>,
    dists: Seq<FixedString<24>>,
    n: int,
) -> Seq<Seq<u8>> {
    Seq::new(n as nat, |i: int| new_order_line_row(input, o_id, i, amounts[i], dists[i])@)
}

/// The order lines a new order writes carry its input: row `i` is for the new order id and
/// the order's district and warehouse, holds the item, the supplying warehouse and the
/// quantity of input line `i`, is not delivered yet, has line number `i`, holds the amount
/// given for it and the district information given for it.
pub proof fn lemma_new_order_lines_carry_the_input(
    input: NewOrderInput,
    o_id: u64,
    amounts: Seq<u64>,
    dists: Seq<FixedString<24>>,
    n: int,
    i: int,
)
    requires
        0 <= i < n,
    ensures
        ({
            let row = new_order_line_rows(input, o_id, amounts, dists, n)[i];
            &&& row.len() == ORDER_LINE_ROW_LEN
            &&& word64_at(row, 0) == o_id
            &&& word64_at(row, 8) == input.d_id as u64
            &&& word64_at(row, 16) == input.orders@[i].ol_i_id as u64
            &&& word64_at(row, 24) == input.orders@[i].ol_supply_w_id as u64
            &&& word64_at(row, 32) == input.orders@[i].ol_quantity as u64
            &&& word64_at(row, 40) == 0
            &&& word64_at(row, 48) == amounts[i]
            &&& word64_at(row, 56) == i as u64
            &&& word64_at(row, 64) == input.w_id as u64
            &&& row.subrange(72, 96) == dists[i]@
        }),
{
    let t = new_order_line_row(input, o_id, i, amounts[i], dists[i]);
    let row = new_order_line_rows(input, o_id, amounts, dists, n)[i];
    assert(row == t@);
    t.lemma_len();
    t.ol_dist_info.lemma_len();
    vstd::bytes::lemma_auto_spec_u64_to_from_le_bytes();
    assert(row.subrange(0, 8) =~= le_word(t.ol_o_id));
    lemma_word_at(row, 0, t.ol_o_id);
    assert(row.subrange(8, 16) =~= le_word(t.ol_d_id));
    lemma_word_at(row, 8, t.ol_d_id);
    assert(row.subrange(16, 24) =~= le_word(t.ol_i_id));
    lemma_word_at(row, 16, t.ol_i_id);
    assert(row.subrange(24, 32) =~= le_word(t.ol_supply_w_id));
    lemma_word_at(row, 24, t.ol_supply_w_id);
    assert(row.subrange(32, 40) =~= le_word(t.ol_quantity));
    lemma_word_at(row, 32, t.ol_quantity);
    assert(row.subrange(40, 48) =~= le_word(t.ol_delivery_d));
    lemma_word_at(row, 40, t.ol_delivery_d);
    assert(row.subrange(48, 56) =~= le_word(t.ol_amount));
    lemma_word_at(row, 48, t.ol_amount);
    assert(row.subrange(56, 64) =~= le_word(t.ol_number));
    lemma_word_at(row, 56, t.ol_number);
    assert(row.subrange(64, 72) =~= le_word(t.ol_w_id));
    lemma_word_at(row, 64, t.ol_w_id);
    assert(row.subrange(72, 96) =~= dists[i]@);
}

/// The entries of an index after the first `n` of `rows` were inserted, under the keys the
/// schema gives them, as the records from id `base` on.
pub open spec fn entries_after_inserts<S: Schema<Tuple = OrderLineTuple>>(
    schema: S,
    e: Map<usize, Rid>,
    rows: Seq<Seq<u8>>,
    base: int,
    n: int,
) -> Map<usize, Rid>
    decreases n,
{
    if n <= 0 {
        e
    } else {
        entries_after_inserts(schema, e, rows, base, n - 1).insert(
            schema.spec_key(rows[n - 1]),
            Rid::spec_from_u32((base + n - 1) as u32),
        )
    }
}

/// Every record of a table of warehouses reads as the bytes of a warehouse.
proof fn lemma_warehouse_rows<S: Schema<Tuple = WarehouseTuple>>(t: DbTable<Art, S>)
    requires
        t.wf(),
    ensures
        forall|r: int|
            0 <= r < t.spec_cache().len() ==> (#[trigger] t.spec_cache().records()[r]).len()
                == WAREHOUSE_ROW_LEN,
{
    t.spec_cache().lemma_records_stored();
    assert forall|r: int| 0 <= r < t.spec_cache().len() implies (
    #[trigger] t.spec_cache().records()[r]).len() == WAREHOUSE_ROW_LEN by {
        t.spec_cache().spec_storage()@[r].unwrap().lemma_len();
    }
}

/// The customer id a payment writes into its history: the one it was named by, or 0.
pub open spec fn history_c_id(q: CustomerQuery) -> u64 {
    match q {
        CustomerQuery::Id(i) => i as u64,
        CustomerQuery::LastName(_) => 0,
    }
}

/// The first 48 bytes of the history row of a payment: the customer id, the district, the
/// warehouse and the district again, then the start of the data, which is the warehouse
/// name, four zero bytes and the district name.
pub open spec fn payment_history_prefix(input: PaymentInput, w_name: Seq<u8>, d_name: Seq<u8>) -> Seq<
    u8,
> {
    le_word(history_c_id(input.c_query)) + le_word(input.d_id as u64) + le_word(input.w_id as u64)
        + le_word(input.d_id as u64) + (w_name + Seq::new(4, |i: int| 0u8) + d_name).subrange(0, 16)
}

/// The bytes of the credit a customer in bad standing has.
pub open spec fn bad_credit() -> Seq<u8> {
    seq![66u8, 67u8]
}

/// The bytes of the middle name every customer has.
pub open spec fn customer_middle_name() -> Seq<u8> {
    seq![79u8, 69u8]
}

/// A customer row after a payment: the new balance and year-to-date payment (the bits of
/// doubles), one more payment, and, for a customer in bad standing, the history prefix in
/// front of the data, whose end falls off.
pub open spec fn paid_customer_row(c: Seq<u8>, balance: u64, ytd: u64, prefix: Seq<u8>) -> Seq<u8> {
    let c1 = overwrite(c, 158, le_word(balance));
    let c2 = overwrite(c1, 166, le_word(ytd));
    let c3 = overwrite(c2, 174, le_word32((customer_payment_cnt(c) + 1) as u32));
    if customer_credit(c) == bad_credit() {
        overwrite(c3, 198, prefix + customer_data(c).subrange(0, 452))
    } else {
        c3
    }
}

/// A payment writes the customer's new balance and year-to-date payment and one more
/// payment, and keeps the rest of the row up to the data. For a customer whose credit is
/// "BC" the data is rewritten: its first 48 bytes become the payment's history prefix (the
/// customer id it was named by, or 0, the district, the warehouse, the district again, then
/// the warehouse name, four zero bytes and the start of the district name), followed by the
/// first 452 bytes of the old data. For any other credit the data stays as it was.
pub proof fn lemma_payment_customer_row(
    c: Seq<u8>,
    balance: u64,
    ytd: u64,
    input: PaymentInput,
    w_name: Seq<u8>,
    d_name: Seq<u8>,
    after: Seq<u8>,
)
    requires
        c.len() == CUSTOMER_ROW_LEN,
        w_name.len() == 10,
        d_name.len() == 10,
        customer_payment_cnt(c) < u32::MAX,
        after == paid_customer_row(c, balance, ytd, payment_history_prefix(input, w_name, d_name)),
    ensures
        after.len() == CUSTOMER_ROW_LEN,
        word64_at(after, 158) == balance,
        word64_at(after, 166) == ytd,
        customer_payment_cnt(after) == customer_payment_cnt(c) + 1,
        after.subrange(0, 158) == c.subrange(0, 158),
        after.subrange(178, 198) == c.subrange(178, 198),
        c.subrange(140, 142) == seq![66u8, 67u8] ==> {
            &&& word64_at(after, 198) == (match input.c_query {
                CustomerQuery::Id(i) => i as u64,
                CustomerQuery::LastName(_) => 0u64,
            })
            &&& word64_at(after, 206) == input.d_id as u64
            &&& word64_at(after, 214) == input.w_id as u64
            &&& word64_at(after, 222) == input.d_id as u64
            &&& after.subrange(230, 240) == w_name
            &&& after.subrange(240, 244) == seq![0u8, 0u8, 0u8, 0u8]
            &&& after.subrange(244, 246) == d_name.subrange(0, 2)
            &&& after.subrange(246, 698) == c.subrange(198, 650)
        },
        c.subrange(140, 142) != seq![66u8, 67u8] ==> after.subrange(198, 698) == c.subrange(198, 698),
{
    vstd::bytes::lemma_auto_spec_u64_to_from_le_bytes();
    vstd::bytes::lemma_auto_spec_u32_to_from_le_bytes();
    let prefix = payment_history_prefix(input, w_name, d_name);
    let c1 = overwrite(c, 158, le_word(balance));
    let c2 = overwrite(c1, 166, le_word(ytd));
    let cnt = (customer_payment_cnt(c) + 1) as u32;
    let c3 = overwrite(c2, 174, le_word32(cnt));
    assert(c3.len() == CUSTOMER_ROW_LEN);
    assert(c3.subrange(158, 166) =~= le_word(balance));
    assert(c3.subrange(166, 174) =~= le_word(ytd));
    assert(c3.subrange(174, 178) =~= le_word32(cnt));
    assert(c3.subrange(0, 158) =~= c.subrange(0, 158));
    assert(c3.subrange(178, 698) =~= c.subrange(178, 698));
    assert(customer_credit(c) == c.subrange(140, 142));
    if c.subrange(140, 142) == seq![66u8, 67u8] {
        assert(customer_credit(c) == bad_credit());
        let tail = (w_name + Seq::new(4, |i: int| 0u8) + d_name).subrange(0, 16);
        assert(prefix.len() == 48);
        let d = prefix + customer_data(c).subrange(0, 452);
        assert(after == overwrite(c3, 198, d));
        assert(after.subrange(198, 206) =~= le_word(history_c_id(input.c_query)));
        assert(after.subrange(206, 214) =~= le_word(input.d_id as u64));
        assert(after.subrange(214, 222) =~= le_word(input.w_id as u64));
        assert(after.subrange(222, 230) =~= le_word(input.d_id as u64));
        assert(after.subrange(230, 240) =~= w_name);
        assert(after.subrange(240, 244) =~= seq![0u8, 0u8, 0u8, 0u8]);
        assert(after.subrange(244, 246) =~= d_name.subrange(0, 2));
        assert(after.subrange(246, 698) =~= c.subrange(198, 650));
        assert(after.subrange(158, 166) =~= le_word(balance));
        assert(after.subrange(166, 174) =~= le_word(ytd));
        assert(after.subrange(174, 178) =~= le_word32(cnt));
        assert(after.subrange(0, 158) =~= c.subrange(0, 158));
        assert(after.subrange(178, 198) =~= c.subrange(178, 198));
        lemma_word_at(after, 198, history_c_id(input.c_query));
        lemma_word_at(after, 206, input.d_id as u64);
        lemma_word_at(after, 214, input.w_id as u64);
        lemma_word_at(after, 222, input.d_id as u64);
        lemma_word_at(after, 158, balance);
        lemma_word_at(after, 166, ytd);
    } else {
        assert(customer_credit(c) != bad_credit());
        assert(after == c3);
        assert(after.subrange(198, 698) =~= c.subrange(198, 698));
        assert(after.subrange(178, 198) =~= c.subrange(178, 198));
        lemma_word_at(after, 158, balance);
        lemma_word_at(after, 166, ytd);
    }
}

/// The warehouse and the district of a payment, write-locked, with the names and the
/// year-to-date balances (the bits of doubles) read from them.
pub struct PaymentHeads {
    pub w_rid: Rid,
    pub w_lock: OidWriteGuard,
    pub d_rid: Rid,
    pub d_lock: OidWriteGuard,
    pub w_name: FixedString<10>,
    pub w_ytd: u64,
    pub d_name: FixedString<10>,
    pub d_ytd: u64,
}

/// The customer of a payment, write-locked, with what the payment reads from it; the
/// discount, the balance and the year-to-date payment are the bits of doubles.
pub struct PaymentCustomer {
    pub c_rid: Rid,
    pub c_lock: OidWriteGuard,
    pub c_middle: FixedString<2>,
    pub c_credit: FixedString<2>,
    pub c_discount: u64,
    pub c_balance: u64,
    pub c_ytd_payment: u64,
    pub c_payment_cnt: u32,
}

/// What looking up the customer of a payment came to.
pub enum PaymentCustomerStep {
    /// No customer has the last name: the payment ends.
    NoCustomer,
    Found(PaymentHeads, PaymentCustomer),
}

/// A table in which only record `r` was locked, by a writer, is unlocked once that lock is
/// given back.
proof fn lemma_unlocked_after_release<S: Schema>(
    before: DbTable<Art, S>,
    after: DbTable<Art, S>,
    r: Rid,
)
    requires
        write_held(before, r),
        after.spec_cache().locks() == before.spec_cache().locks().update(
            r.id() as int,
            after.spec_cache().locks()[r.id() as int],
        ),
        !oid_locked(after.spec_cache().locks()[r.id() as int].word()),
    ensures
        unlocked(after),
{
    assert forall|q: int| 0 <= q < after.spec_cache().len() implies !oid_locked(
        #[trigger] after.spec_cache().locks()[q].word(),
    ) by {
        if q != r.id() {
            assert(after.spec_cache().locks()[q] == before.spec_cache().locks()[q]);
        }
    }
}

/// The TPC-C database: the tables, the last-name index of the customers, and the index of
/// the new orders, whose keys carry everything a new order holds. The type parameters are
/// the parts of the rows that each table caches.
pub struct TpccWorkload<W, D, C, I, S, O, OL> where
    GeneralSchema<W>: Schema<Tuple = WarehouseTuple>,
    GeneralSchema<D>: Schema<Tuple = DistrictTuple>,
    GeneralSchema<C>: Schema<Tuple = CustomerTuple>,
    GeneralSchema<I>: Schema<Tuple = ItemTuple>,
    GeneralSchema<S>: Schema<Tuple = StockTuple>,
    GeneralSchema<O>: Schema<Tuple = OrderTuple>,
    GeneralSchema<OL>: Schema<Tuple = OrderLineTuple>,
 {
    pub warehouse_cnt: u32,
    pub warehouse: TpccTable<W>,
    pub district: TpccTable<D>,
    pub customer: TpccTable<C>,
    pub c_last_idx: Art,
    pub item: TpccTable<I>,
    pub stock: TpccTable<S>,
    pub order: TpccTable<O>,
    pub order_line: TpccTable<OL>,
    pub new_order: RawArt,
}

impl<W, D, C, I, S, O, OL> TpccWorkload<W, D, C, I, S, O, OL> where
    GeneralSchema<W>: Schema<Tuple = WarehouseTuple>,
    GeneralSchema<D>: Schema<Tuple = DistrictTuple>,
    GeneralSchema<C>: Schema<Tuple = CustomerTuple>,
    GeneralSchema<I>: Schema<Tuple = ItemTuple>,
    GeneralSchema<S>: Schema<Tuple = StockTuple>,
    GeneralSchema<O>: Schema<Tuple = OrderTuple>,
    GeneralSchema<OL>: Schema<Tuple = OrderLineTuple>,
 {
    /// Every table is consistent.
    pub open spec fn wf(&self) -> bool {
        &&& self.warehouse.wf()
        &&& self.district.wf()
        &&& self.customer.wf()
        &&& self.item.wf()
        &&& self.stock.wf()
        &&& self.order.wf()
        &&& self.order_line.wf()
        &&& keys_lead_to_records(self.c_last_idx.entries(), self.customer.spec_cache().len())
        &&& forall|k: usize| #[trigger]
            self.new_order.entries().contains_key(k) ==> self.new_order.entries()[k] == k
    }

    /// No record of any table is locked.
    pub open spec fn unlocked(&self) -> bool {
        &&& unlocked(self.warehouse)
        &&& unlocked(self.district)
        &&& unlocked(self.customer)
        &&& unlocked(self.item)
        &&& unlocked(self.stock)
        &&& unlocked(self.order)
        &&& unlocked(self.order_line)
    }

    /// Every thread that uses the workload calls this first: it gets the thread's clock hand
    /// over each table ready.
    pub fn thread_init(&mut self)
        requires
            old(self).wf(),
        ensures
            final(self).wf(),
            final(self).warehouse.spec_cache().records() == old(self).warehouse.spec_cache().records(),
            final(self).district.spec_cache().records() == old(self).district.spec_cache().records(),
            final(self).customer.spec_cache().records() == old(self).customer.spec_cache().records(),
            final(self).item.spec_cache().records() == old(self).item.spec_cache().records(),
            final(self).stock.spec_cache().records() == old(self).stock.spec_cache().records(),
            final(self).order.spec_cache().records() == old(self).order.spec_cache().records(),
            final(self).order_line.spec_cache().records() == old(self).order_line.spec_cache().records(),
            final(self).warehouse.hand_set(),
            final(self).district.hand_set(),
            final(self).customer.hand_set(),
            final(self).item.hand_set(),
            final(self).stock.hand_set(),
            final(self).order.hand_set(),
            final(self).order_line.hand_set(),
    {
        self.warehouse.thread_init();
        self.district.thread_init();
        self.customer.thread_init();
        self.item.thread_init();
        self.stock.thread_init();
        self.order.thread_init();
        self.order_line.thread_init();
    }

    /// Counts the first `n` order lines of `rids` whose item's stock row in warehouse `w_id`
    /// reads a quantity below `threshold`: each order line is read-locked and read, then the
    /// stock row of its item; both locks are given back before the next line. Fails with
    /// `IndexNotFound` at the first line whose item has no stock row.
    pub fn count_low_stock(&mut self, w_id: u32, rids: &[Rid], n: usize, threshold: u32) -> (r:
        Result<usize, TransactionError>)
        requires
            old(self).wf(),
            unlocked(old(self).order_line),
            unlocked(old(self).stock),
            n <= rids@.len(),
            forall|i: int|
                0 <= i < n ==> (#[trigger] rids@[i]).id() < old(self).order_line.spec_cache().len(),
            forall|i: int|
                0 <= i < n ==> line_stock_key(
                    old(self).order_line.spec_cache().records(),
                    w_id as u64,
                    #[trigger] rids@[i],
                ) <= u64::MAX,
        ensures
            final(self).wf(),
            unlocked(final(self).order_line),
            unlocked(final(self).stock),
            final(self).order_line.entries() == old(self).order_line.entries(),
            final(self).order_line.spec_cache().records() == old(self).order_line.spec_cache().records(),
            final(self).stock.entries() == old(self).stock.entries(),
            final(self).stock.spec_cache().records() == old(self).stock.spec_cache().records(),
            final(self).warehouse == old(self).warehouse,
            final(self).district == old(self).district,
            final(self).customer == old(self).customer,
            final(self).item == old(self).item,
            final(self).order == old(self).order,
            final(self).c_last_idx == old(self).c_last_idx,
            final(self).new_order == old(self).new_order,
            final(self).warehouse_cnt == old(self).warehouse_cnt,
            r is Ok <==> stock_present(
                old(self).order_line.spec_cache().records(),
                old(self).stock.entries(),
                w_id as u64,
                rids@,
                n as int,
            ),
            r matches Ok(c) ==> c == low_stock_count(
                old(self).order_line.spec_cache().records(),
                old(self).stock.entries(),
                old(self).stock.spec_cache().records(),
                w_id as u64,
                rids@,
                n as int,
                threshold,
            ),
            r matches Err(e) ==> e == TransactionError::IndexNotFound,
    {
        let guard = self.warehouse.pin();
        let ghost ol0 = self.order_line.spec_cache().records();
        let ghost se = self.stock.entries();
        let ghost s0 = self.stock.spec_cache().records();
        let ghost w = w_id as u64;
        let mut cnt: usize = 0;
        let mut i: usize = 0;
        while i < n
            invariant
                0 <= i <= n,
                n <= rids@.len(),
                self.wf(),
                unlocked(self.order_line),
                unlocked(self.stock),
                self.order_line.entries() == old(self).order_line.entries(),
                self.order_line.spec_cache().records() == ol0,
                self.stock.entries() == se,
                self.stock.spec_cache().records() == s0,
                ol0 == old(self).order_line.spec_cache().records(),
                se == old(self).stock.entries(),
                s0 == old(self).stock.spec_cache().records(),
                w == w_id as u64,
                self.warehouse == old(self).warehouse,
                self.district == old(self).district,
                self.customer == old(self).customer,
                self.item == old(self).item,
                self.order == old(self).order,
                self.c_last_idx == old(self).c_last_idx,
                self.new_order == old(self).new_order,
                self.warehouse_cnt == old(self).warehouse_cnt,
                forall|j: int| 0 <= j < n ==> (#[trigger] rids@[j]).id() < ol0.len(),
                forall|j: int| 0 <= j < n ==> line_stock_key(ol0, w, #[trigger] rids@[j]) <= u64::MAX,
                stock_present(ol0, se, w, rids@, i as int),
                cnt == low_stock_count(ol0, se, s0, w, rids@, i as int, threshold),
                cnt <= i,
            decreases n - i,
        {
            let rid = rids[i];
            let ghost ol_before = self.order_line;
            proof {
                assert(rids@[i as int].id() < ol0.len());
                lemma_lock_byte(self.order_line.spec_cache().locks()[rid.id() as int].word(), 0);
            }
            let ol_lock = match self.order_line.lock_rid_r(rid) {
                Ok(g) => g,
                Err(e) => {
                    proof {
                        assert(false);
                    }
                    return Err(e);
                },
            };
            let ol = self.order_line.read_record(rid, &ol_lock, ref_draw(ORDER_LINE_REF_TENTHS));
            proof {
                ol.lemma_item();
                assert(line_stock_key(ol0, w, rids@[i as int]) <= u64::MAX);
            }
            let s_key = StockTuple::make_key(w_id as u64, ol.ol_i_id);
            let ghost st_before = self.stock;
            proof {
                if self.stock.entries().contains_key(s_key) {
                    lemma_lock_byte(self.stock.key_lock(s_key).word(), 0);
                    assert(self.stock.entries()[s_key].id() < self.stock.spec_cache().len());
                }
            }
            match self.stock.read_oid(&s_key, &guard) {
                Ok((s_rid, s_lock)) => {
                    let st = self.stock.read_record(s_rid, &s_lock, ref_draw(STOCK_REF_TENTHS));
                    proof {
                        st.lemma_quantity();
                    }
                    if st.s_quantity < threshold as u64 {
                        cnt += 1;
                    }
                    proof {
                        lemma_lock_byte(st_before.spec_cache().locks()[s_rid.id() as int].word(), 0);
                    }
                    self.stock.read_unlock(s_rid, s_lock);
                    proof {
                        assert(self.stock.spec_cache().locks() =~= st_before.spec_cache().locks().update(
                            s_rid.id() as int,
                            self.stock.spec_cache().locks()[s_rid.id() as int],
                        ));
                        lemma_unlocked_again(st_before, self.stock, s_rid.id() as int);
                        lemma_lock_byte(ol_before.spec_cache().locks()[rid.id() as int].word(), 0);
                    }
                    self.order_line.read_unlock(rid, ol_lock);
                    proof {
                        assert(self.order_line.spec_cache().locks() =~= ol_before.spec_cache().locks().update(
                            rid.id() as int,
                            self.order_line.spec_cache().locks()[rid.id() as int],
                        ));
                        lemma_unlocked_again(ol_before, self.order_line, rid.id() as int);
                        assert(stock_present(ol0, se, w, rids@, i + 1));
                    }
                },
                Err(e) => {
                    proof {
                        lemma_lock_byte(ol_before.spec_cache().locks()[rid.id() as int].word(), 0);
                    }
                    self.order_line.read_unlock(rid, ol_lock);
                    proof {
                        assert(self.order_line.spec_cache().locks() =~= ol_before.spec_cache().locks().update(
                            rid.id() as int,
                            self.order_line.spec_cache().locks()[rid.id() as int],
                        ));
                        lemma_unlocked_again(ol_before, self.order_line, rid.id() as int);
                        assert(!se.contains_key(line_stock_key(ol0, w, rids@[i as int]) as usize));
                    }
                    return Err(e);
                },
            }
            i += 1;
        }
        Ok(cnt)
    }

    /// The stock-level transaction: reads the next order id of the district, scans the
    /// order lines of its orders (at most 128), and counts those whose item's stock in the
    /// warehouse is below the threshold; see `count_low_stock`. The district stays
    /// read-locked meanwhile. Fails with `IndexNotFound` when the district or the stock of a
    /// scanned item has no row.
    pub fn stock_level(&mut self, input: &StockLevelInput) -> (r: Result<usize, TransactionError>)
        requires
            old(self).wf(),
            old(self).unlocked(),
            ({
                let dk = district_key(input.w_id as u64, input.d_id as u64) as usize;
                old(self).district.entries().contains_key(dk) ==> {
                    let o = district_next_o_id(old(self).district.row(dk));
                    &&& o >= 20
                    &&& recent_lines_high(input.w_id, input.d_id, o) <= u64::MAX
                    &&& forall|rids: Seq<Rid>, n: usize|
                        #[trigger] range_into(
                            old(self).order_line.spec_index().raw_entries(),
                            recent_lines_low(input.w_id, input.d_id) as usize,
                            recent_lines_high(input.w_id, input.d_id, o) as usize,
                            zero_rids(128),
                            rids,
                            n,
                        ) ==> forall|i: int|
                            0 <= i < n ==> line_stock_key(
                                old(self).order_line.spec_cache().records(),
                                input.w_id as u64,
                                #[trigger] rids[i],
                            ) <= u64::MAX
                }
            }),
        ensures
            final(self).wf(),
            final(self).unlocked(),
            final(self).district.entries() == old(self).district.entries(),
            final(self).district.spec_cache().records() == old(self).district.spec_cache().records(),
            final(self).order_line.entries() == old(self).order_line.entries(),
            final(self).order_line.spec_cache().records() == old(self).order_line.spec_cache().records(),
            final(self).stock.entries() == old(self).stock.entries(),
            final(self).stock.spec_cache().records() == old(self).stock.spec_cache().records(),
            final(self).warehouse == old(self).warehouse,
            final(self).customer == old(self).customer,
            final(self).item == old(self).item,
            final(self).order == old(self).order,
            final(self).c_last_idx == old(self).c_last_idx,
            final(self).new_order == old(self).new_order,
            final(self).warehouse_cnt == old(self).warehouse_cnt,
            ({
                let dk = district_key(input.w_id as u64, input.d_id as u64) as usize;
                &&& !old(self).district.entries().contains_key(dk) ==> r == Err::<usize, _>(
                    TransactionError::IndexNotFound,
                )
                &&& old(self).district.entries().contains_key(dk) ==> {
                    let o = district_next_o_id(old(self).district.row(dk));
                    exists|rids: Seq<Rid>, n: usize|
                        {
                            &&& #[trigger] range_into(
                                old(self).order_line.spec_index().raw_entries(),
                                recent_lines_low(input.w_id, input.d_id) as usize,
                                recent_lines_high(input.w_id, input.d_id, o) as usize,
                                zero_rids(128),
                                rids,
                                n,
                            )
                            &&& (r is Ok <==> stock_present(
                                old(self).order_line.spec_cache().records(),
                                old(self).stock.entries(),
                                input.w_id as u64,
                                rids,
                                n as int,
                            ))
                            &&& r matches Ok(c) ==> c == low_stock_count(
                                old(self).order_line.spec_cache().records(),
                                old(self).stock.entries(),
                                old(self).stock.spec_cache().records(),
                                input.w_id as u64,
                                rids,
                                n as int,
                                input.stock_threshold,
                            )
                            &&& r matches Err(e) ==> e == TransactionError::IndexNotFound
                        }
                }
            }),
    {
        let guard = self.warehouse.pin();
        let w = input.w_id as u64;
        let d = input.d_id as u64;
        assert((w << 48u64) <= 0xffff_0000_0000_0000u64) by (bit_vector);
        let d_key = DistrictTuple::make_key(w, d);
        let ghost d_before = self.district;
        proof {
            if self.district.entries().contains_key(d_key) {
                assert(self.district.entries()[d_key].id() < self.district.spec_cache().len());
                lemma_lock_byte(self.district.key_lock(d_key).word(), 0);
            }
        }
        let (d_rid, d_lock) = match self.district.read_oid_sync(&d_key, &guard) {
            Ok(x) => x,
            Err(e) => {
                return Err(e);
            },
        };
        let dist = self.district.read_record(d_rid, &d_lock, ref_draw(DISTRICT_REF_TENTHS));
        proof {
            dist.lemma_next_o_id();
        }
        let d_next_o_id = dist.d_next_o_id;
        proof {
            assert((0u64 << 20u64) == 0u64 && (0u64 << 20u64) <= ((d_next_o_id as usize as u64) << 20u64)) by (bit_vector);
        }
        let ol_low = OrderLineTuple::make_key(input.w_id as usize, input.d_id as usize, 0, 0);
        let ol_high = OrderLineTuple::make_key(
            input.w_id as usize,
            input.d_id as usize,
            d_next_o_id as usize,
            0xffff,
        );
        let mut ol_rids = zero_rid_buffer(128);
        let scanned = self.order_line.range(ol_low, ol_high, ol_rids.as_mut_slice()).unwrap();
        proof {
            lemma_scanned_rids(self.order_line, ol_low, ol_high, zero_rids(128), ol_rids@, scanned);
        }
        proof {
            assert(ol_low == recent_lines_low(input.w_id, input.d_id) as usize);
            assert(ol_high == recent_lines_high(input.w_id, input.d_id, d_next_o_id) as usize);
            assert(range_into(
                old(self).order_line.spec_index().raw_entries(),
                recent_lines_low(input.w_id, input.d_id) as usize,
                recent_lines_high(input.w_id, input.d_id, d_next_o_id) as usize,
                zero_rids(128),
                ol_rids@,
                scanned,
            ));
        }
        let r = self.count_low_stock(input.w_id, ol_rids.as_slice(), scanned, input.stock_threshold);
        proof {
            lemma_lock_byte(d_before.spec_cache().locks()[d_rid.id() as int].word(), 0);
        }
        self.district.read_unlock(d_rid, d_lock);
        proof {
            assert(self.district.spec_cache().locks() =~= d_before.spec_cache().locks().update(
                d_rid.id() as int,
                self.district.spec_cache().locks()[d_rid.id() as int],
            ));
            lemma_unlocked_again(d_before, self.district, d_rid.id() as int);
        }
        r
    }
    /// The order-status transaction: write-locks the customer, found by id or as the middle
    /// one of those with the last name (at most eight are scanned; none found ends the
    /// transaction), reads it, finds its most recent order (none ends the transaction),
    /// read-locks and reads it, then reads each of its order lines under a read lock. Fails
    /// with `IndexNotFound` when the customer id has no row. Every lock is given back.
    pub fn order_status(&mut self, input: &OrderStatusInput) -> (r: Result<(), TransactionError>)
        requires
            old(self).wf(),
            old(self).unlocked(),
            input.c_query matches CustomerQuery::Id(id) ==> query_customer_key(
                input.w_id,
                input.d_id,
                id,
            ) <= u64::MAX,
            status_keys_fit(
                old(self).customer.spec_cache().records(),
                old(self).order.spec_cache().records(),
                input.w_id,
                input.d_id,
            ),
        ensures
            final(self).wf(),
            final(self).unlocked(),
            final(self).customer.entries() == old(self).customer.entries(),
            final(self).customer.spec_cache().records() == old(self).customer.spec_cache().records(),
            final(self).order.entries() == old(self).order.entries(),
            final(self).order.spec_cache().records() == old(self).order.spec_cache().records(),
            final(self).order_line.entries() == old(self).order_line.entries(),
            final(self).order_line.spec_cache().records() == old(self).order_line.spec_cache().records(),
            final(self).warehouse == old(self).warehouse,
            final(self).district == old(self).district,
            final(self).item == old(self).item,
            final(self).stock == old(self).stock,
            final(self).c_last_idx == old(self).c_last_idx,
            final(self).new_order == old(self).new_order,
            final(self).warehouse_cnt == old(self).warehouse_cnt,
            r is Err <==> (input.c_query matches CustomerQuery::Id(id)
                && !old(self).customer.entries().contains_key(
                query_customer_key(input.w_id, input.d_id, id) as usize,
            )),
            r matches Err(e) ==> e == TransactionError::IndexNotFound,
    {
        let guard = self.warehouse.pin();
        let ghost c0 = self.customer;
        /* Read customer */
        let (c_rid, mut c_lock) = match input.c_query {
            CustomerQuery::Id(id) => {
                let c_key = CustomerTuple::make_key(input.w_id as u64, input.d_id as u64, id as u64);
                proof {
                    if self.customer.entries().contains_key(c_key) {
                        assert(self.customer.entries()[c_key].id() < self.customer.spec_cache().len());
                        lemma_lock_byte(self.customer.key_lock(c_key).word(), 0);
                    }
                }
                match self.customer.write_oid(&c_key, &guard) {
                    Ok(x) => x,
                    Err(e) => {
                        return Err(e);
                    },
                }
            },
            CustomerQuery::LastName(seed) => {
                let low = CustomerTuple::idx_key_lastname(
                    input.w_id as u16,
                    input.d_id as u16,
                    seed as u16,
                    0,
                );
                let high = CustomerTuple::idx_key_lastname(
                    input.w_id as u16,
                    input.d_id as u16,
                    seed as u16,
                    CUSTOMER_SCALE as u16,
                );
                let mut rid_buffer: Vec<(usize, usize)> = Vec::new();
                let mut k: usize = 0;
                while k < 8
                    invariant
                        0 <= k <= 8,
                        rid_buffer@.len() == k,
                    decreases 8 - k,
                {
                    rid_buffer.push((0, 0));
                    k += 1;
                }
                let cnt = self.c_last_idx.range(low, high, rid_buffer.as_mut_slice(), &guard);
                if cnt == 0 {
                    return Ok(());
                }
                let middle = rid_buffer[cnt / 2].1;
                let middle_rid = Rid::from_u32(middle as u32);
                proof {
                    let raw = self.c_last_idx.raw_entries();
                    self.c_last_idx.lemma_raw_entries();
                    assert(raw.contains_key(rid_buffer@[(cnt / 2) as int].0));
                    assert(self.c_last_idx.entries().contains_key(rid_buffer@[(cnt / 2) as int].0));
                    assert(middle_rid.id() < self.customer.spec_cache().len());
                    lemma_lock_byte(self.customer.spec_cache().locks()[middle_rid.id() as int].word(), 0);
                }
                match self.customer.lock_rid_w(middle_rid) {
                    Ok(g) => (middle_rid, g),
                    Err(e) => {
                        proof {
                            assert(false);
                        }
                        return Err(
                            match e {
                                TransactionError::IndexNotFound => TransactionError::UserAbort,
                                _ => e,
                            },
                        );
                    },
                }
            },
        };
        let ghost c1 = self.customer;
        proof {
            assert(c1.spec_cache().records().len() == c0.spec_cache().records().len());
            assert(c_rid.id() < c1.spec_cache().len());
        }
        let c_fields = FieldsMeta::new(
            [
                Field::new(0, 8),
                Field::new(158, 166),
                Field::new(8, 28),
                Field::new(28, 30),
                Field::new(30, 46),
            ],
        );
        {
            let _c_results = self.customer.read_and_promote(
                c_rid,
                &mut c_lock,
                &c_fields,
                ref_draw(CUSTOMER_REF_TENTHS),
                ref_draw(CUSTOMER_REF_TENTHS),
                ref_draw(CUSTOMER_REF_TENTHS),
            );
        }
        proof {
            assert(self.customer.spec_cache().records().len() == c1.spec_cache().records().len());
        }
        let cust = self.customer.read_record(c_rid, &c_lock, false);
        proof {
            cust.lemma_c_id();
        }
        let ghost c2 = self.customer;
        proof {
            assert(c2.spec_cache().records().len() == c0.spec_cache().records().len());
        }
        let c_id = cust.c_id;

        /* Scan and get the most recent order made by this customer */
        let order_low = OrderTuple::make_key(input.w_id as u64, input.d_id as u64, c_id, 0);
        let order_high = OrderTuple::make_key(input.w_id as u64, input.d_id as u64, c_id, 0xffff);
        let mut rid_buffer = zero_rid_buffer(12);
        let scanned = self.order.range(order_low, order_high, rid_buffer.as_mut_slice()).unwrap();
        proof {
            lemma_scanned_rids(self.order, order_low, order_high, zero_rids(12), rid_buffer@, scanned);
        }
        if scanned == 0 {
            self.customer.write_unlock(c_rid, c_lock);
            proof {
                assert forall|q: int| 0 <= q < c0.spec_cache().len() && q != c_rid.id() implies #[trigger] self.customer.spec_cache().locks()[q].word()
                    & LOCK_MASK == c0.spec_cache().locks()[q].word() & LOCK_MASK by {
                    assert(c1.spec_cache().locks()[q] == c0.spec_cache().locks()[q]);
                }
                lemma_unlocked_but(c0, self.customer, c_rid.id() as int);
            }
            return Ok(());
        }
        let most_recent = rid_buffer[scanned - 1];
        let ghost o0 = self.order;
        proof {
            lemma_lock_byte(self.order.spec_cache().locks()[most_recent.id() as int].word(), 0);
        }
        let o_lock = match self.order.lock_rid_r(most_recent) {
            Ok(g) => g,
            Err(e) => {
                proof {
                    assert(false);
                }
                return Err(e);
            },
        };
        let ord = self.order.read_record(most_recent, &o_lock, ref_draw(ORDER_REF_TENTHS));
        let o_id = ord.o_id;
        let ghost o1 = self.order;

        /* Scan the order line table */
        let ol_low = OrderLineTuple::make_key(
            input.w_id as usize,
            input.d_id as usize,
            o_id as usize,
            0,
        );
        let ol_high = OrderLineTuple::make_key(
            input.w_id as usize,
            input.d_id as usize,
            o_id as usize,
            0xffff,
        );
        let scanned = self.order_line.range(ol_low, ol_high, rid_buffer.as_mut_slice()).unwrap();
        proof {
            lemma_scanned_rids(self.order_line, ol_low, ol_high, rid_buffer@, rid_buffer@, scanned);
        }
        let ghost ol0 = self.order_line;
        let mut i: usize = 0;
        while i < scanned
            invariant
                0 <= i <= scanned,
                scanned <= rid_buffer@.len(),
                forall|j: int|
                    0 <= j < scanned ==> (#[trigger] rid_buffer@[j]).id() < ol0.spec_cache().len(),
                self.wf(),
                unlocked(self.order_line),
                self.order_line.entries() == ol0.entries(),
                self.order_line.spec_cache().records() == ol0.spec_cache().records(),
                self.order_line.spec_cache().len() == ol0.spec_cache().len(),
                self.customer == c2,
                self.order == o1,
                self.warehouse == old(self).warehouse,
                self.district == old(self).district,
                self.item == old(self).item,
                self.stock == old(self).stock,
                self.c_last_idx == old(self).c_last_idx,
                self.new_order == old(self).new_order,
                self.warehouse_cnt == old(self).warehouse_cnt,
            decreases scanned - i,
        {
            let r = rid_buffer[i];
            let ghost ol_before = self.order_line;
            proof {
                lemma_lock_byte(self.order_line.spec_cache().locks()[r.id() as int].word(), 0);
            }
            let ol_lock = match self.order_line.lock_rid_r(r) {
                Ok(g) => g,
                Err(e) => {
                    proof {
                        assert(false);
                    }
                    return Err(e);
                },
            };
            let _ol = self.order_line.read_record(r, &ol_lock, ref_draw(ORDER_LINE_REF_TENTHS));
            self.order_line.read_unlock(r, ol_lock);
            proof {
                assert(self.order_line.spec_cache().locks() =~= ol_before.spec_cache().locks().update(
                    r.id() as int,
                    self.order_line.spec_cache().locks()[r.id() as int],
                ));
                lemma_unlocked_again(ol_before, self.order_line, r.id() as int);
            }
            i += 1;
        }
        proof {
            lemma_lock_byte(o0.spec_cache().locks()[most_recent.id() as int].word(), 0);
        }
        self.order.read_unlock(most_recent, o_lock);
        proof {
            assert(self.order.spec_cache().locks() =~= o0.spec_cache().locks().update(
                most_recent.id() as int,
                self.order.spec_cache().locks()[most_recent.id() as int],
            ));
            lemma_unlocked_again(o0, self.order, most_recent.id() as int);
        }
        self.customer.write_unlock(c_rid, c_lock);
        proof {
            assert forall|q: int| 0 <= q < c0.spec_cache().len() && q != c_rid.id() implies #[trigger] self.customer.spec_cache().locks()[q].word()
                & LOCK_MASK == c0.spec_cache().locks()[q].word() & LOCK_MASK by {
                assert(c1.spec_cache().locks()[q] == c0.spec_cache().locks()[q]);
            }
            lemma_unlocked_but(c0, self.customer, c_rid.id() as int);
        }
        Ok(())
    }
    /// Takes the oldest new order of district `d_id` of warehouse `w_id` out of the
    /// new-order index: the smallest key from the district's first key up to, and not
    /// including, its last; gives back the key, or `None` when the district has none.
    pub fn take_oldest_new_order(&mut self, w_id: u32, d_id: u64) -> (r: Option<usize>)
        requires
            old(self).wf(),
            d_id < 0x1_0000,
        ensures
            final(self).wf(),
            final(self).warehouse == old(self).warehouse,
            final(self).district == old(self).district,
            final(self).customer == old(self).customer,
            final(self).item == old(self).item,
            final(self).stock == old(self).stock,
            final(self).order == old(self).order,
            final(self).order_line == old(self).order_line,
            final(self).c_last_idx == old(self).c_last_idx,
            final(self).warehouse_cnt == old(self).warehouse_cnt,
            ({
                let keys = keys_in_range(
                    old(self).new_order.entries(),
                    new_order_key(w_id as u64, d_id, 0, 0) as usize,
                    new_order_key(w_id as u64, d_id, 0xffff, 0xffff) as usize,
                );
                &&& r is None <==> (forall|k: usize| !#[trigger] keys.contains(k))
                &&& r is None ==> final(self).new_order == old(self).new_order
                &&& r matches Some(k) ==> {
                    &&& keys.contains(k)
                    &&& forall|k2: usize| #[trigger] keys.contains(k2) ==> k <= k2
                    &&& final(self).new_order.entries() == old(self).new_order.entries().remove(k)
                }
            }),
    {
        let w = w_id as u64;
        assert((w << 48u64) <= 0xffff_0000_0000_0000u64 && (d_id << 32u64) <= 0xffff_0000_0000u64
            && (0u64 << 32u64) == 0u64 && (0u64 << 16u64) == 0u64 && (0xffffu64 << 16u64)
            == 0xffff_0000u64) by (bit_vector)
            requires
                d_id < 0x1_0000,
        ;
        let guard = self.new_order.pin();
        let low = NewOrderTuple::make_key(w, d_id, 0, 0);
        let high = NewOrderTuple::make_key(w, d_id, 0xffff, 0xffff);
        let mut out: Vec<(usize, usize)> = Vec::new();
        out.push((0, 0));
        let n = self.new_order.range(low, high, out.as_mut_slice(), &guard);
        let ghost keys = keys_in_range(old(self).new_order.entries(), low, high);
        if n == 0 {
            proof {
                assert forall|k: usize| !#[trigger] keys.contains(k) by {
                    if keys.contains(k) {
                        assert(n > 0);
                    }
                }
            }
            return None;
        }
        let key = out[0].1;
        proof {
            let e = old(self).new_order.entries();
            assert(e.contains_key(out@[0].0));
            assert(key == out@[0].0);
            assert(keys.contains(key));
            assert forall|k2: usize| #[trigger] keys.contains(k2) implies key <= k2 by {
                if (forall|i: int| 0 <= i < n ==> (#[trigger] out@[i]).0 != k2) {
                    assert(out@[n - 1].0 < k2);
                }
            }
        }
        self.new_order.remove(key, &guard);
        proof {
            assert forall|k: usize| #[trigger] self.new_order.entries().contains_key(k) implies self.new_order.entries()[k] == k by {
                assert(old(self).new_order.entries().contains_key(k));
            }
        }
        Some(key)
    }
    /// Delivers the order lines of order `o_id` of district `d_id` of warehouse `w_id`: scans
    /// them (at most 20) and, one after the other under a write lock, caches each, writes
    /// `delivery_d` into its delivery date and reads its amount. Gives back the amounts, as
    /// the bits of doubles, in key order.
    pub fn deliver_order_lines(&mut self, w_id: u32, d_id: u64, o_id: u64, delivery_d: u64) -> (r:
        Result<Vec<u64>, TransactionError>)
        requires
            old(self).wf(),
            unlocked(old(self).order_line),
            order_lines_high(w_id, d_id, o_id) <= u64::MAX,
        ensures
            final(self).wf(),
            unlocked(final(self).order_line),
            final(self).order_line.entries() == old(self).order_line.entries(),
            final(self).warehouse == old(self).warehouse,
            final(self).district == old(self).district,
            final(self).customer == old(self).customer,
            final(self).item == old(self).item,
            final(self).stock == old(self).stock,
            final(self).order == old(self).order,
            final(self).c_last_idx == old(self).c_last_idx,
            final(self).new_order == old(self).new_order,
            final(self).warehouse_cnt == old(self).warehouse_cnt,
            r is Ok,
            exists|rids: Seq<Rid>, n: usize|
                {
                    &&& #[trigger] range_into(
                        old(self).order_line.spec_index().raw_entries(),
                        order_lines_low(w_id, d_id, o_id) as usize,
                        order_lines_high(w_id, d_id, o_id) as usize,
                        zero_rids(20),
                        rids,
                        n,
                    )
                    &&& r matches Ok(a) ==> delivered_lines(
                        old(self).order_line.spec_cache().records(),
                        final(self).order_line.spec_cache().records(),
                        rids,
                        n as int,
                        a@,
                        delivery_d,
                    )
                },
    {
        assert((0u64 << 0u64) == 0u64) by (bit_vector);
        let ol_low = OrderLineTuple::make_key(w_id as usize, d_id as usize, o_id as usize, 0);
        let ol_high = OrderLineTuple::make_key(
            w_id as usize,
            d_id as usize,
            o_id as usize,
            ITEM_SCALE,
        );
        let mut rids = zero_rid_buffer(20);
        let n = self.order_line.range(ol_low, ol_high, rids.as_mut_slice()).unwrap();
        proof {
            lemma_scanned_rids(self.order_line, ol_low, ol_high, zero_rids(20), rids@, n);
            lemma_order_line_rows(self.order_line);
            assert(ol_low == order_lines_low(w_id, d_id, o_id) as usize);
            assert(ol_high == order_lines_high(w_id, d_id, o_id) as usize);
        }
        let ghost scanned_rids = rids@;
        assert(range_into(
            old(self).order_line.spec_index().raw_entries(),
            order_lines_low(w_id, d_id, o_id) as usize,
            order_lines_high(w_id, d_id, o_id) as usize,
            zero_rids(20),
            scanned_rids,
            n,
        ));
        let ghost orig = self.order_line.spec_cache().records();
        let ghost ol0 = self.order_line;
        let ol_fields = FieldsMeta::new([Field::new(40, 48), Field::new(48, 56)]);
        let mut amounts: Vec<u64> = Vec::new();
        let mut i: usize = 0;
        while i < n
            invariant
                0 <= i <= n,
                n <= rids@.len(),
                rids@ == scanned_rids,
                forall|j: int| 0 <= j < n ==> (#[trigger] rids@[j]).id() < orig.len(),
                forall|q: int| 0 <= q < orig.len() ==> (#[trigger] orig[q]).len() == ORDER_LINE_ROW_LEN,
                orig == old(self).order_line.spec_cache().records(),
                self.wf(),
                unlocked(self.order_line),
                self.order_line.entries() == old(self).order_line.entries(),
                self.warehouse == old(self).warehouse,
                self.district == old(self).district,
                self.customer == old(self).customer,
                self.item == old(self).item,
                self.stock == old(self).stock,
                self.order == old(self).order,
                self.c_last_idx == old(self).c_last_idx,
                self.new_order == old(self).new_order,
                self.warehouse_cnt == old(self).warehouse_cnt,
                delivered_lines(
                    orig,
                    self.order_line.spec_cache().records(),
                    rids@,
                    i as int,
                    amounts@,
                    delivery_d,
                ),
            decreases n - i,
        {
            let r = rids[i];
            let ghost before = self.order_line;
            let ghost cur = self.order_line.spec_cache().records();
            proof {
                lemma_lock_byte(self.order_line.spec_cache().locks()[r.id() as int].word(), 0);
            }
            let mut ol_lock = match self.order_line.lock_rid_w(r) {
                Ok(g) => g,
                Err(e) => {
                    proof {
                        assert(false);
                    }
                    return Err(e);
                },
            };
            let ghost locked = self.order_line;
            {
                let _ol_results = self.order_line.read_and_promote(
                    r,
                    &mut ol_lock,
                    &ol_fields,
                    ref_draw(ORDER_LINE_REF_TENTHS),
                    ref_draw(ORDER_LINE_REF_TENTHS),
                    ref_draw(ORDER_LINE_REF_TENTHS),
                );
            }
            let ghost promoted = self.order_line;
            let data = word_update_data(delivery_d);
            let upd = UpdateQuery::new([Field::new(40, 48)], data.as_slice());
            proof {
                assert(upd.spec_meta().fields@ =~= seq![Field::spec_new(40, 48)]);
                assert(promoted.spec_cache().records() == cur);
                assert(cur[r.id() as int].len() == ORDER_LINE_ROW_LEN) by {
                    lemma_order_line_rows(before);
                }
                lemma_word_update(cur[r.id() as int], Field::spec_new(40, 48), delivery_d);
                lemma_overwrite_word(cur[r.id() as int], 40, delivery_d);
            }
            self.order_line.update(r, &mut ol_lock, upd);
            let ol = self.order_line.read_record(r, &ol_lock, false);
            proof {
                ol.lemma_amount();
                assert(ol@ == overwrite(cur[r.id() as int], 40, le_word(delivery_d)));
                assert(order_line_amount(ol@) == order_line_amount(cur[r.id() as int]));
            }
            amounts.push(ol.ol_amount);
            let ghost updated = self.order_line;
            self.order_line.write_unlock(r, ol_lock);
            proof {
                assert forall|q: int| 0 <= q < before.spec_cache().len() && q != r.id() implies #[trigger] self.order_line.spec_cache().locks()[q].word()
                    & LOCK_MASK == before.spec_cache().locks()[q].word() & LOCK_MASK by {
                    assert(locked.spec_cache().locks()[q] == before.spec_cache().locks()[q]);
                    assert(updated.spec_cache().locks()[q] == promoted.spec_cache().locks()[q]);
                }
                lemma_unlocked_but(before, self.order_line, r.id() as int);
                let now = self.order_line.spec_cache().records();
                let ri = r.id() as int;
                assert(now == cur.update(ri, overwrite(cur[ri], 40, le_word(delivery_d))));
                // the amount read is that of the original row
                if exists|j: int| 0 <= j < i && (#[trigger] rids@[j]).id() == ri {
                    lemma_overwrite_twice(orig[ri], 40, le_word(delivery_d));
                    lemma_overwrite_word(orig[ri], 40, delivery_d);
                } else {
                    lemma_overwrite_word(orig[ri], 40, delivery_d);
                }
                assert(amounts@[i as int] == order_line_amount(orig[ri]));
                assert forall|q: int| 0 <= q < orig.len() implies #[trigger] now[q] == if exists|j: int|
                    0 <= j < i + 1 && (#[trigger] rids@[j]).id() == q {
                    overwrite(orig[q], 40, le_word(delivery_d))
                } else {
                    orig[q]
                } by {
                    if q == ri {
                        assert(rids@[i as int].id() == q);
                    } else {
                        if exists|j: int| 0 <= j < i + 1 && (#[trigger] rids@[j]).id() == q {
                            let j = choose|j: int| 0 <= j < i + 1 && (#[trigger] rids@[j]).id() == q;
                            assert(j != i);
                        }
                    }
                }
                assert forall|j: int| 0 <= j < i + 1 implies amounts@[j] == order_line_amount(
                    orig[(#[trigger] rids@[j]).id() as int],
                ) by {}
            }
            i += 1;
        }
        assert(rids@ == scanned_rids);
        Ok(amounts)
    }
    /// A district step of the delivery transaction: takes the oldest new order of district
    /// `d_id` out of the new-order index (none ends the delivery), write-locks its order,
    /// reads it and writes the carrier into it, delivers its order lines (see
    /// `deliver_order_lines`), then write-locks, caches and reads its customer. Both locks
    /// stay held for `finish_delivery_district`. Fails with `IndexNotFound`, every lock given
    /// back, when the order or the customer has no row.
    pub fn delivery_district(&mut self, input: &DeliveryInput, d_id: u64, delivery_d: u64) -> (r:
        Result<DeliveryStep, TransactionError>)
        requires
            old(self).wf(),
            old(self).unlocked(),
            d_id < 0x10,
            new_orders_consistent(
                old(self).new_order.entries(),
                old(self).order.entries(),
                old(self).order.spec_cache().records(),
                input.w_id,
                d_id,
            ),
        ensures
            final(self).wf(),
            final(self).warehouse == old(self).warehouse,
            final(self).district == old(self).district,
            final(self).item == old(self).item,
            final(self).stock == old(self).stock,
            final(self).c_last_idx == old(self).c_last_idx,
            final(self).warehouse_cnt == old(self).warehouse_cnt,
            final(self).customer.entries() == old(self).customer.entries(),
            final(self).customer.spec_cache().records() == old(self).customer.spec_cache().records(),
            final(self).order.entries() == old(self).order.entries(),
            final(self).order_line.entries() == old(self).order_line.entries(),
            unlocked(final(self).order_line),
            ({
                let keys = district_new_orders(old(self).new_order.entries(), input.w_id, d_id);
                let k = oldest_key(keys);
                let ok = key_order(input.w_id, d_id, k);
                let ck = key_customer(input.w_id, d_id, k);
                &&& (r matches Ok(DeliveryStep::NoNewOrder)) <==> (forall|k2: usize|
                    !#[trigger] keys.contains(k2))
                &&& r matches Ok(DeliveryStep::NoNewOrder) ==> final(self).new_order == old(self).new_order && final(self).order == old(self).order && final(self).order_line
                    == old(self).order_line && final(self).unlocked()
                &&& !(r matches Ok(DeliveryStep::NoNewOrder)) ==> {
                    &&& keys.contains(k)
                    &&& final(self).new_order.entries() == old(self).new_order.entries().remove(k)
                }
                &&& r is Err <==> !(r matches Ok(DeliveryStep::NoNewOrder)) && (!old(self).order.entries().contains_key(ok) || !old(self).customer.entries().contains_key(
                    ck,
                ))
                &&& r matches Err(e) ==> e == TransactionError::IndexNotFound && final(self).unlocked()
                &&& r matches Ok(DeliveryStep::Delivered(x)) ==> {
                    &&& x.o_rid == old(self).order.entries()[ok]
                    &&& final(self).order.spec_cache().records() == old(self).order.spec_cache().records().update(
                        x.o_rid.id() as int,
                        old(self).order.spec_cache().records()[x.o_rid.id() as int].update(
                            3,
                            input.o_carrier_id as u64,
                        ),
                    )
                    &&& write_held(final(self).order, x.o_rid)
                    &&& exists|rids: Seq<Rid>, n: usize|
                        {
                            &&& #[trigger] range_into(
                                old(self).order_line.spec_index().raw_entries(),
                                order_lines_low(input.w_id, d_id, key_o_id(k) as u64) as usize,
                                order_lines_high(input.w_id, d_id, key_o_id(k) as u64) as usize,
                                zero_rids(20),
                                rids,
                                n,
                            )
                            &&& delivered_lines(
                                old(self).order_line.spec_cache().records(),
                                final(self).order_line.spec_cache().records(),
                                rids,
                                n as int,
                                x.amounts@,
                                delivery_d,
                            )
                        }
                    &&& x.c_rid == old(self).customer.entries()[ck]
                    &&& write_held(final(self).customer, x.c_rid)
                    &&& x.c_balance == customer_balance(old(self).customer.row(ck))
                    &&& x.c_delivery_cnt == customer_delivery_cnt(old(self).customer.row(ck))
                }
            }),
    {
        let guard = self.warehouse.pin();
        let ghost keys = district_new_orders(old(self).new_order.entries(), input.w_id, d_id);
        let k = match self.take_oldest_new_order(input.w_id, d_id) {
            None => {
                return Ok(DeliveryStep::NoNewOrder);
            },
            Some(k) => k,
        };
        proof {
            assert(oldest_key(keys) == k) by {
                let m = oldest_key(keys);
                assert(keys.contains(m) && forall|k2: usize| #[trigger] keys.contains(k2) ==> m <= k2);
                assert(m <= k && k <= m);
            }
        }
        let (o_id, c_id) = NewOrderTuple::o_c_id_from_key(k);
        let w = input.w_id as u64;
        let o = o_id as u64;
        let c = c_id as u64;
        assert((w << 48u64) <= 0xffff_0000_0000_0000u64 && (d_id << 32u64) <= 0xf_0000_0000u64 && (c
            << 16u64) <= 0xffff_0000u64 && (d_id << 40u64) <= 0xf00_0000_0000u64 && (o << 20u64)
            <= 0xf_fff0_0000u64) by (bit_vector)
            requires
                d_id < 0x10u64,
                c < 0x1_0000u64,
                o < 0x1_0000u64,
        ;
        let order_key = OrderTuple::make_key(w, d_id, c, o);
        proof {
            assert(order_key == key_order(input.w_id, d_id, k));
            assert((o as usize as u64) == o);
        }
        let ghost o0 = self.order;
        proof {
            if self.order.entries().contains_key(order_key) {
                assert(self.order.entries()[order_key].id() < self.order.spec_cache().len());
                lemma_lock_byte(self.order.key_lock(order_key).word(), 0);
            }
        }
        let (o_rid, mut o_lock) = match self.order.write_oid(&order_key, &guard) {
            Ok(x) => x,
            Err(e) => {
                return Err(e);
            },
        };
        let ghost o1 = self.order;
        proof {
            assert(o1.spec_cache().records().len() == o0.spec_cache().records().len());
        }
        let ord = self.order.read_record(o_rid, &o_lock, ref_draw(ORDER_REF_TENTHS));
        let o_c_id = ord.o_c_id;
        proof {
            assert(o_c_id == c);
        }
        let data = word_update_data(input.o_carrier_id as u64);
        let upd = UpdateQuery::new([Field::new(24, 32)], data.as_slice());
        proof {
            vstd::bytes::lemma_auto_spec_u64_to_from_le_bytes();
            assert(upd.spec_meta().fields@ =~= seq![Field::spec_new(24, 32)]);
            assert(data@.subrange(0, 8) =~= data@);
        }
        self.order.update(o_rid, &mut o_lock, upd);
        let ghost o2 = self.order;
        proof {
            let v = o0.spec_cache().records()[o_rid.id() as int];
            let fs = seq![Field::spec_new(24, 32)];
            assert(crate::benchmark::tpcc::tables::updated_words_below(v, fs, data@, 0, 64) == v);
            assert(crate::query::prefix_size(fs, 0) == 0);
            assert(o2.spec_cache().records() =~= o0.spec_cache().records().update(
                o_rid.id() as int,
                v.update(3, input.o_carrier_id as u64),
            ));
        }
        let amounts = match self.deliver_order_lines(input.w_id, d_id, o, delivery_d) {
            Ok(a) => a,
            Err(e) => {
                proof {
                    assert(false);
                }
                return Err(e);
            },
        };
        let c_key = CustomerTuple::make_key(w, d_id, o_c_id);
        proof {
            assert(c_key == key_customer(input.w_id, d_id, k));
        }
        let ghost c0 = self.customer;
        proof {
            if self.customer.entries().contains_key(c_key) {
                assert(self.customer.entries()[c_key].id() < self.customer.spec_cache().len());
                lemma_lock_byte(self.customer.key_lock(c_key).word(), 0);
            }
        }
        let (c_rid, mut c_lock) = match self.customer.write_oid(&c_key, &guard) {
            Ok(x) => x,
            Err(e) => {
                self.order.write_unlock(o_rid, o_lock);
                proof {
                    assert forall|q: int| 0 <= q < o0.spec_cache().len() && q != o_rid.id() implies #[trigger] self.order.spec_cache().locks()[q].word()
                        & LOCK_MASK == o0.spec_cache().locks()[q].word() & LOCK_MASK by {
                        assert(o1.spec_cache().locks()[q] == o0.spec_cache().locks()[q]);
                    }
                    lemma_unlocked_but(o0, self.order, o_rid.id() as int);
                }
                return Err(e);
            },
        };
        let ghost c1 = self.customer;
        proof {
            assert(c1.spec_cache().records().len() == c0.spec_cache().records().len());
        }
        let c_fields = FieldsMeta::new([Field::new(158, 166), Field::new(178, 182)]);
        {
            let _c_results = self.customer.read_and_promote(
                c_rid,
                &mut c_lock,
                &c_fields,
                ref_draw(CUSTOMER_REF_TENTHS),
                ref_draw(CUSTOMER_REF_TENTHS),
                ref_draw(CUSTOMER_REF_TENTHS),
            );
        }
        proof {
            assert(self.customer.spec_cache().records().len() == c0.spec_cache().records().len());
        }
        let cust = self.customer.read_record(c_rid, &c_lock, false);
        proof {
            cust.lemma_delivery();
            assert forall|q: int| 0 <= q < self.customer.spec_cache().len() && q != c_rid.id() implies !oid_locked(
                #[trigger] self.customer.spec_cache().locks()[q].word(),
            ) by {
                assert(c1.spec_cache().locks()[q] == c0.spec_cache().locks()[q]);
                lemma_lock_byte(self.customer.spec_cache().locks()[q].word(), c0.spec_cache().locks()[q].word());
            }
            assert forall|q: int| 0 <= q < self.order.spec_cache().len() && q != o_rid.id() implies !oid_locked(
                #[trigger] self.order.spec_cache().locks()[q].word(),
            ) by {
                assert(o1.spec_cache().locks()[q] == o0.spec_cache().locks()[q]);
            }
        }
        Ok(
            DeliveryStep::Delivered(
                DeliveredOrder {
                    o_rid,
                    o_lock,
                    c_rid,
                    c_lock,
                    amounts,
                    c_balance: cust.c_balance,
                    c_delivery_cnt: cust.c_delivery_cnt,
                },
            ),
        )
    }
    /// Ends a district step of the delivery: writes the new balance `c_balance` (the bits of
    /// a double: the old balance plus the amounts of the order lines, as the caller adds
    /// them) and one more delivery into the customer, then gives back the customer's and the
    /// order's locks.
    pub fn finish_delivery_district(&mut self, delivered: DeliveredOrder, c_balance: u64)
        requires
            old(self).wf(),
            write_held(old(self).order, delivered.o_rid),
            write_held(old(self).customer, delivered.c_rid),
            unlocked(old(self).warehouse),
            unlocked(old(self).district),
            unlocked(old(self).item),
            unlocked(old(self).stock),
            unlocked(old(self).order_line),
            delivered.c_delivery_cnt == customer_delivery_cnt(
                old(self).customer.spec_cache().records()[delivered.c_rid.id() as int],
            ),
            delivered.c_delivery_cnt < u32::MAX,
        ensures
            final(self).wf(),
            final(self).unlocked(),
            final(self).customer.entries() == old(self).customer.entries(),
            final(self).customer.spec_cache().records() == old(self).customer.spec_cache().records().update(
                delivered.c_rid.id() as int,
                overwrite(
                    overwrite(
                        old(self).customer.spec_cache().records()[delivered.c_rid.id() as int],
                        158,
                        le_word(c_balance),
                    ),
                    178,
                    le_word32((delivered.c_delivery_cnt + 1) as u32),
                ),
            ),
            final(self).order.entries() == old(self).order.entries(),
            final(self).order.spec_cache().records() == old(self).order.spec_cache().records(),
            final(self).warehouse == old(self).warehouse,
            final(self).district == old(self).district,
            final(self).item == old(self).item,
            final(self).stock == old(self).stock,
            final(self).order_line == old(self).order_line,
            final(self).c_last_idx == old(self).c_last_idx,
            final(self).new_order == old(self).new_order,
            final(self).warehouse_cnt == old(self).warehouse_cnt,
    {
        let DeliveredOrder { o_rid, o_lock, c_rid, c_lock, amounts: _, c_balance: _, c_delivery_cnt } =
            delivered;
        let mut c_lock = c_lock;
        let ghost c0 = self.customer;
        let ghost row = c0.spec_cache().records()[c_rid.id() as int];
        proof {
            lemma_customer_rows(c0);
            assert(row.len() == CUSTOMER_ROW_LEN);
        }
        let data = word_update_data(c_balance);
        let upd = UpdateQuery::new([Field::new(158, 166)], data.as_slice());
        proof {
            let fs = seq![Field::spec_new(158, 166)];
            assert(upd.spec_meta().fields@ =~= fs);
            assert(crate::query::prefix_size(fs, 0) == 0);
            assert(crate::query::prefix_size(fs, 1) == 8);
            lemma_field_update(row, Field::spec_new(158, 166), le_word(c_balance));
        }
        self.customer.update(c_rid, &mut c_lock, upd);
        let ghost row1 = overwrite(row, 158, le_word(c_balance));
        let cnt = c_delivery_cnt + 1;
        let data2 = word32_update_data(cnt);
        let upd2 = UpdateQuery::new([Field::new(178, 182)], data2.as_slice());
        proof {
            let fs = seq![Field::spec_new(178, 182)];
            assert(upd2.spec_meta().fields@ =~= fs);
            assert(crate::query::prefix_size(fs, 0) == 0);
            assert(crate::query::prefix_size(fs, 1) == 4);
            assert(row1.len() == CUSTOMER_ROW_LEN);
            lemma_field_update(row1, Field::spec_new(178, 182), le_word32(cnt));
        }
        self.customer.update(c_rid, &mut c_lock, upd2);
        let ghost c2 = self.customer;
        self.customer.write_unlock(c_rid, c_lock);
        proof {
            assert forall|q: int| 0 <= q < c0.spec_cache().len() && q != c_rid.id() implies #[trigger] self.customer.spec_cache().locks()[q].word()
                & LOCK_MASK == c0.spec_cache().locks()[q].word() & LOCK_MASK by {
                assert(c2.spec_cache().locks()[q] == c0.spec_cache().locks()[q]);
            }
            assert forall|r: int| 0 <= r < c0.spec_cache().len() && r != c_rid.id() implies !oid_locked(
                #[trigger] c0.spec_cache().locks()[r].word(),
            ) by {}
        }
        let ghost o0 = self.order;
        self.order.write_unlock(o_rid, o_lock);
        proof {
            assert forall|q: int| 0 <= q < self.customer.spec_cache().len() implies !oid_locked(
                #[trigger] self.customer.spec_cache().locks()[q].word(),
            ) by {
                if q != c_rid.id() {
                    lemma_lock_byte(self.customer.spec_cache().locks()[q].word(), c0.spec_cache().locks()[q].word());
                }
            }
            assert forall|q: int| 0 <= q < self.order.spec_cache().len() implies !oid_locked(
                #[trigger] self.order.spec_cache().locks()[q].word(),
            ) by {
                if q != o_rid.id() {
                    assert(self.order.spec_cache().locks()[q] == o0.spec_cache().locks()[q]);
                }
            }
        }
    }
    /// Gives back the stock locks of `held`.
    pub fn release_stock_locks(&mut self, held: Vec<LockedLine>)
        requires
            old(self).wf(),
            held_exactly(old(self).stock, held_rids(held@)),
        ensures
            final(self).wf(),
            unlocked(final(self).stock),
            final(self).stock.entries() == old(self).stock.entries(),
            final(self).stock.spec_cache().records() == old(self).stock.spec_cache().records(),
            final(self).warehouse == old(self).warehouse,
            final(self).district == old(self).district,
            final(self).customer == old(self).customer,
            final(self).item == old(self).item,
            final(self).order == old(self).order,
            final(self).order_line == old(self).order_line,
            final(self).c_last_idx == old(self).c_last_idx,
            final(self).new_order == old(self).new_order,
            final(self).warehouse_cnt == old(self).warehouse_cnt,
    {
        let mut held = held;
        while held.len() > 0
            invariant
                self.wf(),
                held_exactly(self.stock, held_rids(held@)),
                self.stock.entries() == old(self).stock.entries(),
                self.stock.spec_cache().records() == old(self).stock.spec_cache().records(),
                self.warehouse == old(self).warehouse,
                self.district == old(self).district,
                self.customer == old(self).customer,
                self.item == old(self).item,
                self.order == old(self).order,
                self.order_line == old(self).order_line,
                self.c_last_idx == old(self).c_last_idx,
                self.new_order == old(self).new_order,
                self.warehouse_cnt == old(self).warehouse_cnt,
            decreases held.len(),
        {
            let ghost before = self.stock;
            let ghost rs = held_rids(held@);
            let l = held.pop().unwrap();
            let ghost rest = held_rids(held@);
            proof {
                assert(rs[rs.len() - 1] == l.s_rid);
                assert(rest =~= rs.take(rs.len() - 1));
            }
            self.stock.write_unlock(l.s_rid, l.s_lock);
            proof {
                let last = rs.len() - 1;
                assert forall|i: int| 0 <= i < rest.len() implies self.stock.spec_cache().locks()[(
                #[trigger] rest[i]).id() as int].word() & LOCK_MASK == LOCK_WRITER by {
                    assert(rest[i] == rs[i]);
                    assert(rs[i].id() != rs[last].id());
                }
                assert forall|q: int|
                    0 <= q < self.stock.spec_cache().len() && (forall|i: int|
                        0 <= i < rest.len() ==> (#[trigger] rest[i]).id() != q) implies !oid_locked(
                    #[trigger] self.stock.spec_cache().locks()[q].word(),
                ) by {
                    if q != l.s_rid.id() {
                        assert forall|i: int| 0 <= i < rs.len() implies (#[trigger] rs[i]).id() != q by {
                            if i < last {
                                assert(rest[i] == rs[i]);
                            }
                        }
                    }
                }
                assert forall|i: int, j: int| 0 <= i < j < rest.len() implies (#[trigger] rest[i]).id() != (
                #[trigger] rest[j]).id() by {
                    assert(rest[i] == rs[i] && rest[j] == rs[j]);
                }
            }
        }
        proof {
            assert forall|q: int| 0 <= q < self.stock.spec_cache().len() implies !oid_locked(
                #[trigger] self.stock.spec_cache().locks()[q].word(),
            ) by {
                assert(held_rids(held@).len() == 0);
            }
        }
    }

    /// Locks the lines of a new order, one after the other: reads the price of the item under
    /// a read lock, given back at once, then write-locks the stock row the line takes from.
    /// Fails as `lines_error` says, every stock lock given back; an unknown item rolls the
    /// order back (`UserAbort`).
    pub fn lock_order_lines(&mut self, input: &NewOrderInput) -> (r: Result<
        Vec<LockedLine>,
        TransactionError,
    >)
        requires
            old(self).wf(),
            unlocked(old(self).item),
            unlocked(old(self).stock),
            input.ol_cnt <= 15,
        ensures
            final(self).wf(),
            unlocked(final(self).item),
            final(self).item.entries() == old(self).item.entries(),
            final(self).item.spec_cache().records() == old(self).item.spec_cache().records(),
            final(self).stock.entries() == old(self).stock.entries(),
            final(self).stock.spec_cache().records() == old(self).stock.spec_cache().records(),
            final(self).warehouse == old(self).warehouse,
            final(self).district == old(self).district,
            final(self).customer == old(self).customer,
            final(self).order == old(self).order,
            final(self).order_line == old(self).order_line,
            final(self).c_last_idx == old(self).c_last_idx,
            final(self).new_order == old(self).new_order,
            final(self).warehouse_cnt == old(self).warehouse_cnt,
            ({
                let ie = old(self).item.entries();
                let se = old(self).stock.entries();
                let lines = input.orders@;
                let n = input.ol_cnt as int;
                &&& r is Ok <==> lines_error(ie, se, lines, n) is None
                &&& r matches Err(e) ==> lines_error(ie, se, lines, n) == Some(e) && unlocked(
                    final(self).stock,
                )
                &&& r matches Ok(v) ==> {
                    &&& v@.len() == n
                    &&& held_exactly(final(self).stock, held_rids(v@))
                    &&& forall|i: int|
                        0 <= i < n ==> (#[trigger] v@[i]).s_rid == se[line_supply_key(lines[i])]
                            && v@[i].i_price == item_price(old(self).item.row(lines[i].ol_i_id as usize))
                }
            }),
    {
        let guard = self.warehouse.pin();
        let ghost ie = old(self).item.entries();
        let ghost se = old(self).stock.entries();
        let ghost lines = input.orders@;
        let n = input.ol_cnt as usize;
        let mut held: Vec<LockedLine> = Vec::new();
        let mut i: usize = 0;
        while i < n
            invariant
                0 <= i <= n,
                n == input.ol_cnt,
                n <= 15,
                lines == input.orders@,
                ie == old(self).item.entries(),
                se == old(self).stock.entries(),
                self.wf(),
                unlocked(self.item),
                self.item.entries() == ie,
                self.item.spec_cache().records() == old(self).item.spec_cache().records(),
                self.stock.entries() == se,
                self.stock.spec_cache().records() == old(self).stock.spec_cache().records(),
                self.warehouse == old(self).warehouse,
                self.district == old(self).district,
                self.customer == old(self).customer,
                self.order == old(self).order,
                self.order_line == old(self).order_line,
                self.c_last_idx == old(self).c_last_idx,
                self.new_order == old(self).new_order,
                self.warehouse_cnt == old(self).warehouse_cnt,
                held@.len() == i,
                lines_error(ie, se, lines, i as int) is None,
                held_exactly(self.stock, held_rids(held@)),
                forall|j: int| 0 <= j < i ==> se.contains_key(line_supply_key(#[trigger] lines[j])),
                forall|j: int|
                    0 <= j < i ==> (#[trigger] held@[j]).s_rid == se[line_supply_key(lines[j])]
                        && held@[j].i_price == item_price(old(self).item.row(lines[j].ol_i_id as usize)),
            decreases n - i,
        {
            let line = input.orders[i];
            let i_key = ItemTuple::make_key(line.ol_i_id as u64);
            proof {
                if self.item.entries().contains_key(i_key) {
                    assert(self.item.entries()[i_key].id() < self.item.spec_cache().len());
                    lemma_lock_byte(self.item.key_lock(i_key).word(), 0);
                }
            }
            let ghost it0 = self.item;
            let (i_rid, i_lock) = match self.item.read_oid_sync(&i_key, &guard) {
                Ok(x) => x,
                Err(e) => {
                    proof {
                        assert(lines_error(ie, se, lines, i + 1) == Some(TransactionError::UserAbort));
                        lemma_lines_error_stays(ie, se, lines, i + 1, n as int);
                    }
                    self.release_stock_locks(held);
                    return Err(
                        match e {
                            TransactionError::IndexNotFound => TransactionError::UserAbort,
                            _ => e,
                        },
                    );
                },
            };
            let it = self.item.read_record(i_rid, &i_lock, ref_draw(ITEM_REF_TENTHS));
            proof {
                assert(i_key == lines[i as int].ol_i_id as usize);
                assert(ie.contains_key(lines[i as int].ol_i_id as usize));
                it.lemma_price();
                lemma_lock_byte(it0.spec_cache().locks()[i_rid.id() as int].word(), 0);
            }
            let i_price = it.i_price;
            self.item.read_unlock(i_rid, i_lock);
            proof {
                assert(self.item.spec_cache().locks() =~= it0.spec_cache().locks().update(
                    i_rid.id() as int,
                    self.item.spec_cache().locks()[i_rid.id() as int],
                ));
                lemma_unlocked_again(it0, self.item, i_rid.id() as int);
            }
            let w16 = line.ol_supply_w_id as u64;
            let i32 = line.ol_i_id as u64;
            assert((w16 << 32u64) <= 0xffff_0000_0000u64) by (bit_vector)
                requires
                    w16 < 0x1_0000u64,
            ;
            let s_key = StockTuple::make_key(w16, i32);
            let ghost st0 = self.stock;
            let ghost rs = held_rids(held@);
            proof {
                assert(s_key == line_supply_key(lines[i as int]));
                if self.stock.entries().contains_key(s_key) {
                    assert(self.stock.entries()[s_key].id() < self.stock.spec_cache().len());
                }
            }
            match self.stock.write_oid(&s_key, &guard) {
                Ok((s_rid, s_lock)) => {
                    proof {
                        assert forall|j: int| 0 <= j < rs.len() implies (#[trigger] rs[j]).id()
                            != s_rid.id() by {
                            if rs[j].id() == s_rid.id() {
                                assert(st0.spec_cache().locks()[rs[j].id() as int].word() & LOCK_MASK
                                    == LOCK_WRITER);
                                lemma_lock_byte(st0.spec_cache().locks()[rs[j].id() as int].word(), 0);
                            }
                        }
                        assert(!(exists|j: int|
                            0 <= j < i && se.contains_key(line_supply_key(#[trigger] lines[j]))
                                && se[line_supply_key(lines[j])] == se[line_supply_key(lines[i as int])])) by {
                            if exists|j: int|
                                0 <= j < i && se.contains_key(line_supply_key(#[trigger] lines[j]))
                                    && se[line_supply_key(lines[j])] == se[line_supply_key(lines[i as int])] {
                                let j = choose|j: int|
                                    0 <= j < i && se.contains_key(line_supply_key(#[trigger] lines[j]))
                                        && se[line_supply_key(lines[j])] == se[line_supply_key(lines[i as int])];
                                assert(held@[j].s_rid == rs[j]);
                            }
                        }
                    }
                    held.push(LockedLine { s_rid, s_lock, i_price });
                    proof {
                        let nrs = held_rids(held@);
                        assert(nrs =~= rs.push(s_rid));
                        assert forall|q: int|
                            0 <= q < self.stock.spec_cache().len() && (forall|j: int|
                                0 <= j < nrs.len() ==> (#[trigger] nrs[j]).id() != q) implies !oid_locked(
                            #[trigger] self.stock.spec_cache().locks()[q].word(),
                        ) by {
                            assert forall|j: int| 0 <= j < rs.len() implies (#[trigger] rs[j]).id() != q by {
                                assert(nrs[j] == rs[j]);
                            }
                            assert(nrs[rs.len() as int] == s_rid);
                        }
                        assert forall|j: int| 0 <= j < nrs.len() implies self.stock.spec_cache().locks()[(
                        #[trigger] nrs[j]).id() as int].word() & LOCK_MASK == LOCK_WRITER by {
                            if j < rs.len() {
                                assert(nrs[j] == rs[j]);
                            }
                        }
                        assert forall|a: int, b: int| 0 <= a < b < nrs.len() implies (#[trigger] nrs[a]).id()
                            != (#[trigger] nrs[b]).id() by {
                            if b < rs.len() {
                                assert(nrs[a] == rs[a] && nrs[b] == rs[b]);
                            } else {
                                assert(nrs[a] == rs[a]);
                            }
                        }
                        assert(lines_error(ie, se, lines, i + 1) is None);
                    }
                },
                Err(e) => {
                    proof {
                        if se.contains_key(s_key) {
                            assert(oid_locked(st0.key_lock(s_key).word()));
                            let q = se[s_key].id() as int;
                            if forall|j: int| 0 <= j < rs.len() ==> (#[trigger] rs[j]).id() != q {
                                assert(!oid_locked(st0.spec_cache().locks()[q].word()));
                            }
                            let j = choose|j: int| 0 <= j < rs.len() && (#[trigger] rs[j]).id() == q;
                            assert(held@[j].s_rid == rs[j]);
                            broadcast use Rid::lemma_id_determines;
                            assert(se[line_supply_key(lines[j])] == se[line_supply_key(lines[i as int])]);
                            assert(0 <= j < i && se.contains_key(line_supply_key(lines[j]))
                                && se[line_supply_key(lines[j])] == se[line_supply_key(lines[i as int])]);
                        }
                        assert(lines_error(ie, se, lines, i + 1) == Some(e));
                        lemma_lines_error_stays(ie, se, lines, i + 1, n as int);
                    }
                    self.release_stock_locks(held);
                    return Err(e);
                },
            }
            i += 1;
        }
        Ok(held)
    }
    /// Writes the word `x` at byte `off` of stock record `rid`, whose write lock the caller
    /// holds.
    fn write_stock_word(&mut self, rid: Rid, lock: &mut OidWriteGuard, off: u16, x: u64)
        requires
            old(self).wf(),
            rid.id() < old(self).stock.spec_cache().len(),
            off + 8 <= STOCK_ROW_LEN,
        ensures
            final(self).wf(),
            final(self).stock.entries() == old(self).stock.entries(),
            final(self).stock.spec_cache().records() == old(self).stock.spec_cache().records().update(
                rid.id() as int,
                overwrite(old(self).stock.spec_cache().records()[rid.id() as int], off as int, le_word(x)),
            ),
            final(self).stock.spec_cache().locks() == old(self).stock.spec_cache().locks(),
            final(self).warehouse == old(self).warehouse,
            final(self).district == old(self).district,
            final(self).customer == old(self).customer,
            final(self).item == old(self).item,
            final(self).order == old(self).order,
            final(self).order_line == old(self).order_line,
            final(self).c_last_idx == old(self).c_last_idx,
            final(self).new_order == old(self).new_order,
            final(self).warehouse_cnt == old(self).warehouse_cnt,
    {
        let data = word_update_data(x);
        let upd = UpdateQuery::new([Field::new(off, off + 8)], data.as_slice());
        proof {
            let f = Field::spec_new(off, (off + 8) as u16);
            let fs = seq![f];
            assert(upd.spec_meta().fields@ =~= fs);
            assert(crate::query::prefix_size(fs, 0) == 0);
            assert(crate::query::prefix_size(fs, 1) == 8);
            lemma_stock_rows(self.stock);
            lemma_field_update(self.stock.spec_cache().records()[rid.id() as int], f, le_word(x));
        }
        self.stock.update(rid, lock, upd);
    }

    #[verifier::rlimit(40)]
    /// Takes the lines of a new order from their stock rows (see `stock_after_line`), one
    /// after the other, each stock row cached first; gives back the lines and the tenth
    /// district information of each stock row.
    pub fn update_stocks(&mut self, input: &NewOrderInput, lines: Vec<LockedLine>) -> (r: (
        Vec<LockedLine>,
        Vec<FixedString<24>>,
    ))
        requires
            old(self).wf(),
            lines@.len() == input.ol_cnt,
            input.ol_cnt <= 15,
            held_exactly(old(self).stock, held_rids(lines@)),
            forall|i: int|
                0 <= i < lines@.len() ==> stock_line_ok(
                    old(self).stock.spec_cache().records()[(#[trigger] lines@[i]).s_rid.id() as int],
                    input.orders@[i].ol_quantity as u64,
                    line_remote(*input, i),
                ),
        ensures
            final(self).wf(),
            held_rids(r.0@) == held_rids(lines@),
            forall|i: int| 0 <= i < lines@.len() ==> (#[trigger] r.0@[i]).i_price == lines@[i].i_price,
            r.0@.len() == lines@.len(),
            r.1@.len() == lines@.len(),
            held_exactly(final(self).stock, held_rids(r.0@)),
            final(self).stock.entries() == old(self).stock.entries(),
            forall|i: int|
                0 <= i < lines@.len() ==> {
                    let q = (#[trigger] lines@[i]).s_rid.id() as int;
                    &&& final(self).stock.spec_cache().records()[q] == stock_after_line(
                        old(self).stock.spec_cache().records()[q],
                        input.orders@[i].ol_quantity as u64,
                        line_remote(*input, i),
                    )
                    &&& r.1@[i]@ == stock_dist10(old(self).stock.spec_cache().records()[q])
                },
            forall|q: int|
                0 <= q < old(self).stock.spec_cache().len() && (forall|i: int|
                    0 <= i < lines@.len() ==> (#[trigger] lines@[i]).s_rid.id() != q)
                    ==> #[trigger] final(self).stock.spec_cache().records()[q] == old(self).stock.spec_cache().records()[q],
            final(self).stock.spec_cache().len() == old(self).stock.spec_cache().len(),
            final(self).warehouse == old(self).warehouse,
            final(self).district == old(self).district,
            final(self).customer == old(self).customer,
            final(self).item == old(self).item,
            final(self).order == old(self).order,
            final(self).order_line == old(self).order_line,
            final(self).c_last_idx == old(self).c_last_idx,
            final(self).new_order == old(self).new_order,
            final(self).warehouse_cnt == old(self).warehouse_cnt,
    {
        let ghost all = lines@;
        let ghost rids = held_rids(all);
        let ghost s0 = old(self).stock.spec_cache().records();
        let s_fields = FieldsMeta::new(
            [
                Field::new(288, 312),
                Field::new(16, 24),
                Field::new(24, 32),
                Field::new(32, 40),
                Field::new(40, 48),
                Field::new(48, 72),
            ],
        );
        let mut pending = lines;
        let mut done: Vec<LockedLine> = Vec::new();
        let mut dists: Vec<FixedString<24>> = Vec::new();
        proof {
            lemma_stock_rows(self.stock);
        }
        while pending.len() > 0
            invariant
                self.wf(),
                all.len() == input.ol_cnt,
                input.ol_cnt <= 15,
                rids == held_rids(all),
                done@.len() + pending@.len() == all.len(),
                forall|i: int|
                    0 <= i < done@.len() ==> (#[trigger] done@[i]).i_price == all[i].i_price
                        && done@[i].s_rid == all[i].s_rid,
                forall|i: int|
                    0 <= i < pending@.len() ==> #[trigger] pending@[i] == all[done@.len() + i],
                dists@.len() == done@.len(),
                s0 == old(self).stock.spec_cache().records(),
                forall|q: int| 0 <= q < s0.len() ==> (#[trigger] s0[q]).len() == STOCK_ROW_LEN,
                held_exactly(old(self).stock, rids),
                held_exactly(self.stock, rids),
                forall|i: int|
                    0 <= i < all.len() ==> stock_line_ok(
                        s0[(#[trigger] all[i]).s_rid.id() as int],
                        input.orders@[i].ol_quantity as u64,
                        line_remote(*input, i),
                    ),
                self.stock.entries() == old(self).stock.entries(),
                self.stock.spec_cache().len() == s0.len(),
                forall|i: int|
                    0 <= i < done@.len() ==> {
                        let q = (#[trigger] all[i]).s_rid.id() as int;
                        &&& self.stock.spec_cache().records()[q] == stock_after_line(
                            s0[q],
                            input.orders@[i].ol_quantity as u64,
                            line_remote(*input, i),
                        )
                        &&& dists@[i]@ == stock_dist10(s0[q])
                    },
                forall|q: int|
                    0 <= q < s0.len() && (forall|i: int|
                        0 <= i < done@.len() ==> (#[trigger] all[i]).s_rid.id() != q)
                        ==> #[trigger] self.stock.spec_cache().records()[q] == s0[q],
                self.warehouse == old(self).warehouse,
                self.district == old(self).district,
                self.customer == old(self).customer,
                self.item == old(self).item,
                self.order == old(self).order,
                self.order_line == old(self).order_line,
                self.c_last_idx == old(self).c_last_idx,
                self.new_order == old(self).new_order,
                self.warehouse_cnt == old(self).warehouse_cnt,
            decreases pending.len(),
        {
            let k = done.len();
            let ghost d0 = done@;
            let ghost p0 = pending@;
            let mut l = pending.remove(0);
            let ghost kk = k as int;
            proof {
                assert(p0[0] == all[kk]);
                assert(l == all[kk]);
                assert(rids[kk] == l.s_rid);
            }
            let r = l.s_rid;
            let ghost qi = r.id() as int;
            let ghost st_before = self.stock;
            proof {
                assert(forall|i: int| 0 <= i < done@.len() ==> (#[trigger] all[i]).s_rid.id() != qi) by {
                    assert forall|i: int| 0 <= i < done@.len() implies (#[trigger] all[i]).s_rid.id() != qi by {
                        assert(rids[i] == all[i].s_rid);
                        assert(rids[i].id() != rids[kk].id());
                    }
                }
                assert(self.stock.spec_cache().records()[qi] == s0[qi]);
            }
            {
                let _s_results = self.stock.read_and_promote(
                    r,
                    &mut l.s_lock,
                    &s_fields,
                    ref_draw(STOCK_REF_TENTHS),
                    ref_draw(STOCK_REF_TENTHS),
                    ref_draw(STOCK_REF_TENTHS),
                );
            }
            let ghost promoted = self.stock;
            proof {
                assert(promoted.spec_cache().records().len() == st_before.spec_cache().records().len());
                assert(r.id() < st_before.spec_cache().len());
            }
            let st = self.stock.read_record(r, &l.s_lock, false);
            proof {
                st.lemma_words();
                assert(st@ == s0[qi]);
            }
            let line = input.orders[k];
            let qty = line.ol_quantity as u64;
            let left = st.s_quantity - qty;
            let new_q = if (left as i64) >= 10 {
                left
            } else {
                ((left as i64) + 91) as u64
            };
            self.write_stock_word(r, &mut l.s_lock, 16, new_q);
            self.write_stock_word(r, &mut l.s_lock, 24, st.s_ytd + qty);
            self.write_stock_word(r, &mut l.s_lock, 32, st.s_order_cnt + 1);
            if line.ol_supply_w_id as u32 != input.w_id {
                self.write_stock_word(r, &mut l.s_lock, 40, st.s_remote_cnt + 1);
            }
            proof {
                assert(new_q == stock_left(stock_quantity(s0[qi]), qty));
                assert(self.stock.spec_cache().records()[qi] == stock_after_line(
                    s0[qi],
                    qty,
                    line_remote(*input, kk),
                ));
            }
            dists.push(st.s_dist10);
            done.push(l);
            proof {
                assert forall|i: int| 0 <= i < pending@.len() implies #[trigger] pending@[i] == all[done@.len() + i] by {
                    assert(pending@[i] == p0[i + 1]);
                }
                assert forall|q: int|
                    0 <= q < s0.len() && (forall|i: int|
                        0 <= i < done@.len() ==> (#[trigger] all[i]).s_rid.id() != q) implies #[trigger] self.stock.spec_cache().records()[q]
                    == s0[q] by {
                    assert(all[kk].s_rid.id() != q);
                    assert(forall|i: int| 0 <= i < done@.len() - 1 ==> (#[trigger] all[i]).s_rid.id() != q);
                }
                assert forall|i: int| 0 <= i < done@.len() implies {
                    let q = (#[trigger] all[i]).s_rid.id() as int;
                    &&& self.stock.spec_cache().records()[q] == stock_after_line(
                        s0[q],
                        input.orders@[i].ol_quantity as u64,
                        line_remote(*input, i),
                    )
                    &&& dists@[i]@ == stock_dist10(s0[q])
                } by {
                    if i < kk {
                        assert(rids[i] == all[i].s_rid);
                        assert(rids[i].id() != rids[kk].id());
                    }
                }
                assert forall|i: int| 0 <= i < done@.len() implies (#[trigger] done@[i]).i_price == all[i].i_price
                    && done@[i].s_rid == all[i].s_rid by {
                    if i < kk {
                        assert(done@[i] == d0[i]);
                    }
                }
                // the locks are those of the start: the reads and writes keep them
                assert(self.stock.spec_cache().locks().len() == st_before.spec_cache().locks().len());
                assert forall|q: int| 0 <= q < self.stock.spec_cache().len() implies #[trigger] self.stock.spec_cache().locks()[q].word()
                    & LOCK_MASK == st_before.spec_cache().locks()[q].word() & LOCK_MASK by {
                    assert(promoted.spec_cache().locks()[q].word() & LOCK_MASK == st_before.spec_cache().locks()[q].word() & LOCK_MASK);
                }
                assert forall|i: int| 0 <= i < rids.len() implies self.stock.spec_cache().locks()[(
                #[trigger] rids[i]).id() as int].word() & LOCK_MASK == LOCK_WRITER by {
                    assert(st_before.spec_cache().locks()[rids[i].id() as int].word() & LOCK_MASK == LOCK_WRITER);
                }
                assert forall|q: int|
                    0 <= q < self.stock.spec_cache().len() && (forall|i: int|
                        0 <= i < rids.len() ==> (#[trigger] rids[i]).id() != q) implies !oid_locked(
                    #[trigger] self.stock.spec_cache().locks()[q].word(),
                ) by {
                    lemma_lock_byte(self.stock.spec_cache().locks()[q].word(), st_before.spec_cache().locks()[q].word());
                }
            }
        }
        proof {
            assert(held_rids(done@) =~= rids);
        }
        (done, dists)
    }
    /// Writes the word `x` at byte `off` of district record `rid`, whose write lock the caller
    /// holds.
    fn write_district_word(&mut self, rid: Rid, lock: &mut OidWriteGuard, off: u16, x: u64)
        requires
            old(self).wf(),
            rid.id() < old(self).district.spec_cache().len(),
            off + 8 <= DISTRICT_ROW_LEN,
        ensures
            final(self).wf(),
            final(self).district.entries() == old(self).district.entries(),
            final(self).district.spec_cache().records() == old(self).district.spec_cache().records().update(
                rid.id() as int,
                overwrite(old(self).district.spec_cache().records()[rid.id() as int], off as int, le_word(x)),
            ),
            final(self).district.spec_cache().locks() == old(self).district.spec_cache().locks(),
            final(self).warehouse == old(self).warehouse,
            final(self).customer == old(self).customer,
            final(self).item == old(self).item,
            final(self).stock == old(self).stock,
            final(self).order == old(self).order,
            final(self).order_line == old(self).order_line,
            final(self).c_last_idx == old(self).c_last_idx,
            final(self).new_order == old(self).new_order,
            final(self).warehouse_cnt == old(self).warehouse_cnt,
    {
        let data = word_update_data(x);
        let upd = UpdateQuery::new([Field::new(off, off + 8)], data.as_slice());
        proof {
            let f = Field::spec_new(off, (off + 8) as u16);
            let fs = seq![f];
            assert(upd.spec_meta().fields@ =~= fs);
            assert(crate::query::prefix_size(fs, 0) == 0);
            assert(crate::query::prefix_size(fs, 1) == 8);
            lemma_district_rows(self.district);
            lemma_field_update(self.district.spec_cache().records()[rid.id() as int], f, le_word(x));
        }
        self.district.update(rid, lock, upd);
    }
    /// Write-locks and caches the warehouse, the district and the customer of a new order,
    /// and reads the district's next order id. Fails with `IndexNotFound`, every lock given
    /// back, when one of them has no row.
    pub fn lock_new_order_heads(&mut self, input: &NewOrderInput) -> (r: Result<
        HeadLocks,
        TransactionError,
    >)
        requires
            old(self).wf(),
            old(self).unlocked(),
            query_customer_key(input.w_id, input.d_id, input.c_id) <= u64::MAX,
        ensures
            final(self).wf(),
            final(self).item == old(self).item,
            final(self).stock == old(self).stock,
            final(self).order == old(self).order,
            final(self).order_line == old(self).order_line,
            final(self).c_last_idx == old(self).c_last_idx,
            final(self).new_order == old(self).new_order,
            final(self).warehouse_cnt == old(self).warehouse_cnt,
            final(self).warehouse.entries() == old(self).warehouse.entries(),
            final(self).warehouse.spec_cache().records() == old(self).warehouse.spec_cache().records(),
            final(self).district.entries() == old(self).district.entries(),
            final(self).district.spec_cache().records() == old(self).district.spec_cache().records(),
            final(self).customer.entries() == old(self).customer.entries(),
            final(self).customer.spec_cache().records() == old(self).customer.spec_cache().records(),
            ({
                let wk = input.w_id as usize;
                let dk = district_key(input.w_id as u64, input.d_id as u64) as usize;
                let ck = query_customer_key(input.w_id, input.d_id, input.c_id) as usize;
                &&& r is Err <==> !old(self).warehouse.entries().contains_key(wk) || !old(self).district.entries().contains_key(dk) || !old(self).customer.entries().contains_key(
                    ck,
                )
                &&& r matches Err(e) ==> e == TransactionError::IndexNotFound && final(self).unlocked()
                &&& r matches Ok(h) ==> {
                    &&& h.w_rid == old(self).warehouse.entries()[wk]
                    &&& write_held(final(self).warehouse, h.w_rid)
                    &&& h.d_rid == old(self).district.entries()[dk]
                    &&& write_held(final(self).district, h.d_rid)
                    &&& h.c_rid == old(self).customer.entries()[ck]
                    &&& write_held(final(self).customer, h.c_rid)
                    &&& h.o_id == district_next_o_id(old(self).district.row(dk))
                }
            }),
    {
        let guard = self.warehouse.pin();
        let w = input.w_id as u64;
        let d = input.d_id as u64;
        let c = input.c_id as u64;

        /* read warehouse */
        let w_key = input.w_id as usize;
        let ghost w0 = self.warehouse;
        proof {
            if self.warehouse.entries().contains_key(w_key) {
                assert(self.warehouse.entries()[w_key].id() < self.warehouse.spec_cache().len());
                lemma_lock_byte(self.warehouse.key_lock(w_key).word(), 0);
            }
        }
        let (w_rid, mut w_lock) = match self.warehouse.write_oid_sync(&w_key, &guard) {
            Ok(x) => x,
            Err(e) => {
                return Err(e);
            },
        };
        let ghost w1 = self.warehouse;
        proof {
            assert(w1.spec_cache().records().len() == w0.spec_cache().records().len());
        }
        let w_query = FieldsMeta::new([Field::new(88, 96)]);
        {
            let _w_results = self.warehouse.read_and_promote(
                w_rid,
                &mut w_lock,
                &w_query,
                ref_draw(WAREHOUSE_REF_TENTHS),
                ref_draw(WAREHOUSE_REF_TENTHS),
                ref_draw(WAREHOUSE_REF_TENTHS),
            );
        }
        let ghost w2 = self.warehouse;
        proof {
            assert(w2.spec_cache().records().len() == w0.spec_cache().records().len());
            assert forall|q: int| 0 <= q < w2.spec_cache().len() && q != w_rid.id() implies !oid_locked(
                #[trigger] w2.spec_cache().locks()[q].word(),
            ) by {
                assert(w1.spec_cache().locks()[q] == w0.spec_cache().locks()[q]);
                lemma_lock_byte(w2.spec_cache().locks()[q].word(), w0.spec_cache().locks()[q].word());
            }
        }

        /* read district */
        assert((w << 48u64) <= 0xffff_0000_0000_0000u64) by (bit_vector);
        let d_key = DistrictTuple::make_key(w, d);
        let ghost d0 = self.district;
        proof {
            if self.district.entries().contains_key(d_key) {
                assert(self.district.entries()[d_key].id() < self.district.spec_cache().len());
                lemma_lock_byte(self.district.key_lock(d_key).word(), 0);
            }
        }
        let (d_rid, mut d_lock) = match self.district.write_oid_sync(&d_key, &guard) {
            Ok(x) => x,
            Err(e) => {
                self.warehouse.write_unlock(w_rid, w_lock);
                proof {
                    lemma_unlocked_but(w0, self.warehouse, w_rid.id() as int);
                }
                return Err(e);
            },
        };
        let ghost d1 = self.district;
        proof {
            assert(d1.spec_cache().records().len() == d0.spec_cache().records().len());
        }
        let d_query = FieldsMeta::new([Field::new(96, 104), Field::new(112, 120)]);
        {
            let _d_results = self.district.read_and_promote(
                d_rid,
                &mut d_lock,
                &d_query,
                ref_draw(DISTRICT_REF_TENTHS),
                ref_draw(DISTRICT_REF_TENTHS),
                ref_draw(DISTRICT_REF_TENTHS),
            );
        }
        proof {
            assert(self.district.spec_cache().records().len() == d0.spec_cache().records().len());
        }
        let dist = self.district.read_record(d_rid, &d_lock, false);
        proof {
            dist.lemma_next_o_id();
        }
        let ghost d2 = self.district;
        proof {
            assert forall|q: int| 0 <= q < d2.spec_cache().len() && q != d_rid.id() implies !oid_locked(
                #[trigger] d2.spec_cache().locks()[q].word(),
            ) by {
                assert(d1.spec_cache().locks()[q] == d0.spec_cache().locks()[q]);
                lemma_lock_byte(d2.spec_cache().locks()[q].word(), d0.spec_cache().locks()[q].word());
            }
        }

        /* read customer */
        let c_key = CustomerTuple::make_key(w, d, c);
        let ghost c0 = self.customer;
        proof {
            if self.customer.entries().contains_key(c_key) {
                assert(self.customer.entries()[c_key].id() < self.customer.spec_cache().len());
                lemma_lock_byte(self.customer.key_lock(c_key).word(), 0);
            }
        }
        let (c_rid, mut c_lock) = match self.customer.write_oid(&c_key, &guard) {
            Ok(x) => x,
            Err(e) => {
                self.district.write_unlock(d_rid, d_lock);
                self.warehouse.write_unlock(w_rid, w_lock);
                proof {
                    lemma_unlocked_but(d0, self.district, d_rid.id() as int);
                    lemma_unlocked_but(w0, self.warehouse, w_rid.id() as int);
                }
                return Err(e);
            },
        };
        let ghost c1 = self.customer;
        proof {
            assert(c1.spec_cache().records().len() == c0.spec_cache().records().len());
        }
        let c_query = FieldsMeta::new([Field::new(150, 158), Field::new(30, 46), Field::new(140, 142)]);
        {
            let _c_results = self.customer.read_and_promote(
                c_rid,
                &mut c_lock,
                &c_query,
                ref_draw(CUSTOMER_REF_TENTHS),
                ref_draw(CUSTOMER_REF_TENTHS),
                ref_draw(CUSTOMER_REF_TENTHS),
            );
        }
        let ghost c2 = self.customer;
        proof {
            assert(c2.spec_cache().records().len() == c0.spec_cache().records().len());
            assert forall|q: int| 0 <= q < c2.spec_cache().len() && q != c_rid.id() implies !oid_locked(
                #[trigger] c2.spec_cache().locks()[q].word(),
            ) by {
                assert(c1.spec_cache().locks()[q] == c0.spec_cache().locks()[q]);
                lemma_lock_byte(c2.spec_cache().locks()[q].word(), c0.spec_cache().locks()[q].word());
            }
        }
        Ok(HeadLocks { w_rid, w_lock, d_rid, d_lock, c_rid, c_lock, o_id: dist.d_next_o_id })
    }

    /// Gives back the locks of the warehouse, the district and the customer of a new order.
    pub fn release_heads(&mut self, heads: HeadLocks)
        requires
            old(self).wf(),
            write_held(old(self).warehouse, heads.w_rid),
            write_held(old(self).district, heads.d_rid),
            write_held(old(self).customer, heads.c_rid),
        ensures
            final(self).wf(),
            unlocked(final(self).warehouse),
            unlocked(final(self).district),
            unlocked(final(self).customer),
            final(self).warehouse.entries() == old(self).warehouse.entries(),
            final(self).warehouse.spec_cache().records() == old(self).warehouse.spec_cache().records(),
            final(self).district.entries() == old(self).district.entries(),
            final(self).district.spec_cache().records() == old(self).district.spec_cache().records(),
            final(self).customer.entries() == old(self).customer.entries(),
            final(self).customer.spec_cache().records() == old(self).customer.spec_cache().records(),
            final(self).item == old(self).item,
            final(self).stock == old(self).stock,
            final(self).order == old(self).order,
            final(self).order_line == old(self).order_line,
            final(self).c_last_idx == old(self).c_last_idx,
            final(self).new_order == old(self).new_order,
            final(self).warehouse_cnt == old(self).warehouse_cnt,
    {
        let HeadLocks { w_rid, w_lock, d_rid, d_lock, c_rid, c_lock, o_id: _ } = heads;
        let ghost c0 = self.customer;
        let ghost d0 = self.district;
        let ghost w0 = self.warehouse;
        self.customer.write_unlock(c_rid, c_lock);
        self.district.write_unlock(d_rid, d_lock);
        self.warehouse.write_unlock(w_rid, w_lock);
        proof {
            assert forall|q: int| 0 <= q < self.customer.spec_cache().len() implies !oid_locked(
                #[trigger] self.customer.spec_cache().locks()[q].word(),
            ) by {
                if q != c_rid.id() {
                    assert(self.customer.spec_cache().locks()[q] == c0.spec_cache().locks()[q]);
                }
            }
            assert forall|q: int| 0 <= q < self.district.spec_cache().len() implies !oid_locked(
                #[trigger] self.district.spec_cache().locks()[q].word(),
            ) by {
                if q != d_rid.id() {
                    assert(self.district.spec_cache().locks()[q] == d0.spec_cache().locks()[q]);
                }
            }
            assert forall|q: int| 0 <= q < self.warehouse.spec_cache().len() implies !oid_locked(
                #[trigger] self.warehouse.spec_cache().locks()[q].word(),
            ) by {
                if q != w_rid.id() {
                    assert(self.warehouse.spec_cache().locks()[q] == w0.spec_cache().locks()[q]);
                }
            }
        }
    }
    /// Writes a new order whose district, stock rows and heads are locked: gives the order the
    /// district's next order id `o_id` (which goes up by one), enters it into the new-order
    /// index, inserts its row, and takes the lines from their stock rows (see
    /// `update_stocks`).
    pub fn record_new_order(
        &mut self,
        input: &NewOrderInput,
        d_rid: Rid,
        d_lock: &mut OidWriteGuard,
        o_id: u64,
        lines: Vec<LockedLine>,
    ) -> (r: (Vec<LockedLine>, Vec<FixedString<24>>))
        requires
            old(self).wf(),
            write_held(old(self).district, d_rid),
            unlocked(old(self).order),
            o_id < u64::MAX,
            new_order_key(input.w_id as u64, input.d_id as u64, o_id, input.c_id as u64) <= u64::MAX,
            old(self).order.spec_cache().len() < old(self).order.spec_cache().capacity(),
            old(self).order.spec_cache().spec_schema().key_ok(new_order_row(*input, o_id)@),
            lines@.len() == input.ol_cnt,
            input.ol_cnt <= 15,
            held_exactly(old(self).stock, held_rids(lines@)),
            forall|i: int|
                0 <= i < lines@.len() ==> stock_line_ok(
                    old(self).stock.spec_cache().records()[(#[trigger] lines@[i]).s_rid.id() as int],
                    input.orders@[i].ol_quantity as u64,
                    line_remote(*input, i),
                ),
        ensures
            final(self).wf(),
            final(self).warehouse == old(self).warehouse,
            final(self).customer == old(self).customer,
            final(self).item == old(self).item,
            final(self).order_line == old(self).order_line,
            final(self).c_last_idx == old(self).c_last_idx,
            final(self).warehouse_cnt == old(self).warehouse_cnt,
            final(self).district.entries() == old(self).district.entries(),
            final(self).district.spec_cache().records() == old(self).district.spec_cache().records().update(
                d_rid.id() as int,
                overwrite(
                    old(self).district.spec_cache().records()[d_rid.id() as int],
                    112,
                    le_word((o_id + 1) as u64),
                ),
            ),
            write_held(final(self).district, d_rid),
            final(self).new_order.entries() == old(self).new_order.entries().insert(
                new_order_key(input.w_id as u64, input.d_id as u64, o_id, input.c_id as u64) as usize,
                new_order_key(input.w_id as u64, input.d_id as u64, o_id, input.c_id as u64) as usize,
            ),
            final(self).order.spec_cache().records() == old(self).order.spec_cache().records().push(
                new_order_row(*input, o_id)@,
            ),
            final(self).order.entries() == old(self).order.entries().insert(
                old(self).order.spec_cache().spec_schema().spec_key(new_order_row(*input, o_id)@),
                Rid::spec_from_u32(old(self).order.spec_cache().len() as u32),
            ),
            unlocked(final(self).order),
            held_rids(r.0@) == held_rids(lines@),
            forall|i: int| 0 <= i < lines@.len() ==> (#[trigger] r.0@[i]).i_price == lines@[i].i_price,
            r.0@.len() == lines@.len(),
            r.1@.len() == lines@.len(),
            held_exactly(final(self).stock, held_rids(r.0@)),
            final(self).stock.entries() == old(self).stock.entries(),
            forall|i: int|
                0 <= i < lines@.len() ==> {
                    let q = (#[trigger] lines@[i]).s_rid.id() as int;
                    &&& final(self).stock.spec_cache().records()[q] == stock_after_line(
                        old(self).stock.spec_cache().records()[q],
                        input.orders@[i].ol_quantity as u64,
                        line_remote(*input, i),
                    )
                    &&& r.1@[i]@ == stock_dist10(old(self).stock.spec_cache().records()[q])
                },
            forall|q: int|
                0 <= q < old(self).stock.spec_cache().len() && (forall|i: int|
                    0 <= i < lines@.len() ==> (#[trigger] lines@[i]).s_rid.id() != q)
                    ==> #[trigger] final(self).stock.spec_cache().records()[q] == old(self).stock.spec_cache().records()[q],
    {
        let guard = self.warehouse.pin();
        let w = input.w_id as u64;
        let d = input.d_id as u64;
        let c = input.c_id as u64;
        let ghost d0 = self.district;
        self.write_district_word(d_rid, d_lock, 112, o_id + 1);
        let no_key = NewOrderTuple::make_key(w, d, o_id, c);
        let art_guard = self.new_order.pin();
        self.new_order.insert(no_key, no_key, &art_guard);
        proof {
            assert forall|k: usize| #[trigger] self.new_order.entries().contains_key(k) implies self.new_order.entries()[k] == k by {
                if k != no_key {
                    assert(old(self).new_order.entries().contains_key(k));
                }
            }
        }
        let order = OrderTuple {
            o_id,
            o_c_id: c,
            o_entry_d: input.o_entry_d,
            o_carrier_id: 0,
            o_d_id: d,
            o_w_id: w,
            o_ol_cnt: input.ol_cnt as u64,
            o_all_local: if input.all_local {
                1
            } else {
                0
            },
        };
        let ghost or0 = self.order;
        proof {
            assert(order == new_order_row(*input, o_id));
        }
        let (o_rid, o_lock) = self.order.insert(order, &guard);
        let ghost or1 = self.order;
        proof {
            assert(or1.spec_cache().records().len() == or0.spec_cache().records().len() + 1);
        }
        self.order.write_unlock(o_rid, o_lock);
        proof {
            assert forall|q: int| 0 <= q < self.order.spec_cache().len() implies !oid_locked(
                #[trigger] self.order.spec_cache().locks()[q].word(),
            ) by {
                if q != o_rid.id() {
                    assert(q < or0.spec_cache().len());
                    assert(self.order.spec_cache().locks()[q] == or1.spec_cache().locks()[q]);
                    lemma_lock_byte(or1.spec_cache().locks()[q].word(), or0.spec_cache().locks()[q].word());
                }
            }
            assert(self.order.spec_cache().records().len() == or1.spec_cache().records().len());
            assert(self.district.spec_cache().locks() == d0.spec_cache().locks());
            broadcast use Rid::lemma_id_determines;
            Rid::lemma_spec_from_u32(or0.spec_cache().len() as u32);
            assert(o_rid.id() == or0.spec_cache().len());
            assert(Rid::spec_from_u32(or0.spec_cache().len() as u32).id() == o_rid.id());
            assert(o_rid == Rid::spec_from_u32(or0.spec_cache().len() as u32));
        }
        self.update_stocks(input, lines)
    }

    #[verifier::rlimit(40)]
    /// The part of the new-order transaction up to its order lines: locks the warehouse, the
    /// district and the customer (see `lock_new_order_heads`), then the lines (see
    /// `lock_order_lines`), and writes the order (see `record_new_order`). A failure changes
    /// nothing and gives back every lock. What is left for `new_order_commit` is the order
    /// lines, whose amounts are the quantities times the prices.
    pub fn new_order_prepare(&mut self, input: &NewOrderInput) -> (r: Result<
        PreparedOrder,
        TransactionError,
    >)
        requires
            old(self).wf(),
            old(self).unlocked(),
            input.ol_cnt <= 15,
            query_customer_key(input.w_id, input.d_id, input.c_id) <= u64::MAX,
            old(self).order.spec_cache().len() < old(self).order.spec_cache().capacity(),
            ({
                let dk = district_key(input.w_id as u64, input.d_id as u64) as usize;
                old(self).district.entries().contains_key(dk) ==> {
                    let o = district_next_o_id(old(self).district.row(dk));
                    &&& o < u64::MAX
                    &&& new_order_key(input.w_id as u64, input.d_id as u64, o, input.c_id as u64)
                        <= u64::MAX
                    &&& old(self).order.spec_cache().spec_schema().key_ok(new_order_row(*input, o)@)
                }
            }),
            forall|i: int|
                0 <= i < input.ol_cnt && old(self).stock.entries().contains_key(
                    line_supply_key(#[trigger] input.orders@[i]),
                ) ==> stock_line_ok(
                    old(self).stock.row(line_supply_key(input.orders@[i])),
                    input.orders@[i].ol_quantity as u64,
                    line_remote(*input, i),
                ),
        ensures
            final(self).wf(),
            final(self).c_last_idx == old(self).c_last_idx,
            final(self).warehouse_cnt == old(self).warehouse_cnt,
            final(self).order_line == old(self).order_line,
            final(self).warehouse.entries() == old(self).warehouse.entries(),
            final(self).warehouse.spec_cache().records() == old(self).warehouse.spec_cache().records(),
            final(self).customer.entries() == old(self).customer.entries(),
            final(self).customer.spec_cache().records() == old(self).customer.spec_cache().records(),
            final(self).item.entries() == old(self).item.entries(),
            final(self).item.spec_cache().records() == old(self).item.spec_cache().records(),
            unlocked(final(self).item),
            final(self).district.entries() == old(self).district.entries(),
            final(self).stock.entries() == old(self).stock.entries(),
            ({
                let ie = old(self).item.entries();
                let se = old(self).stock.entries();
                let lines = input.orders@;
                let n = input.ol_cnt as int;
                let wk = input.w_id as usize;
                let dk = district_key(input.w_id as u64, input.d_id as u64) as usize;
                let ck = query_customer_key(input.w_id, input.d_id, input.c_id) as usize;
                let heads_missing = !old(self).warehouse.entries().contains_key(wk) || !old(self).district.entries().contains_key(dk) || !old(self).customer.entries().contains_key(ck);
                &&& r is Err <==> heads_missing || lines_error(ie, se, lines, n) is Some
                &&& r matches Err(e) ==> {
                    &&& e == if heads_missing {
                        TransactionError::IndexNotFound
                    } else {
                        lines_error(ie, se, lines, n).unwrap()
                    }
                    &&& final(self).unlocked()
                    &&& final(self).district.spec_cache().records() == old(self).district.spec_cache().records()
                    &&& final(self).stock.spec_cache().records() == old(self).stock.spec_cache().records()
                    &&& final(self).order == old(self).order
                    &&& final(self).new_order == old(self).new_order
                }
                &&& r matches Ok(p) ==> {
                    let o = district_next_o_id(old(self).district.row(dk));
                    &&& p.w_rid == old(self).warehouse.entries()[wk]
                    &&& write_held(final(self).warehouse, p.w_rid)
                    &&& p.d_rid == old(self).district.entries()[dk]
                    &&& write_held(final(self).district, p.d_rid)
                    &&& p.o_id == o
                    &&& final(self).district.spec_cache().records() == old(self).district.spec_cache().records().update(
                        p.d_rid.id() as int,
                        overwrite(old(self).district.row(dk), 112, le_word((o + 1) as u64)),
                    )
                    &&& p.c_rid == old(self).customer.entries()[ck]
                    &&& write_held(final(self).customer, p.c_rid)
                    &&& final(self).new_order.entries() == old(self).new_order.entries().insert(
                        new_order_key(input.w_id as u64, input.d_id as u64, o, input.c_id as u64) as usize,
                        new_order_key(input.w_id as u64, input.d_id as u64, o, input.c_id as u64) as usize,
                    )
                    &&& final(self).order.spec_cache().records() == old(self).order.spec_cache().records().push(
                        new_order_row(*input, o)@,
                    )
                    &&& final(self).order.entries() == old(self).order.entries().insert(
                        old(self).order.spec_cache().spec_schema().spec_key(new_order_row(*input, o)@),
                        Rid::spec_from_u32(old(self).order.spec_cache().len() as u32),
                    )
                    &&& unlocked(final(self).order)
                    &&& p.lines@.len() == n
                    &&& p.dist_infos@.len() == n
                    &&& held_exactly(final(self).stock, held_rids(p.lines@))
                    &&& forall|i: int|
                        0 <= i < n ==> {
                            let q = (#[trigger] p.lines@[i]).s_rid.id() as int;
                            &&& p.lines@[i].s_rid == se[line_supply_key(lines[i])]
                            &&& p.lines@[i].i_price == item_price(
                                old(self).item.row(lines[i].ol_i_id as usize),
                            )
                            &&& final(self).stock.spec_cache().records()[q] == stock_after_line(
                                old(self).stock.spec_cache().records()[q],
                                lines[i].ol_quantity as u64,
                                line_remote(*input, i),
                            )
                            &&& p.dist_infos@[i]@ == stock_dist10(old(self).stock.spec_cache().records()[q])
                        }
                    &&& other_rows_kept(
                        old(self).stock.spec_cache().records(),
                        final(self).stock.spec_cache().records(),
                        p.lines@,
                        n,
                    )
                }
            }),
    {
        let heads = match self.lock_new_order_heads(input) {
            Ok(h) => h,
            Err(e) => {
                return Err(e);
            },
        };
        let lines = match self.lock_order_lines(input) {
            Ok(v) => v,
            Err(e) => {
                self.release_heads(heads);
                return Err(e);
            },
        };
        let ghost se = old(self).stock.entries();
        proof {
            assert forall|i: int| 0 <= i < lines@.len() implies stock_line_ok(
                self.stock.spec_cache().records()[(#[trigger] lines@[i]).s_rid.id() as int],
                input.orders@[i].ol_quantity as u64,
                line_remote(*input, i),
            ) by {
                assert(lines@[i].s_rid == se[line_supply_key(input.orders@[i])]);
                assert(se.contains_key(line_supply_key(input.orders@[i]))) by {
                    lemma_lines_error_none_present(
                        old(self).item.entries(),
                        se,
                        input.orders@,
                        i,
                        input.ol_cnt as int,
                    );
                }
            }
        }
        let HeadLocks { w_rid, w_lock, d_rid, d_lock, c_rid, c_lock, o_id } = heads;
        let mut d_lock = d_lock;
        let ghost lines_in = lines@;
        let ghost st_pre = self.stock;
        proof {
            assert(st_pre.spec_cache().records() == old(self).stock.spec_cache().records());
            assert(st_pre.spec_cache().records().len() == old(self).stock.spec_cache().records().len());
            assert(st_pre.spec_cache().len() == old(self).stock.spec_cache().len());
        }
        let (lines, dist_infos) = self.record_new_order(input, d_rid, &mut d_lock, o_id, lines);
        proof {
            assert forall|i: int| 0 <= i < lines_in.len() implies (#[trigger] lines@[i]).s_rid
                == lines_in[i].s_rid by {
                assert(held_rids(lines@)[i] == held_rids(lines_in)[i]);
            }
            assert forall|q: int|
                0 <= q < old(self).stock.spec_cache().len() && (forall|i: int|
                    0 <= i < input.ol_cnt ==> (#[trigger] lines@[i]).s_rid.id() != q) implies #[trigger] self.stock.spec_cache().records()[q]
                == old(self).stock.spec_cache().records()[q] by {
                assert forall|i: int| 0 <= i < lines_in.len() implies (#[trigger] lines_in[i]).s_rid.id() != q by {
                    assert(lines@[i].s_rid == lines_in[i].s_rid);
                }
                assert(self.stock.spec_cache().records()[q] == st_pre.spec_cache().records()[q]);
            }
            assert(other_rows_kept(
                old(self).stock.spec_cache().records(),
                self.stock.spec_cache().records(),
                lines@,
                input.ol_cnt as int,
            ));
            let dk = district_key(input.w_id as u64, input.d_id as u64) as usize;
            let o = district_next_o_id(old(self).district.row(dk));
            assert(o_id == o);
            assert(self.new_order.entries() == old(self).new_order.entries().insert(
                new_order_key(input.w_id as u64, input.d_id as u64, o, input.c_id as u64) as usize,
                new_order_key(input.w_id as u64, input.d_id as u64, o, input.c_id as u64) as usize,
            ));
            assert(self.order.spec_cache().records() == old(self).order.spec_cache().records().push(
                new_order_row(*input, o)@,
            ));
            assert(self.district.spec_cache().records() == old(self).district.spec_cache().records().update(
                d_rid.id() as int,
                overwrite(old(self).district.row(dk), 112, le_word((o + 1) as u64)),
            ));
        }
        Ok(
            PreparedOrder {
                w_rid,
                w_lock,
                d_rid,
                d_lock,
                c_rid,
                c_lock,
                o_id,
                lines,
                dist_infos,
            },
        )
    }
    /// Ends the new-order transaction: inserts its order lines, whose amounts (the bits of
    /// doubles: the quantities times the prices, as the caller multiplies them) are
    /// `amounts`, then gives back the stock locks and those of the warehouse, the district
    /// and the customer.
    pub fn new_order_commit(&mut self, input: &NewOrderInput, prepared: PreparedOrder, amounts: &[u64])
        requires
            old(self).wf(),
            write_held(old(self).warehouse, prepared.w_rid),
            write_held(old(self).district, prepared.d_rid),
            write_held(old(self).customer, prepared.c_rid),
            held_exactly(old(self).stock, held_rids(prepared.lines@)),
            unlocked(old(self).item),
            unlocked(old(self).order),
            unlocked(old(self).order_line),
            input.ol_cnt <= 15,
            prepared.lines@.len() == input.ol_cnt,
            prepared.dist_infos@.len() == input.ol_cnt,
            amounts@.len() == input.ol_cnt,
            old(self).order_line.spec_cache().len() + input.ol_cnt <= old(self).order_line.spec_cache().capacity(),
            forall|i: int|
                0 <= i < input.ol_cnt ==> old(self).order_line.spec_cache().spec_schema().key_ok(
                    #[trigger] new_order_line_rows(
                        *input,
                        prepared.o_id,
                        amounts@,
                        prepared.dist_infos@,
                        input.ol_cnt as int,
                    )[i],
                ),
        ensures
            final(self).wf(),
            final(self).unlocked(),
            final(self).order_line.spec_cache().records() == old(self).order_line.spec_cache().records()
                + new_order_line_rows(
                *input,
                prepared.o_id,
                amounts@,
                prepared.dist_infos@,
                input.ol_cnt as int,
            ),
            final(self).order_line.entries() == entries_after_inserts(
                old(self).order_line.spec_cache().spec_schema(),
                old(self).order_line.entries(),
                new_order_line_rows(
                    *input,
                    prepared.o_id,
                    amounts@,
                    prepared.dist_infos@,
                    input.ol_cnt as int,
                ),
                old(self).order_line.spec_cache().len() as int,
                input.ol_cnt as int,
            ),
            final(self).warehouse.entries() == old(self).warehouse.entries(),
            final(self).warehouse.spec_cache().records() == old(self).warehouse.spec_cache().records(),
            final(self).district.entries() == old(self).district.entries(),
            final(self).district.spec_cache().records() == old(self).district.spec_cache().records(),
            final(self).customer.entries() == old(self).customer.entries(),
            final(self).customer.spec_cache().records() == old(self).customer.spec_cache().records(),
            final(self).stock.entries() == old(self).stock.entries(),
            final(self).stock.spec_cache().records() == old(self).stock.spec_cache().records(),
            final(self).item == old(self).item,
            final(self).order == old(self).order,
            final(self).c_last_idx == old(self).c_last_idx,
            final(self).new_order == old(self).new_order,
            final(self).warehouse_cnt == old(self).warehouse_cnt,
    {
        let PreparedOrder { w_rid, w_lock, d_rid, d_lock, c_rid, c_lock, o_id, lines, dist_infos } =
            prepared;
        let guard = self.warehouse.pin();
        let ghost rows = new_order_line_rows(*input, o_id, amounts@, dist_infos@, input.ol_cnt as int);
        let ghost ol0 = self.order_line;
        let ghost base = ol0.spec_cache().len() as int;
        let n = input.ol_cnt as usize;
        let mut i: usize = 0;
        while i < n
            invariant
                0 <= i <= n,
                n == input.ol_cnt,
                n <= 15,
                amounts@.len() == n,
                dist_infos@.len() == n,
                rows == new_order_line_rows(*input, o_id, amounts@, dist_infos@, n as int),
                base == ol0.spec_cache().len(),
                ol0 == old(self).order_line,
                self.wf(),
                unlocked(self.order_line),
                self.order_line.spec_cache().records() == ol0.spec_cache().records() + rows.take(i as int),
                self.order_line.entries() == entries_after_inserts(
                    ol0.spec_cache().spec_schema(),
                    ol0.entries(),
                    rows,
                    base,
                    i as int,
                ),
                self.order_line.spec_cache().spec_schema() == ol0.spec_cache().spec_schema(),
                self.order_line.spec_cache().capacity() == ol0.spec_cache().capacity(),
                self.order_line.spec_cache().len() == base + i,
                base + n <= ol0.spec_cache().capacity(),
                forall|j: int| 0 <= j < n ==> ol0.spec_cache().spec_schema().key_ok(#[trigger] rows[j]),
                self.warehouse == old(self).warehouse,
                self.district == old(self).district,
                self.customer == old(self).customer,
                self.stock == old(self).stock,
                self.item == old(self).item,
                self.order == old(self).order,
                self.c_last_idx == old(self).c_last_idx,
                self.new_order == old(self).new_order,
                self.warehouse_cnt == old(self).warehouse_cnt,
            decreases n - i,
        {
            let line = input.orders[i];
            let row = OrderLineTuple {
                ol_o_id: o_id,
                ol_d_id: input.d_id as u64,
                ol_i_id: line.ol_i_id as u64,
                ol_supply_w_id: line.ol_supply_w_id as u64,
                ol_quantity: line.ol_quantity as u64,
                ol_delivery_d: 0,
                ol_amount: amounts[i],
                ol_number: i as u64,
                ol_w_id: input.w_id as u64,
                ol_dist_info: dist_infos[i],
            };
            proof {
                assert(row@ == rows[i as int]);
            }
            let ghost before = self.order_line;
            let (rid, g) = self.order_line.insert(row, &guard);
            let ghost inserted = self.order_line;
            proof {
                assert(inserted.spec_cache().records().len() == before.spec_cache().records().len() + 1);
            }
            self.order_line.write_unlock(rid, g);
            proof {
                assert forall|q: int| 0 <= q < self.order_line.spec_cache().len() implies !oid_locked(
                    #[trigger] self.order_line.spec_cache().locks()[q].word(),
                ) by {
                    if q != rid.id() {
                        assert(q < before.spec_cache().len());
                        assert(self.order_line.spec_cache().locks()[q] == inserted.spec_cache().locks()[q]);
                        lemma_lock_byte(inserted.spec_cache().locks()[q].word(), before.spec_cache().locks()[q].word());
                    }
                }
                assert(rows.take(i + 1) =~= rows.take(i as int).push(rows[i as int]));
                assert(self.order_line.spec_cache().records() =~= ol0.spec_cache().records() + rows.take(i + 1));
                broadcast use Rid::lemma_id_determines;
                Rid::lemma_spec_from_u32((base + i) as u32);
                assert(rid == Rid::spec_from_u32((base + i) as u32));
            }
            i += 1;
        }
        proof {
            assert(rows.take(n as int) =~= rows);
        }
        self.release_stock_locks(lines);
        self.release_heads(HeadLocks { w_rid, w_lock, d_rid, d_lock, c_rid, c_lock, o_id });
    }
    /// Writes the word `x` at byte `off` of warehouse record `rid`, whose write lock the
    /// caller holds.
    fn write_warehouse_word(&mut self, rid: Rid, lock: &mut OidWriteGuard, off: u16, x: u64)
        requires
            old(self).wf(),
            rid.id() < old(self).warehouse.spec_cache().len(),
            off + 8 <= WAREHOUSE_ROW_LEN,
        ensures
            final(self).wf(),
            final(self).warehouse.entries() == old(self).warehouse.entries(),
            final(self).warehouse.spec_cache().records() == old(self).warehouse.spec_cache().records().update(
                rid.id() as int,
                overwrite(old(self).warehouse.spec_cache().records()[rid.id() as int], off as int, le_word(x)),
            ),
            final(self).warehouse.spec_cache().locks() == old(self).warehouse.spec_cache().locks(),
            final(self).district == old(self).district,
            final(self).customer == old(self).customer,
            final(self).item == old(self).item,
            final(self).stock == old(self).stock,
            final(self).order == old(self).order,
            final(self).order_line == old(self).order_line,
            final(self).c_last_idx == old(self).c_last_idx,
            final(self).new_order == old(self).new_order,
            final(self).warehouse_cnt == old(self).warehouse_cnt,
    {
        let data = word_update_data(x);
        let upd = UpdateQuery::new([Field::new(off, off + 8)], data.as_slice());
        proof {
            let f = Field::spec_new(off, (off + 8) as u16);
            let fs = seq![f];
            assert(upd.spec_meta().fields@ =~= fs);
            assert(crate::query::prefix_size(fs, 0) == 0);
            assert(crate::query::prefix_size(fs, 1) == 8);
            lemma_warehouse_rows(self.warehouse);
            lemma_field_update(self.warehouse.spec_cache().records()[rid.id() as int], f, le_word(x));
        }
        self.warehouse.update(rid, lock, upd);
    }

    /// Writes the bytes `data` from byte `off` on into customer record `rid`, whose write
    /// lock the caller holds.
    fn write_customer_bytes(&mut self, rid: Rid, lock: &mut OidWriteGuard, off: u16, data: &[u8])
        requires
            old(self).wf(),
            rid.id() < old(self).customer.spec_cache().len(),
            off + data@.len() <= CUSTOMER_ROW_LEN,
        ensures
            final(self).wf(),
            final(self).customer.entries() == old(self).customer.entries(),
            final(self).customer.spec_cache().records() == old(self).customer.spec_cache().records().update(
                rid.id() as int,
                overwrite(old(self).customer.spec_cache().records()[rid.id() as int], off as int, data@),
            ),
            final(self).customer.spec_cache().locks() == old(self).customer.spec_cache().locks(),
            final(self).warehouse == old(self).warehouse,
            final(self).district == old(self).district,
            final(self).item == old(self).item,
            final(self).stock == old(self).stock,
            final(self).order == old(self).order,
            final(self).order_line == old(self).order_line,
            final(self).c_last_idx == old(self).c_last_idx,
            final(self).new_order == old(self).new_order,
            final(self).warehouse_cnt == old(self).warehouse_cnt,
    {
        let end = off + data.len() as u16;
        let upd = UpdateQuery::new([Field::new(off, end)], data);
        proof {
            let f = Field::spec_new(off, end);
            let fs = seq![f];
            assert(upd.spec_meta().fields@ =~= fs);
            assert(crate::query::prefix_size(fs, 0) == 0);
            assert(crate::query::prefix_size(fs, 1) == data@.len());
            lemma_customer_rows(self.customer);
            lemma_field_update(self.customer.spec_cache().records()[rid.id() as int], f, data@);
        }
        self.customer.update(rid, lock, upd);
    }

    /// The start of the payment transaction: write-locks and caches the warehouse and the
    /// district, and reads their names and year-to-date balances. Fails with `IndexNotFound`,
    /// every lock given back, when one of them has no row.
    pub fn payment_lock_heads(&mut self, input: &PaymentInput) -> (r: Result<
        PaymentHeads,
        TransactionError,
    >)
        requires
            old(self).wf(),
            old(self).unlocked(),
        ensures
            final(self).wf(),
            final(self).customer == old(self).customer,
            final(self).item == old(self).item,
            final(self).stock == old(self).stock,
            final(self).order == old(self).order,
            final(self).order_line == old(self).order_line,
            final(self).c_last_idx == old(self).c_last_idx,
            final(self).new_order == old(self).new_order,
            final(self).warehouse_cnt == old(self).warehouse_cnt,
            final(self).warehouse.entries() == old(self).warehouse.entries(),
            final(self).warehouse.spec_cache().records() == old(self).warehouse.spec_cache().records(),
            final(self).district.entries() == old(self).district.entries(),
            final(self).district.spec_cache().records() == old(self).district.spec_cache().records(),
            ({
                let wk = input.w_id as usize;
                let dk = district_key(input.w_id as u64, input.d_id as u64) as usize;
                &&& r is Err <==> !old(self).warehouse.entries().contains_key(wk) || !old(self).district.entries().contains_key(dk)
                &&& r matches Err(e) ==> e == TransactionError::IndexNotFound && final(self).unlocked()
                &&& r matches Ok(h) ==> {
                    &&& h.w_rid == old(self).warehouse.entries()[wk]
                    &&& write_held(final(self).warehouse, h.w_rid)
                    &&& h.d_rid == old(self).district.entries()[dk]
                    &&& write_held(final(self).district, h.d_rid)
                    &&& h.w_name@ == warehouse_name(old(self).warehouse.row(wk))
                    &&& h.w_ytd == warehouse_ytd(old(self).warehouse.row(wk))
                    &&& h.d_name@ == district_name(old(self).district.row(dk))
                    &&& h.d_ytd == district_ytd(old(self).district.row(dk))
                }
            }),
    {
        let guard = self.warehouse.pin();
        let w = input.w_id as u64;
        let d = input.d_id as u64;

        /* read warehouse */
        let w_key = input.w_id as usize;
        let ghost w0 = self.warehouse;
        proof {
            if self.warehouse.entries().contains_key(w_key) {
                assert(self.warehouse.entries()[w_key].id() < self.warehouse.spec_cache().len());
                lemma_lock_byte(self.warehouse.key_lock(w_key).word(), 0);
            }
        }
        let (w_rid, mut w_lock) = match self.warehouse.write_oid_sync(&w_key, &guard) {
            Ok(x) => x,
            Err(e) => {
                return Err(e);
            },
        };
        let ghost w1 = self.warehouse;
        proof {
            assert(w1.spec_cache().records().len() == w0.spec_cache().records().len());
        }
        let w_fields = FieldsMeta::new(
            [
                Field::new(8, 18),
                Field::new(18, 38),
                Field::new(38, 58),
                Field::new(58, 78),
                Field::new(78, 80),
                Field::new(80, 88),
                Field::new(96, 104),
            ],
        );
        {
            let _w_results = self.warehouse.read_and_promote(
                w_rid,
                &mut w_lock,
                &w_fields,
                ref_draw(WAREHOUSE_REF_TENTHS),
                ref_draw(WAREHOUSE_REF_TENTHS),
                ref_draw(WAREHOUSE_REF_TENTHS),
            );
        }
        proof {
            assert(self.warehouse.spec_cache().records().len() == w0.spec_cache().records().len());
        }
        let wh = self.warehouse.read_record(w_rid, &w_lock, false);
        proof {
            wh.lemma_payment();
        }
        let ghost w2 = self.warehouse;
        proof {
            assert forall|q: int| 0 <= q < w2.spec_cache().len() && q != w_rid.id() implies !oid_locked(
                #[trigger] w2.spec_cache().locks()[q].word(),
            ) by {
                assert(w1.spec_cache().locks()[q] == w0.spec_cache().locks()[q]);
                lemma_lock_byte(w2.spec_cache().locks()[q].word(), w0.spec_cache().locks()[q].word());
            }
        }

        /* read district */
        assert((w << 48u64) <= 0xffff_0000_0000_0000u64) by (bit_vector);
        let d_key = DistrictTuple::make_key(w, d);
        let ghost d0 = self.district;
        proof {
            if self.district.entries().contains_key(d_key) {
                assert(self.district.entries()[d_key].id() < self.district.spec_cache().len());
                lemma_lock_byte(self.district.key_lock(d_key).word(), 0);
            }
        }
        let (d_rid, mut d_lock) = match self.district.write_oid_sync(&d_key, &guard) {
            Ok(x) => x,
            Err(e) => {
                self.warehouse.write_unlock(w_rid, w_lock);
                proof {
                    lemma_unlocked_but(w0, self.warehouse, w_rid.id() as int);
                }
                return Err(e);
            },
        };
        let ghost d1 = self.district;
        proof {
            assert(d1.spec_cache().records().len() == d0.spec_cache().records().len());
        }
        let d_fields = FieldsMeta::new(
            [
                Field::new(16, 26),
                Field::new(26, 46),
                Field::new(46, 66),
                Field::new(66, 86),
                Field::new(86, 88),
                Field::new(88, 96),
                Field::new(104, 112),
            ],
        );
        {
            let _d_results = self.district.read_and_promote(
                d_rid,
                &mut d_lock,
                &d_fields,
                ref_draw(DISTRICT_REF_TENTHS),
                ref_draw(DISTRICT_REF_TENTHS),
                ref_draw(DISTRICT_REF_TENTHS),
            );
        }
        proof {
            assert(self.district.spec_cache().records().len() == d0.spec_cache().records().len());
        }
        let di = self.district.read_record(d_rid, &d_lock, false);
        proof {
            di.lemma_payment();
        }
        let ghost d2 = self.district;
        proof {
            assert forall|q: int| 0 <= q < d2.spec_cache().len() && q != d_rid.id() implies !oid_locked(
                #[trigger] d2.spec_cache().locks()[q].word(),
            ) by {
                assert(d1.spec_cache().locks()[q] == d0.spec_cache().locks()[q]);
                lemma_lock_byte(d2.spec_cache().locks()[q].word(), d0.spec_cache().locks()[q].word());
            }
        }
        Ok(
            PaymentHeads {
                w_rid,
                w_lock,
                d_rid,
                d_lock,
                w_name: wh.w_name,
                w_ytd: wh.w_ytd,
                d_name: di.d_name,
                d_ytd: di.d_ytd,
            },
        )
    }
    /// The middle of the payment transaction: writes the new year-to-date balances (the
    /// bits of doubles: the old ones plus the amount, as the caller adds them) into the
    /// warehouse and the district, then write-locks the customer, found by id or as the
    /// middle one of those with the last name (at most eight are scanned), caches it and
    /// reads what the payment needs. When no customer has the last name, or the id has no
    /// row (`IndexNotFound`), the payment ends there, every lock given back; the balances
    /// stay written.
    pub fn payment_customer(
        &mut self,
        input: &PaymentInput,
        heads: PaymentHeads,
        w_ytd: u64,
        d_ytd: u64,
    ) -> (r: Result<PaymentCustomerStep, TransactionError>)
        requires
            old(self).wf(),
            write_held(old(self).warehouse, heads.w_rid),
            write_held(old(self).district, heads.d_rid),
            unlocked(old(self).customer),
            unlocked(old(self).item),
            unlocked(old(self).stock),
            unlocked(old(self).order),
            unlocked(old(self).order_line),
            input.c_query matches CustomerQuery::Id(id) ==> query_customer_key(
                input.c_w_id,
                input.c_d_id,
                id,
            ) <= u64::MAX,
        ensures
            final(self).wf(),
            final(self).warehouse.entries() == old(self).warehouse.entries(),
            final(self).warehouse.spec_cache().records() == old(self).warehouse.spec_cache().records().update(
                heads.w_rid.id() as int,
                overwrite(old(self).warehouse.spec_cache().records()[heads.w_rid.id() as int], 96, le_word(w_ytd)),
            ),
            final(self).district.entries() == old(self).district.entries(),
            final(self).district.spec_cache().records() == old(self).district.spec_cache().records().update(
                heads.d_rid.id() as int,
                overwrite(old(self).district.spec_cache().records()[heads.d_rid.id() as int], 104, le_word(d_ytd)),
            ),
            final(self).customer.entries() == old(self).customer.entries(),
            final(self).customer.spec_cache().records() == old(self).customer.spec_cache().records(),
            final(self).item == old(self).item,
            final(self).stock == old(self).stock,
            final(self).order == old(self).order,
            final(self).order_line == old(self).order_line,
            final(self).c_last_idx == old(self).c_last_idx,
            final(self).new_order == old(self).new_order,
            final(self).warehouse_cnt == old(self).warehouse_cnt,
            ({
                let raw = old(self).c_last_idx.raw_entries();
                &&& r is Err <==> (input.c_query matches CustomerQuery::Id(id)
                    && !old(self).customer.entries().contains_key(
                    query_customer_key(input.c_w_id, input.c_d_id, id) as usize,
                ))
                &&& r matches Err(e) ==> e == TransactionError::IndexNotFound && final(self).unlocked()
                &&& (r matches Ok(PaymentCustomerStep::NoCustomer)) <==> (input.c_query matches CustomerQuery::LastName(seed)
                    && forall|k: usize| !#[trigger] keys_in_range(
                    raw,
                    last_name_key(input.c_w_id as u16, input.c_d_id as u16, seed as u16, 0) as usize,
                    last_name_key(
                        input.c_w_id as u16,
                        input.c_d_id as u16,
                        seed as u16,
                        CUSTOMER_SCALE as u16,
                    ) as usize,
                ).contains(k))
                &&& r matches Ok(PaymentCustomerStep::NoCustomer) ==> final(self).unlocked()
                &&& r matches Ok(PaymentCustomerStep::Found(h, c)) ==> {
                    &&& h.w_rid == heads.w_rid
                    &&& h.d_rid == heads.d_rid
                    &&& h.w_name == heads.w_name
                    &&& h.d_name == heads.d_name
                    &&& h.w_ytd == heads.w_ytd
                    &&& h.d_ytd == heads.d_ytd
                    &&& write_held(final(self).warehouse, h.w_rid)
                    &&& write_held(final(self).district, h.d_rid)
                    &&& write_held(final(self).customer, c.c_rid)
                    &&& input.c_query matches CustomerQuery::Id(id) ==> c.c_rid == old(self).customer.entries()[
                        query_customer_key(input.c_w_id, input.c_d_id, id) as usize]
                    &&& input.c_query matches CustomerQuery::LastName(seed) ==> exists|
                        out: Seq<(usize, usize)>,
                        n: usize,
                    |
                        {
                            &&& #[trigger] range_scanned(
                                raw,
                                last_name_key(input.c_w_id as u16, input.c_d_id as u16, seed as u16, 0) as usize,
                                last_name_key(
                                    input.c_w_id as u16,
                                    input.c_d_id as u16,
                                    seed as u16,
                                    CUSTOMER_SCALE as u16,
                                ) as usize,
                                out,
                                n,
                            )
                            &&& out.len() == 8
                            &&& n > 0
                            &&& c.c_rid == Rid::spec_from_u32(out[(n / 2) as int].1 as u32)
                        }
                    &&& {
                        let row = old(self).customer.spec_cache().records()[c.c_rid.id() as int];
                        &&& c.c_middle@ == customer_middle(row)
                        &&& c.c_credit@ == customer_credit(row)
                        &&& c.c_discount == customer_discount(row)
                        &&& c.c_balance == customer_balance(row)
                        &&& c.c_ytd_payment == customer_ytd_payment(row)
                        &&& c.c_payment_cnt == customer_payment_cnt(row)
                    }
                }
            }),
    {
        let guard = self.warehouse.pin();
        let PaymentHeads { w_rid, w_lock, d_rid, d_lock, w_name, w_ytd: old_w_ytd, d_name, d_ytd: old_d_ytd } =
            heads;
        let mut w_lock = w_lock;
        let mut d_lock = d_lock;
        let ghost w0 = self.warehouse;
        let ghost d0 = self.district;
        self.write_warehouse_word(w_rid, &mut w_lock, 96, w_ytd);
        self.write_district_word(d_rid, &mut d_lock, 104, d_ytd);
        let ghost w1 = self.warehouse;
        let ghost d1 = self.district;

        /* read customer */
        let ghost c0 = self.customer;
        let (c_rid, mut c_lock) = match input.c_query {
            CustomerQuery::Id(id) => {
                let c_key = CustomerTuple::make_key(input.c_w_id as u64, input.c_d_id as u64, id as u64);
                proof {
                    if self.customer.entries().contains_key(c_key) {
                        assert(self.customer.entries()[c_key].id() < self.customer.spec_cache().len());
                        lemma_lock_byte(self.customer.key_lock(c_key).word(), 0);
                    }
                }
                match self.customer.write_oid(&c_key, &guard) {
                    Ok(x) => x,
                    Err(e) => {
                        self.district.write_unlock(d_rid, d_lock);
                        self.warehouse.write_unlock(w_rid, w_lock);
                        proof {
                            lemma_unlocked_after_release(w1, self.warehouse, w_rid);
                            lemma_unlocked_after_release(d1, self.district, d_rid);
                        }
                        return Err(e);
                    },
                }
            },
            CustomerQuery::LastName(seed) => {
                let low = CustomerTuple::idx_key_lastname(
                    input.c_w_id as u16,
                    input.c_d_id as u16,
                    seed as u16,
                    0,
                );
                let high = CustomerTuple::idx_key_lastname(
                    input.c_w_id as u16,
                    input.c_d_id as u16,
                    seed as u16,
                    CUSTOMER_SCALE as u16,
                );
                let mut rid_buffer: Vec<(usize, usize)> = Vec::new();
                let mut k: usize = 0;
                while k < 8
                    invariant
                        0 <= k <= 8,
                        rid_buffer@.len() == k,
                    decreases 8 - k,
                {
                    rid_buffer.push((0, 0));
                    k += 1;
                }
                let cnt = self.c_last_idx.range(low, high, rid_buffer.as_mut_slice(), &guard);
                if cnt == 0 {
                    self.district.write_unlock(d_rid, d_lock);
                    self.warehouse.write_unlock(w_rid, w_lock);
                    proof {
                        lemma_unlocked_after_release(w1, self.warehouse, w_rid);
                        lemma_unlocked_after_release(d1, self.district, d_rid);
                        let keys = keys_in_range(self.c_last_idx.raw_entries(), low, high);
                        assert forall|k: usize| !#[trigger] keys.contains(k) by {
                            if keys.contains(k) {
                                assert(cnt > 0);
                            }
                        }
                    }
                    return Ok(PaymentCustomerStep::NoCustomer);
                }
                let middle = rid_buffer[cnt / 2].1;
                let middle_rid = Rid::from_u32(middle as u32);
                proof {
                    let raw = self.c_last_idx.raw_entries();
                    self.c_last_idx.lemma_raw_entries();
                    assert(raw.contains_key(rid_buffer@[(cnt / 2) as int].0));
                    assert(self.c_last_idx.entries().contains_key(rid_buffer@[(cnt / 2) as int].0));
                    assert(middle_rid.id() < self.customer.spec_cache().len());
                    lemma_lock_byte(self.customer.spec_cache().locks()[middle_rid.id() as int].word(), 0);
                    assert(range_scanned(raw, low, high, rid_buffer@, cnt));
                    assert(middle_rid == Rid::spec_from_u32(rid_buffer@[(cnt / 2) as int].1 as u32));
                    assert(keys_in_range(raw, low, high).contains(rid_buffer@[0].0));
                }
                match self.customer.lock_rid_w(middle_rid) {
                    Ok(g) => (middle_rid, g),
                    Err(e) => {
                        proof {
                            assert(false);
                        }
                        return Err(
                            match e {
                                TransactionError::IndexNotFound => TransactionError::UserAbort,
                                _ => e,
                            },
                        );
                    },
                }
            },
        };
        let ghost c1 = self.customer;
        proof {
            assert(c1.spec_cache().records().len() == c0.spec_cache().records().len());
            assert(c_rid.id() < c1.spec_cache().len());
        }
        let c_fields = FieldsMeta::new(
            [
                Field::new(8, 28),
                Field::new(28, 30),
                Field::new(30, 46),
                Field::new(46, 66),
                Field::new(66, 86),
                Field::new(86, 106),
                Field::new(106, 108),
                Field::new(108, 116),
                Field::new(116, 132),
                Field::new(132, 140),
                Field::new(140, 142),
                Field::new(150, 158),
                Field::new(158, 166),
                Field::new(166, 174),
                Field::new(174, 178),
            ],
        );
        {
            let _c_results = self.customer.read_and_promote(
                c_rid,
                &mut c_lock,
                &c_fields,
                ref_draw(CUSTOMER_REF_TENTHS),
                ref_draw(CUSTOMER_REF_TENTHS),
                ref_draw(CUSTOMER_REF_TENTHS),
            );
        }
        proof {
            assert(self.customer.spec_cache().records().len() == c0.spec_cache().records().len());
        }
        let cust = self.customer.read_record(c_rid, &c_lock, false);
        proof {
            cust.lemma_payment();
            assert forall|q: int| 0 <= q < self.customer.spec_cache().len() && q != c_rid.id() implies !oid_locked(
                #[trigger] self.customer.spec_cache().locks()[q].word(),
            ) by {
                assert(c1.spec_cache().locks()[q] == c0.spec_cache().locks()[q]);
                lemma_lock_byte(self.customer.spec_cache().locks()[q].word(), c0.spec_cache().locks()[q].word());
            }
        }
        Ok(
            PaymentCustomerStep::Found(
                PaymentHeads {
                    w_rid,
                    w_lock,
                    d_rid,
                    d_lock,
                    w_name,
                    w_ytd: old_w_ytd,
                    d_name,
                    d_ytd: old_d_ytd,
                },
                PaymentCustomer {
                    c_rid,
                    c_lock,
                    c_middle: cust.c_middle,
                    c_credit: cust.c_credit,
                    c_discount: cust.c_discount,
                    c_balance: cust.c_balance,
                    c_ytd_payment: cust.c_ytd_payment,
                    c_payment_cnt: cust.c_payment_cnt,
                },
            ),
        )
    }
    /// Ends the payment transaction: writes the customer's new balance and year-to-date
    /// payment (the bits of doubles: the old ones minus and plus the amount, as the caller
    /// computes them) and one more payment; a customer in bad standing ("BC") gets the first
    /// 48 bytes of the payment's history row in front of its data (see
    /// `paid_customer_row`). Then gives back the customer's, the district's and the
    /// warehouse's locks.
    pub fn payment_commit(
        &mut self,
        input: &PaymentInput,
        heads: PaymentHeads,
        cust: PaymentCustomer,
        c_balance: u64,
        c_ytd_payment: u64,
    )
        requires
            old(self).wf(),
            write_held(old(self).warehouse, heads.w_rid),
            write_held(old(self).district, heads.d_rid),
            write_held(old(self).customer, cust.c_rid),
            unlocked(old(self).item),
            unlocked(old(self).stock),
            unlocked(old(self).order),
            unlocked(old(self).order_line),
            ({
                let row = old(self).customer.spec_cache().records()[cust.c_rid.id() as int];
                &&& cust.c_payment_cnt == customer_payment_cnt(row)
                &&& cust.c_payment_cnt < u32::MAX
                &&& cust.c_credit@ == customer_credit(row)
                &&& customer_middle(row) == customer_middle_name()
            }),
        ensures
            final(self).wf(),
            final(self).unlocked(),
            final(self).customer.entries() == old(self).customer.entries(),
            final(self).customer.spec_cache().records() == old(self).customer.spec_cache().records().update(
                cust.c_rid.id() as int,
                paid_customer_row(
                    old(self).customer.spec_cache().records()[cust.c_rid.id() as int],
                    c_balance,
                    c_ytd_payment,
                    payment_history_prefix(*input, heads.w_name@, heads.d_name@),
                ),
            ),
            final(self).warehouse.entries() == old(self).warehouse.entries(),
            final(self).warehouse.spec_cache().records() == old(self).warehouse.spec_cache().records(),
            final(self).district.entries() == old(self).district.entries(),
            final(self).district.spec_cache().records() == old(self).district.spec_cache().records(),
            final(self).item == old(self).item,
            final(self).stock == old(self).stock,
            final(self).order == old(self).order,
            final(self).order_line == old(self).order_line,
            final(self).c_last_idx == old(self).c_last_idx,
            final(self).new_order == old(self).new_order,
            final(self).warehouse_cnt == old(self).warehouse_cnt,
    {
        let PaymentHeads { w_rid, w_lock, d_rid, d_lock, w_name, w_ytd: _, d_name, d_ytd: _ } = heads;
        let PaymentCustomer {
            c_rid,
            c_lock,
            c_middle: _,
            c_credit,
            c_discount: _,
            c_balance: _,
            c_ytd_payment: _,
            c_payment_cnt,
        } = cust;
        let mut c_lock = c_lock;
        let ghost c0 = self.customer;
        let ghost row = c0.spec_cache().records()[c_rid.id() as int];
        proof {
            lemma_customer_rows(c0);
            vstd::bytes::lemma_auto_spec_u64_to_from_le_bytes();
            vstd::bytes::lemma_auto_spec_u32_to_from_le_bytes();
        }
        let bal = word_update_data(c_balance);
        self.write_customer_bytes(c_rid, &mut c_lock, 158, bal.as_slice());
        let ytd = word_update_data(c_ytd_payment);
        self.write_customer_bytes(c_rid, &mut c_lock, 166, ytd.as_slice());
        let cnt = word32_update_data(c_payment_cnt + 1);
        self.write_customer_bytes(c_rid, &mut c_lock, 174, cnt.as_slice());
        let ghost row3 = overwrite(
            overwrite(overwrite(row, 158, le_word(c_balance)), 166, le_word(c_ytd_payment)),
            174,
            le_word32((c_payment_cnt + 1) as u32),
        );
        proof {
            reveal_strlit("BC");
            vstd::string::is_ascii_spec_bytes("BC");
            assert("BC".spec_bytes() =~= bad_credit());
            assert(self.customer.spec_cache().records()[c_rid.id() as int] == row3);
        }
        if c_credit.eq_str("BC") {
            let data_query = FieldsMeta::new([Field::new(198, 698)]);
            {
                let _data_result = self.customer.read_and_promote(
                    c_rid,
                    &mut c_lock,
                    &data_query,
                    ref_draw(CUSTOMER_REF_TENTHS),
                    ref_draw(CUSTOMER_REF_TENTHS),
                    ref_draw(CUSTOMER_REF_TENTHS),
                );
            }
            proof {
                assert(self.customer.spec_cache().records().len() == c0.spec_cache().records().len());
            }
            let cu = self.customer.read_record(c_rid, &c_lock, false);
            proof {
                cu.lemma_payment();
                assert(customer_data(row3) =~= customer_data(row));
            }
            let h_c_id: u64 = match input.c_query {
                CustomerQuery::Id(i) => i as u64,
                CustomerQuery::LastName(_) => 0,
            };
            let history = HistoryTuple {
                h_c_id,
                h_c_d_id: input.d_id as u64,
                h_c_w_id: input.w_id as u64,
                h_d_id: input.d_id as u64,
                h_data: FixedString::concat(&w_name, &d_name, 4),
                h_w_id: input.w_id as u64,
                h_date: input.h_date,
                h_amount: input.h_amount,
            };
            let hb = history.to_bytes();
            proof {
                history.lemma_prefix();
                w_name.lemma_len();
                d_name.lemma_len();
                assert(history.h_data@.subrange(0, 16) =~= (w_name@ + Seq::new(4, |i: int| 0u8) + d_name@).subrange(0, 16));
                assert(hb@.subrange(0, 48) =~= payment_history_prefix(*input, w_name@, d_name@));
            }
            let mut new_data: Vec<u8> = Vec::new();
            let mut i: usize = 0;
            while i < 48
                invariant
                    0 <= i <= 48,
                    hb@.len() == 80,
                    new_data@ == hb@.subrange(0, i as int),
                decreases 48 - i,
            {
                new_data.push(hb[i]);
                i += 1;
                assert(hb@.subrange(0, i as int) =~= hb@.subrange(0, i - 1).push(hb@[i - 1]));
            }
            let old_data = cu.c_data.as_bytes();
            let mut j: usize = 0;
            while j < 452
                invariant
                    0 <= j <= 452,
                    old_data@.len() == 500,
                    new_data@ == hb@.subrange(0, 48) + old_data@.subrange(0, j as int),
                decreases 452 - j,
            {
                new_data.push(old_data[j]);
                j += 1;
                assert(old_data@.subrange(0, j as int) =~= old_data@.subrange(0, j - 1).push(old_data@[j - 1]));
            }
            self.write_customer_bytes(c_rid, &mut c_lock, 198, new_data.as_slice());
        }
        let ghost c_end = self.customer;
        let ghost d0 = self.district;
        let ghost w0 = self.warehouse;
        self.customer.write_unlock(c_rid, c_lock);
        self.district.write_unlock(d_rid, d_lock);
        self.warehouse.write_unlock(w_rid, w_lock);
        proof {
            assert forall|q: int| 0 <= q < self.customer.spec_cache().len() implies !oid_locked(
                #[trigger] self.customer.spec_cache().locks()[q].word(),
            ) by {
                if q != c_rid.id() {
                    assert(self.customer.spec_cache().locks()[q] == c_end.spec_cache().locks()[q]);
                    lemma_lock_byte(c_end.spec_cache().locks()[q].word(), c0.spec_cache().locks()[q].word());
                }
            }
            lemma_unlocked_after_release(d0, self.district, d_rid);
            lemma_unlocked_after_release(w0, self.warehouse, w_rid);
        }
    }
}

} // verus!

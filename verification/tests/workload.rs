use alchemy::attribute_cache::Schema;
use alchemy::benchmark::tpcc::load::{
    CREDIT_LIMIT, DISTRICT_YTD, FIRST_NEW_ORDER, INITIAL_BALANCE, INITIAL_YTD_PAYMENT,
    NEW_ORDER_AMOUNTS, WAREHOUSE_YTD,
};
use alchemy::benchmark::tpcc::query::{
    CustomerQuery, DeliveryInput, NewOrderInput, OrderItem, OrderStatusInput, PaymentInput,
    StockLevelInput,
};
use alchemy::benchmark::tpcc::schemas::{
    CustomerCachedRead, GeneralSchema, ItemCached, OrderCached, StockCached,
};
use alchemy::benchmark::tpcc::tables::{
    CustomerTuple, DistrictTuple, ItemTuple, NewOrderTuple, OrderLineTuple, StockTuple,
    WarehouseTuple,
};
use alchemy::benchmark::tpcc::workload::{
    DeliveryStep, PaymentCustomerStep, TpccTable, TpccWorkload,
};
use alchemy::benchmark::tpcc::{CUSTOMER_SCALE, DISTRICT_SCALE, ITEM_SCALE};
use alchemy::benchmark::utils::{FixedString, NuRandConstants};
use alchemy::error::TransactionError;
use alchemy::index::{Art, DbIndex, RawArt};
use alchemy::table::DbTable;

type Tpcc = TpccWorkload<
    WarehouseTuple,
    DistrictTuple,
    CustomerCachedRead,
    ItemCached,
    StockCached,
    OrderCached,
    OrderLineTuple,
>;

const MB: usize = 1 << 20;

fn table<F>(rows: usize) -> TpccTable<F>
where
    GeneralSchema<F>: Schema,
{
    let row = std::mem::size_of::<<GeneralSchema<F> as Schema>::Tuple>();
    DbTable::<Art, GeneralSchema<F>>::builder()
        .cache(MB)
        .storage(rows * row)
        .schema(GeneralSchema::new())
        .build()
}

fn empty_workload() -> Tpcc {
    let mut w = TpccWorkload {
        warehouse_cnt: 1,
        warehouse: table(4),
        district: table(2 * DISTRICT_SCALE),
        customer: table(DISTRICT_SCALE * CUSTOMER_SCALE + 8),
        c_last_idx: Art::new(),
        item: table(ITEM_SCALE + 8),
        stock: table(ITEM_SCALE + 8),
        order: table(DISTRICT_SCALE * CUSTOMER_SCALE + 64),
        order_line: table(15 * DISTRICT_SCALE * CUSTOMER_SCALE + 64),
        new_order: RawArt::new(),
    };
    w.thread_init();
    w
}

fn bits(x: f64) -> u64 {
    x.to_bits()
}

/// The row of warehouse 0, whose tax rate is 0.05.
fn warehouse_row() -> WarehouseTuple {
    WarehouseTuple {
        w_id: 0,
        w_name: FixedString::rand_gen(),
        w_street1: FixedString::rand_gen(),
        w_street2: FixedString::rand_gen(),
        w_city: FixedString::rand_gen(),
        w_state: FixedString::rand_gen(),
        w_zip: 1111,
        w_tax: bits(0.05),
        w_ytd: WAREHOUSE_YTD,
    }
}

/// Warehouse 0 with its district `d_id` loaded: the discounts are 0.25 and the order-line
/// amounts 1.5.
fn district_workload(d_id: u64) -> Tpcc {
    let mut w = empty_workload();
    let guard = w.warehouse.pin();
    let (rid, lock) = w.warehouse.insert(warehouse_row(), &guard);
    w.warehouse.write_unlock(rid, lock);
    let consts = NuRandConstants::new();
    let discounts = vec![bits(0.25); CUSTOMER_SCALE];
    let amounts = vec![bits(1.5); NEW_ORDER_AMOUNTS];
    w.load_district(0, d_id, bits(0.1), 1_000, &discounts, &amounts, &consts, &guard);
    w
}

/// A stock row of warehouse 0 holding 50 of item `i_id`, with blank strings.
fn stock_row(i_id: u64) -> StockTuple {
    StockTuple {
        s_i_id: i_id,
        s_w_id: 0,
        s_quantity: 50,
        s_ytd: 0,
        s_order_cnt: 0,
        s_remote_cnt: 0,
        s_data: FixedString::new(),
        s_dist01: FixedString::new(),
        s_dist02: FixedString::new(),
        s_dist03: FixedString::new(),
        s_dist04: FixedString::new(),
        s_dist05: FixedString::new(),
        s_dist06: FixedString::new(),
        s_dist07: FixedString::new(),
        s_dist08: FixedString::new(),
        s_dist09: FixedString::new(),
        s_dist10: FixedString::new(),
    }
}

/// Items `items`, priced 2.0, and their stock in warehouse 0, 50 of each.
fn add_items(w: &mut Tpcc, items: &[u64]) {
    let guard = w.item.pin();
    for &i_id in items {
        let item = ItemTuple {
            i_id,
            i_im_id: 1,
            i_price: bits(2.0),
            i_name: FixedString::rand_gen(),
            i_data: FixedString::rand_gen(),
        };
        let (rid, lock) = w.item.insert(item, &guard);
        w.item.write_unlock(rid, lock);
        let stock = stock_row(i_id);
        let (rid, lock) = w.stock.insert(stock, &guard);
        w.stock.write_unlock(rid, lock);
    }
}

/// The number of new orders of district `d_id` of warehouse 0.
fn new_order_count(w: &Tpcc, d_id: u64) -> usize {
    let low = NewOrderTuple::make_key(0, d_id, 0, 0);
    let high = NewOrderTuple::make_key(0, d_id + 1, 0, 0);
    let mut out = vec![(0usize, 0usize); 4096];
    let guard = w.new_order.pin();
    w.new_order.range(low, high, &mut out, &guard)
}

fn read_customer(w: &mut Tpcc, d_id: u64, c_id: u64) -> CustomerTuple {
    let guard = w.customer.pin();
    let key = CustomerTuple::make_key(0, d_id, c_id);
    let (rid, lock) = w.customer.read_oid_sync(&key, &guard).ok().unwrap();
    let row = w.customer.read_record(rid, &lock, false);
    w.customer.read_unlock(rid, lock);
    row
}

#[test]
fn stock_loading_gives_every_item_a_row() {
    let mut w = empty_workload();
    w.load_stock(3);
    let guard = w.stock.pin();
    for i_id in [0u64, 1, 777, (ITEM_SCALE - 1) as u64] {
        let key = StockTuple::make_key(3, i_id);
        let (rid, lock) = w.stock.read_oid_sync(&key, &guard).ok().unwrap();
        assert_eq!(rid.as_u32() as u64, i_id);
        w.stock.read_unlock(rid, lock);
    }
    let missing = StockTuple::make_key(3, ITEM_SCALE as u64);
    assert!(matches!(
        w.stock.read_oid_sync(&missing, &guard),
        Err(TransactionError::IndexNotFound)
    ));
}

#[test]
fn item_loading_keeps_the_prices() {
    let mut w = empty_workload();
    let prices: Vec<u64> = (0..ITEM_SCALE).map(|i| bits(1.0 + (i % 100) as f64)).collect();
    w.load_item(&prices);
    let guard = w.item.pin();
    for i_id in [0u64, 42, 99_999] {
        let key = ItemTuple::make_key(i_id);
        let (rid, lock) = w.item.read_oid_sync(&key, &guard).ok().unwrap();
        let row = w.item.read_record(rid, &lock, false);
        w.item.read_unlock(rid, lock);
        assert_eq!(row.i_id, i_id);
        assert_eq!(row.i_price, prices[i_id as usize]);
        assert!(1 <= row.i_im_id && row.i_im_id <= 10_000);
    }
}

#[test]
fn customer_loading_starts_every_balance() {
    let mut w = empty_workload();
    let consts = NuRandConstants::new();
    let guard = w.c_last_idx.pin();
    w.load_one_customer(17, 2, 0, 555, bits(0.125), &consts, &guard);
    let row = read_customer(&mut w, 2, 17);
    assert_eq!(row.c_id, 17);
    assert_eq!(row.c_since, 555);
    assert_eq!(row.c_discount, bits(0.125));
    assert_eq!(row.c_balance, INITIAL_BALANCE);
    assert_eq!(f64::from_bits(row.c_balance), -10.0);
    assert_eq!(f64::from_bits(row.c_ytd_payment), 10.0);
    assert_eq!(row.c_ytd_payment, INITIAL_YTD_PAYMENT);
    assert_eq!(f64::from_bits(row.c_credit_lim), 50_000.0);
    assert_eq!(row.c_credit_lim, CREDIT_LIMIT);
    assert_eq!(row.c_payment_cnt, 1);
    assert_eq!(row.c_delivery_cnt, 0);
    assert!(row.c_middle.eq_str("OE"));
    assert!(row.c_credit.eq_str("GC") || row.c_credit.eq_str("BC"));
}

#[test]
fn order_loading_leaves_the_last_orders_new() {
    let mut w = empty_workload();
    let amounts = vec![bits(1.5); NEW_ORDER_AMOUNTS];
    w.load_order(0, 4, 77, &amounts);
    assert_eq!(new_order_count(&w, 4), CUSTOMER_SCALE - FIRST_NEW_ORDER as usize);
    assert_eq!(new_order_count(&w, 3), 0);
}

#[test]
fn payments_add_up_on_the_balances() {
    let mut w = district_workload(2);
    let input = PaymentInput {
        w_id: 0,
        d_id: 2,
        c_w_id: 0,
        c_d_id: 2,
        c_query: CustomerQuery::Id(11),
        h_amount: bits(5.0),
        h_date: 9,
    };
    let heads = match w.payment_lock_heads(&input) {
        Ok(h) => h,
        Err(e) => panic!("payment could not lock its heads: {:?}", e),
    };
    assert_eq!(heads.w_ytd, WAREHOUSE_YTD);
    assert_eq!(f64::from_bits(heads.w_ytd), 300_000.0);
    assert_eq!(heads.d_ytd, DISTRICT_YTD);
    assert_eq!(f64::from_bits(heads.d_ytd), 30_000.0);
    assert_eq!(new_order_count(&w, 2), CUSTOMER_SCALE - FIRST_NEW_ORDER as usize);
    let w_ytd = bits(300_005.0);
    let d_ytd = bits(30_005.0);
    match w.payment_customer(&input, heads, w_ytd, d_ytd) {
        Ok(PaymentCustomerStep::Found(heads, cust)) => {
            assert_eq!(cust.c_balance, INITIAL_BALANCE);
            assert_eq!(cust.c_ytd_payment, INITIAL_YTD_PAYMENT);
            assert_eq!(cust.c_payment_cnt, 1);
            assert_eq!(cust.c_discount, bits(0.25));
            w.payment_commit(&input, heads, cust, bits(-15.0), bits(15.0));
        }
        _ => panic!("the customer of the payment was not found"),
    }
    let row = read_customer(&mut w, 2, 11);
    assert_eq!(f64::from_bits(row.c_balance), -15.0);
    assert_eq!(f64::from_bits(row.c_ytd_payment), 15.0);
    assert_eq!(row.c_payment_cnt, 2);
    // The next payment reads the balances the first one wrote.
    match w.payment_lock_heads(&input) {
        Ok(heads) => {
            assert_eq!(heads.w_ytd, w_ytd);
            assert_eq!(heads.d_ytd, d_ytd);
            match w.payment_customer(&input, heads, w_ytd, d_ytd) {
                Ok(PaymentCustomerStep::Found(heads, cust)) => {
                    assert_eq!(cust.c_payment_cnt, 2);
                    let (balance, ytd) = (cust.c_balance, cust.c_ytd_payment);
                    w.payment_commit(&input, heads, cust, balance, ytd);
                }
                _ => panic!("the customer of the payment was not found"),
            }
        }
        Err(e) => panic!("payment could not lock its heads: {:?}", e),
    }
}

#[test]
fn delivery_takes_the_oldest_new_order() {
    let mut w = district_workload(5);
    let input = DeliveryInput { w_id: 0, o_carrier_id: 4 };
    let before = new_order_count(&w, 5);
    assert_eq!(before, CUSTOMER_SCALE - FIRST_NEW_ORDER as usize);
    match w.delivery_district(&input, 5, 2_000) {
        Ok(DeliveryStep::Delivered(order)) => {
            assert!(order.amounts.len() >= 5 && order.amounts.len() <= 15);
            assert!(order.amounts.iter().all(|a| *a == bits(1.5)));
            assert_eq!(order.c_balance, INITIAL_BALANCE);
            assert_eq!(order.c_delivery_cnt, 0);
            let total: f64 = order.amounts.iter().map(|a| f64::from_bits(*a)).sum();
            let balance = f64::from_bits(order.c_balance) + total;
            w.finish_delivery_district(order, balance.to_bits());
        }
        _ => panic!("the district had no new order to deliver"),
    }
    assert_eq!(new_order_count(&w, 5), before - 1);
    assert_eq!(new_order_count(&w, 6), 0);
    // The district of another warehouse has nothing to deliver.
    let other = DeliveryInput { w_id: 1, o_carrier_id: 4 };
    assert!(matches!(w.delivery_district(&other, 5, 2_001), Ok(DeliveryStep::NoNewOrder)));
}

#[test]
fn new_orders_take_the_next_order_ids() {
    let mut w = district_workload(1);
    add_items(&mut w, &[10, 11, 12, 13, 14]);
    let mut orders = [OrderItem { ol_i_id: 0, ol_supply_w_id: 0, ol_quantity: 0 }; 15];
    for (i, o) in orders.iter_mut().enumerate().take(5) {
        *o = OrderItem { ol_i_id: 10 + i as u32, ol_supply_w_id: 0, ol_quantity: 3 };
    }
    let input = NewOrderInput {
        w_id: 0,
        d_id: 1,
        c_id: 7,
        ol_cnt: 5,
        orders,
        o_entry_d: 99,
        all_local: true,
    };
    let before = new_order_count(&w, 1);
    for expected in [3001u64, 3002] {
        match w.new_order_prepare(&input) {
            Ok(prepared) => {
                assert_eq!(prepared.o_id, expected);
                assert_eq!(prepared.lines.len(), 5);
                assert!(prepared.lines.iter().all(|l| l.i_price == bits(2.0)));
                let amounts: Vec<u64> = prepared
                    .lines
                    .iter()
                    .map(|l| (3.0 * f64::from_bits(l.i_price)).to_bits())
                    .collect();
                w.new_order_commit(&input, prepared, &amounts);
            }
            Err(e) => panic!("the new order failed: {:?}", e),
        }
    }
    assert_eq!(new_order_count(&w, 1), before + 2);
}

#[test]
fn status_and_stock_level_read_the_loaded_district() {
    let mut w = district_workload(3);
    // No stock row yet: the first scanned line's item has none.
    let any = StockLevelInput { w_id: 0, d_id: 3, stock_threshold: 15 };
    assert_eq!(w.stock_level(&any), Err(TransactionError::IndexNotFound));
    let guard = w.stock.pin();
    for i_id in 0..ITEM_SCALE as u64 {
        let (rid, lock) = w.stock.insert(stock_row(i_id), &guard);
        w.stock.write_unlock(rid, lock);
    }
    let found = OrderStatusInput { w_id: 0, d_id: 3, c_query: CustomerQuery::Id(5) };
    assert_eq!(w.order_status(&found), Ok(()));
    let missing = OrderStatusInput { w_id: 0, d_id: 3, c_query: CustomerQuery::Id(4_000) };
    assert_eq!(w.order_status(&missing), Err(TransactionError::IndexNotFound));
    // Every stock holds from 10 to 100 of its item.
    let none = StockLevelInput { w_id: 0, d_id: 3, stock_threshold: 10 };
    assert_eq!(w.stock_level(&none), Ok(0));
    let all = StockLevelInput { w_id: 0, d_id: 3, stock_threshold: 101 };
    let n = w.stock_level(&all).unwrap();
    assert!((100..=128).contains(&n));
}

#[test]
fn order_reset_brings_the_new_orders_back() {
    let mut w = district_workload(0);
    let input = DeliveryInput { w_id: 0, o_carrier_id: 1 };
    if let Ok(DeliveryStep::Delivered(order)) = w.delivery_district(&input, 0, 5) {
        let balance = order.c_balance;
        w.finish_delivery_district(order, balance);
    } else {
        panic!("the district had no new order to deliver");
    }
    let full = CUSTOMER_SCALE - FIRST_NEW_ORDER as usize;
    assert_eq!(new_order_count(&w, 0), full - 1);
    // A reset empties the order tables, then loads each district's orders anew; here the
    // district's reload is done step by step, as the reset does it for every district.
    w.order.reset();
    w.order_line.reset();
    w.new_order = RawArt::new();
    assert_eq!(new_order_count(&w, 0), 0);
    assert_eq!(w.order.record_cnt(), 0);
    let amounts = vec![bits(1.5); NEW_ORDER_AMOUNTS];
    w.load_order(0, 0, 7, &amounts);
    assert_eq!(new_order_count(&w, 0), full);
    assert_eq!(w.order.record_cnt(), CUSTOMER_SCALE);
}

#[test]
fn order_reset_empties_the_order_tables() {
    let mut w = district_workload(0);
    assert_eq!(new_order_count(&w, 0), CUSTOMER_SCALE - FIRST_NEW_ORDER as usize);
    // With no warehouse to reload, the reset leaves the order tables empty.
    w.warehouse_cnt = 0;
    w.reset_order(7, &[]);
    assert_eq!(new_order_count(&w, 0), 0);
    assert_eq!(w.order.record_cnt(), 0);
    assert_eq!(w.order_line.record_cnt(), 0);
}

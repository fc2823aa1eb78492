use alchemy::attribute_cache::{Schema, Tuple};
use alchemy::benchmark::tpcc::config::{TxnEngine, Workload, WorkloadMix};
use alchemy::benchmark::tpcc::query::{
    CustomerQuery, DeliveryInput, NewOrderInput, OrderStatusInput, StockLevelInput,
    UNUSED_ITEM_ID,
};
use alchemy::benchmark::tpcc::schemas::{
    CustomerCachedRead, CustomerCachedWrite, DistrictCached, GeneralSchema, ItemCached,
    OrderCached, OrderLineCached, StockCached, WarehouseCached,
};
use alchemy::benchmark::tpcc::tables::{
    CustomerTuple, DistrictTuple, ItemTuple, NewOrderTuple, OrderLineTuple, OrderTuple,
    StockTuple, WarehouseTuple,
};
use alchemy::benchmark::tpcc::txn_result::{TpccResults, TransactionResult};
use alchemy::benchmark::utils::{FixedString, NuRandConstants};
use alchemy::metric::TlsRecorder;
use alchemy::query::{Field, FieldsMeta, UpdateQuery};

#[test]
fn order_key_layout() {
    assert_eq!(OrderTuple::make_key(1, 2, 3, 4), (1 << 48) + (2 << 32) + (3 << 16) + 4);
    assert_eq!(OrderTuple::make_key(0, 0, 0, 0), 0);
}

#[test]
fn stock_key_layout() {
    assert_eq!(StockTuple::make_key(2, 77), (2 << 32) + 77);
}

#[test]
fn new_order_key_round_trip() {
    let key = NewOrderTuple::make_key(5, 9, 3001, 2999);
    assert_eq!(key, (5 << 48) + (9 << 32) + (3001 << 16) + 2999);
    assert_eq!(NewOrderTuple::o_c_id_from_key(key), (3001, 2999));
    assert_eq!(NewOrderTuple::o_c_id_from_key(0xffff_ffff), (0xffff, 0xffff));
}

fn order() -> OrderTuple {
    OrderTuple {
        o_id: 11,
        o_c_id: 12,
        o_entry_d: 13,
        o_carrier_id: 14,
        o_d_id: 15,
        o_w_id: 16,
        o_ol_cnt: 17,
        o_all_local: 1,
    }
}

fn words(vals: &[u64]) -> Vec<u8> {
    vals.iter().flat_map(|v| v.to_le_bytes()).collect()
}

#[test]
fn order_update_writes_words() {
    let mut o = order();
    let data = words(&[100, 200]);
    let q = UpdateQuery::new([Field::new(8, 16), Field::new(48, 56)], &data);
    o.update(q);
    assert_eq!(o.o_c_id, 100);
    assert_eq!(o.o_ol_cnt, 200);
    assert_eq!(o.o_id, 11);
    assert_eq!(o.o_w_id, 16);
}

#[test]
fn order_query_values_are_offsets() {
    let o = order();
    let meta = FieldsMeta::new([Field::new(8, 16), Field::new(40, 48)]);
    let v = o.to_query_values(&meta);
    assert_eq!(v.get(0), 8);
    assert_eq!(v.get(1), 40);
}

#[test]
fn order_cached_schema_round_trip() {
    let schema = GeneralSchema::<OrderCached>::new();
    let o = order();
    let cached = schema.to_cached(&o);
    assert_eq!(cached, OrderCached { o_id: 11, o_c_id: 12, o_entry_d: 13, o_carrier_id: 14 });
    let mut other = OrderTuple { o_id: 0, o_c_id: 0, o_entry_d: 0, o_carrier_id: 0, ..o };
    schema.write_back(&cached, &mut other);
    assert_eq!(other, o);
    assert_eq!(schema.key(&o), OrderTuple::make_key(16, 15, 12, 11));
    assert_eq!(schema.to_cached_field(&Field::new(8, 16)), Some(Field::new(8, 16)));
    assert_eq!(schema.to_cached_field(&Field::new(32, 40)), None);
    let meta = FieldsMeta::new([Field::new(0, 8), Field::new(24, 32)]);
    assert!(schema.matches(&meta));
    let meta = FieldsMeta::new([Field::new(0, 8), Field::new(40, 48)]);
    assert!(!schema.matches(&meta));
}

#[test]
fn order_cached_update_skips_uncached_fields() {
    let schema = GeneralSchema::<OrderCached>::new();
    let mut cached = schema.to_cached(&order());
    let data = words(&[7, 8, 9]);
    let q = UpdateQuery::new([Field::new(0, 8), Field::new(40, 48), Field::new(24, 32)], &data);
    schema.update_cached(&mut cached, q);
    assert_eq!(cached, OrderCached { o_id: 7, o_c_id: 12, o_entry_d: 13, o_carrier_id: 9 });
}

#[test]
fn order_tuple_schema_caches_everything() {
    let schema = GeneralSchema::<OrderTuple>::new();
    let o = order();
    assert_eq!(schema.to_cached(&o), o);
    assert_eq!(schema.to_cached_field(&Field::new(56, 64)), Some(Field::new(56, 64)));
    let mut c = o;
    let data = words(&[99]);
    schema.update_cached(&mut c, UpdateQuery::new([Field::new(56, 64)], &data));
    assert_eq!(c.o_all_local, 99);
}

#[test]
fn workload_mix_pick() {
    let mix = WorkloadMix { new_order: 45, payment: 43, order_status: 4, delivery: 4, stock_level: 4 };
    assert_eq!(mix.pick(0), Workload::NewOrder);
    assert_eq!(mix.pick(44), Workload::NewOrder);
    assert_eq!(mix.pick(45), Workload::Payment);
    assert_eq!(mix.pick(88), Workload::OrderStatus);
    assert_eq!(mix.pick(92), Workload::Delivery);
    assert_eq!(mix.pick(99), Workload::StockLevel);
    assert_eq!(mix.shares(), [45, 43, 4, 4, 4]);
    let mut rng = rand::thread_rng();
    for _ in 0..100 {
        let _ = mix.gen(&mut rng);
    }
    assert_eq!(TxnEngine::Sync.name(), "sync");
    assert_eq!(TxnEngine::Async.name(), "async");
}

#[test]
fn inputs_stay_in_their_ranges() {
    let consts = NuRandConstants::new();
    for task in 0..4 {
        for _ in 0..50 {
            let d = DeliveryInput::gen(8, task, 4);
            assert!(d.w_id as usize >= task * 2 && (d.w_id as usize) < task * 2 + 2);
            assert!((1..=10).contains(&d.o_carrier_id));
            let s = StockLevelInput::gen(8, task, 4);
            assert!(s.d_id < 10);
            assert!((10..=20).contains(&s.stock_threshold));
            let o = OrderStatusInput::gen(8, task, 4, &consts);
            match o.c_query {
                CustomerQuery::LastName(n) => assert!(n <= 999),
                CustomerQuery::Id(c) => assert!(c < 3000),
            }
            let n = NewOrderInput::gen(8, task, 4, &consts, 1234);
            assert!((5..=15).contains(&n.ol_cnt));
            assert_eq!(n.o_entry_d, 1234);
            assert!(n.c_id < 3000);
            for (i, line) in n.orders.iter().enumerate() {
                if i < n.ol_cnt as usize {
                    assert!((1..=10).contains(&line.ol_quantity));
                    assert!((line.ol_supply_w_id as usize) < 8);
                    if n.all_local {
                        assert_eq!(line.ol_supply_w_id as u32, n.w_id);
                    }
                    if i + 1 < n.ol_cnt as usize {
                        assert_eq!(line.ol_i_id, n.orders[0].ol_i_id + i as u32);
                    } else {
                        assert!(line.ol_i_id == UNUSED_ITEM_ID || line.ol_i_id == n.orders[0].ol_i_id + i as u32);
                    }
                } else {
                    assert_eq!(line.ol_i_id, 0);
                    assert_eq!(line.ol_quantity, 0);
                }
            }
        }
    }
}

#[test]
fn last_task_gets_the_rest_cut_at_the_count() {
    // 10 warehouses among 3 tasks: 3 each; the last task draws from 6, 7 and 8
    for _ in 0..50 {
        let d = DeliveryInput::gen(10, 2, 3);
        assert!((6..9).contains(&d.w_id));
    }
}

#[test]
fn tpcc_results_sum_commits() {
    let mut r = TpccResults::new();
    r.payment.inc_commit();
    r.new_order.inc_commit();
    r.new_order.inc_commit();
    r.delivery.inc_abort();
    assert_eq!(r.short_value(), 3);
    let mut a = TransactionResult::new(1, 2);
    a.add_assign(&TransactionResult::new(3, 4));
    assert_eq!(a, TransactionResult::new(4, 6));
    assert_eq!(a.get_commit(), 4);
    r.set_metric(TlsRecorder::new());
    assert!(r.metrics.is_some());
}

fn fixed(s: &str) -> FixedString<24> {
    let mut padded = String::from(s);
    while padded.len() < 24 {
        padded.push('.');
    }
    FixedString::from_str(&padded).unwrap()
}

fn stock() -> StockTuple {
    StockTuple {
        s_i_id: 7,
        s_w_id: 2,
        s_quantity: 50,
        s_ytd: 1,
        s_order_cnt: 3,
        s_remote_cnt: 4,
        s_data: fixed("data"),
        s_dist01: fixed("d1"),
        s_dist02: fixed("d2"),
        s_dist03: fixed("d3"),
        s_dist04: fixed("d4"),
        s_dist05: fixed("d5"),
        s_dist06: fixed("d6"),
        s_dist07: fixed("d7"),
        s_dist08: fixed("d8"),
        s_dist09: fixed("d9"),
        s_dist10: fixed("d10"),
    }
}

#[test]
fn stock_bytes_round_trip() {
    let s = stock();
    let b = s.to_bytes();
    assert_eq!(b.len(), 312);
    assert_eq!(&b[0..8], &7u64.to_le_bytes());
    assert_eq!(&b[288..291], b"d10");
    assert_eq!(StockTuple::from_bytes(&b), s);
}

#[test]
fn stock_update_writes_bytes() {
    let mut s = stock();
    let mut data = 99u64.to_le_bytes().to_vec();
    data.extend_from_slice(b"xy");
    // the quantity, then two bytes at the start of the data string
    let q = UpdateQuery::new([Field::new(16, 24), Field::new(48, 50)], &data);
    s.update(q);
    assert_eq!(s.s_quantity, 99);
    assert!(s.s_data.eq_str("xyta...................."));
    assert_eq!(s.s_i_id, 7);
}

#[test]
fn stock_cached_schema() {
    let schema = GeneralSchema::<StockCached>::new();
    let s = stock();
    let c = schema.to_cached(&s);
    assert_eq!(c.s_quantity, 50);
    assert_eq!(c.s_dist10, fixed("d10"));
    assert_eq!(schema.key(&s), StockTuple::make_key(2, 7));
    assert_eq!(schema.to_cached_field(&Field::new(288, 312)), Some(Field::new(72, 96)));
    assert_eq!(schema.to_cached_field(&Field::new(72, 96)), None);
    assert_eq!(schema.to_cached_field(&Field::new(16, 24)), Some(Field::new(16, 24)));
    let mut c2 = c;
    c2.s_quantity = 10;
    c2.s_i_id = 1000;
    c2.s_dist10 = fixed("other");
    let mut t = s;
    schema.write_back(&c2, &mut t);
    // only the quantity, the counts and the data go back
    assert_eq!(t.s_quantity, 10);
    assert_eq!(t.s_i_id, 7);
    assert_eq!(t.s_dist10, fixed("d10"));
    let mut data = b"NEW-D10-INFORMATION-HERE".to_vec();
    data.extend_from_slice(&5u64.to_le_bytes());
    data.extend_from_slice(b"zzzzzzzzzzzzzzzzzzzzzzzz");
    let q = UpdateQuery::new([Field::new(288, 312), Field::new(24, 32), Field::new(96, 120)], &data);
    let mut c3 = c;
    schema.update_cached(&mut c3, q);
    assert_eq!(c3.s_dist10, fixed("NEW-D10-INFORMATION-HERE"));
    assert_eq!(c3.s_ytd, 5);
    assert_eq!(c3.s_data, c.s_data);
}

#[test]
fn stock_tuple_schema_caches_everything() {
    let schema = GeneralSchema::<StockTuple>::new();
    let s = stock();
    assert_eq!(schema.to_cached(&s), s);
    assert_eq!(schema.to_cached_field(&Field::new(96, 120)), Some(Field::new(96, 120)));
}

fn fs<const N: usize>(s: &str) -> FixedString<N> {
    let mut padded = String::from(s);
    while padded.len() < N {
        padded.push('.');
    }
    FixedString::from_str(&padded).unwrap()
}

fn item() -> ItemTuple {
    ItemTuple {
        i_id: 42,
        i_im_id: 7,
        i_price: 2.5f64.to_bits(),
        i_name: fs("widget"),
        i_data: FixedString::new(),
    }
}

#[test]
fn item_cached_schema_moves_fields_to_the_front() {
    let schema = GeneralSchema::<ItemCached>::new();
    let it = item();
    let c = schema.to_cached(&it);
    assert_eq!(c.i_price, 2.5f64.to_bits());
    assert_eq!(c.i_name, fs("widget"));
    assert_eq!(schema.key(&it), 42);
    // the price lies at byte 16 of the row and at byte 0 of the cached part
    assert_eq!(schema.to_cached_field(&Field::new(16, 24)), Some(Field::new(0, 8)));
    assert_eq!(schema.to_cached_field(&Field::new(48, 98)), Some(Field::new(32, 82)));
    assert_eq!(schema.to_cached_field(&Field::new(8, 16)), None);
    assert!(schema.matches(&FieldsMeta::new([Field::new(16, 24), Field::new(24, 48)])));
    assert!(!schema.matches(&FieldsMeta::new([Field::new(0, 8)])));
    let mut t = ItemTuple { i_price: 0, i_name: FixedString::new(), i_id: 1, ..it };
    schema.write_back(&c, &mut t);
    assert_eq!(t, ItemTuple { i_id: 1, ..it });
    let data = words(&[9, 3]);
    let mut c2 = c;
    schema.update_cached(&mut c2, UpdateQuery::new([Field::new(0, 8), Field::new(16, 24)], &data));
    assert_eq!(c2.i_price, 3);
    assert_eq!(c2.i_name, c.i_name);
}

fn customer() -> CustomerTuple {
    CustomerTuple {
        c_id: 5,
        c_first: fs("ann"),
        c_middle: fs("OE"),
        c_last: fs("BARBARBAR"),
        c_street1: FixedString::new(),
        c_street2: FixedString::new(),
        c_city: FixedString::new(),
        c_state: FixedString::new(),
        c_zip: 123,
        c_phone: FixedString::new(),
        c_since: 9,
        c_credit: fs("GC"),
        c_credit_lim: 50_000f64.to_bits(),
        c_discount: 0.1f64.to_bits(),
        c_balance: (-10f64).to_bits(),
        c_ytd_payment: 10f64.to_bits(),
        c_payment_cnt: 1,
        c_delivery_cnt: 2,
        c_w_id: 3,
        c_d_id: 4,
        c_data: fs("data"),
    }
}

#[test]
fn customer_cached_read_schema_holds_the_fields_before_the_warehouse() {
    let schema = GeneralSchema::<CustomerCachedRead>::new();
    let cu = customer();
    let c = schema.to_cached(&cu);
    assert_eq!(c.c_last, fs("BARBARBAR"));
    assert_eq!(c.c_delivery_cnt, 2);
    assert_eq!(schema.key(&cu), CustomerTuple::make_key(3, 4, 5));
    assert_eq!(schema.to_cached_field(&Field::new(158, 166)), Some(Field::new(158, 166)));
    assert_eq!(schema.to_cached_field(&Field::new(182, 190)), None);
    assert_eq!(schema.to_cached_field(&Field::new(198, 698)), None);
    let mut t = CustomerTuple { c_id: 0, c_balance: 0, c_first: FixedString::new(), ..cu };
    schema.write_back(&c, &mut t);
    assert_eq!(t, cu);
    let data = words(&[77, 1]);
    let mut c2 = c;
    schema.update_cached(&mut c2, UpdateQuery::new([Field::new(158, 166), Field::new(182, 190)], &data));
    assert_eq!(c2.c_balance, 77);
    assert_eq!(c2.c_id, 5);
}

#[test]
fn customer_cached_write_schema_holds_the_payment_fields() {
    let schema = GeneralSchema::<CustomerCachedWrite>::new();
    let cu = customer();
    let c = schema.to_cached(&cu);
    assert_eq!(c, CustomerCachedWrite { c_balance: cu.c_balance, c_ytd_payment: cu.c_ytd_payment, c_payment_cnt: 1 });
    assert_eq!(schema.to_cached_field(&Field::new(166, 174)), Some(Field::new(8, 16)));
    assert_eq!(schema.to_cached_field(&Field::new(174, 178)), Some(Field::new(16, 20)));
    assert_eq!(schema.to_cached_field(&Field::new(158, 174)), None);
    assert_eq!(schema.to_cached_field(&Field::new(0, 8)), None);
    let mut t = CustomerTuple { c_balance: 0, c_ytd_payment: 0, c_payment_cnt: 0, ..cu };
    schema.write_back(&c, &mut t);
    assert_eq!(t, cu);
    let mut data = 5u32.to_le_bytes().to_vec();
    data.extend_from_slice(&8u64.to_le_bytes());
    let mut c2 = c;
    schema.update_cached(&mut c2, UpdateQuery::new([Field::new(174, 178), Field::new(158, 166)], &data));
    assert_eq!(c2, CustomerCachedWrite { c_balance: 8, c_ytd_payment: cu.c_ytd_payment, c_payment_cnt: 5 });
}

#[test]
fn ytd_cached_schemas_hold_the_balance() {
    let w = WarehouseTuple {
        w_id: 2,
        w_name: fs("w"),
        w_street1: FixedString::new(),
        w_street2: FixedString::new(),
        w_city: FixedString::new(),
        w_state: FixedString::new(),
        w_zip: 1,
        w_tax: 2,
        w_ytd: 300,
    };
    let ws = GeneralSchema::<WarehouseCached>::new();
    assert_eq!(ws.to_cached(&w), WarehouseCached { ytd: 300 });
    assert_eq!(ws.to_cached_field(&Field::new(96, 104)), Some(Field::new(0, 8)));
    assert_eq!(ws.to_cached_field(&Field::new(88, 96)), None);
    assert_eq!(ws.key(&w), 2);
    let mut w2 = w;
    ws.write_back(&WarehouseCached { ytd: 400 }, &mut w2);
    assert_eq!(w2, WarehouseTuple { w_ytd: 400, ..w });
    let d = DistrictTuple {
        d_id: 1,
        d_w_id: 2,
        d_name: fs("d"),
        d_street1: FixedString::new(),
        d_street2: FixedString::new(),
        d_city: FixedString::new(),
        d_state: FixedString::new(),
        d_zip: 1,
        d_tax: 2,
        d_ytd: 30,
        d_next_o_id: 3001,
    };
    let ds = GeneralSchema::<DistrictCached>::new();
    assert_eq!(ds.to_cached(&d), DistrictCached { ytd: 30 });
    assert_eq!(ds.to_cached_field(&Field::new(104, 112)), Some(Field::new(0, 8)));
    assert_eq!(ds.to_cached_field(&Field::new(112, 120)), None);
    let mut d2 = d;
    ds.write_back(&DistrictCached { ytd: 31 }, &mut d2);
    assert_eq!(d2, DistrictTuple { d_ytd: 31, ..d });
    let data = words(&[44]);
    let mut c = DistrictCached { ytd: 30 };
    ds.update_cached(&mut c, UpdateQuery::new([Field::new(104, 112)], &data));
    assert_eq!(c, DistrictCached { ytd: 44 });
}

#[test]
fn order_line_cached_schema_holds_the_fields_before_the_number() {
    let ol = OrderLineTuple {
        ol_o_id: 1,
        ol_d_id: 2,
        ol_i_id: 3,
        ol_supply_w_id: 4,
        ol_quantity: 5,
        ol_delivery_d: 6,
        ol_amount: 7,
        ol_number: 8,
        ol_w_id: 9,
        ol_dist_info: fs("info"),
    };
    let schema = GeneralSchema::<OrderLineCached>::new();
    let c = schema.to_cached(&ol);
    assert_eq!(c.ol_amount, 7);
    assert_eq!(schema.to_cached_field(&Field::new(40, 48)), Some(Field::new(40, 48)));
    assert_eq!(schema.to_cached_field(&Field::new(56, 64)), None);
    assert_eq!(schema.key(&ol), OrderLineTuple::make_key(9, 2, 1, 3));
    let mut t = OrderLineTuple { ol_o_id: 0, ol_amount: 0, ..ol };
    schema.write_back(&c, &mut t);
    assert_eq!(t, ol);
}

#[test]
fn new_order_keys_order_a_district_by_order_id() {
    let low = NewOrderTuple::make_key(3, 4, 0, 0);
    let high = NewOrderTuple::make_key(3, 4, 0xffff, 0xffff);
    let older = NewOrderTuple::make_key(3, 4, 2101, 2999);
    let newer = NewOrderTuple::make_key(3, 4, 2102, 1);
    assert!(low <= older && older < newer && newer <= high);
    assert!(high < NewOrderTuple::make_key(3, 5, 0, 0));
}

#[test]
fn stock_keys_tell_rows_apart() {
    assert_ne!(StockTuple::make_key(1, 2), StockTuple::make_key(2, 1));
    assert_ne!(StockTuple::make_key(0, 0x1_0000), StockTuple::make_key(1, 0));
    assert_eq!(StockTuple::make_key(7, 9), StockTuple::make_key(7, 9));
}

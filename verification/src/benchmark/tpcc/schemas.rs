use vstd::prelude::*;

use super::tables::{
    customer_key, district_key, lemma_word_at, order_line_key, CustomerTuple, DistrictTuple,
    ItemTuple, OrderLineTuple, WarehouseTuple, apply_update, bytes_update_ok, copy_into, le_word, lemma_updated_words_below_len,
    order_key, overwrite, stock_key, updated_bytes, updated_words_below, word64_at, OrderTuple,
    StockTuple, STOCK_ROW_LEN, ITEM_ROW_LEN, CUSTOMER_ROW_LEN, push_bytes, push_word, push_word32, read_word, read_word32, le_word32,
};
use crate::attribute_cache::{Schema, Tuple};
use crate::benchmark::utils::FixedString;
use crate::query::{all_wf, lemma_prefix_size_monotone, prefix_size, Field, UpdateQuery};
use std::marker::PhantomData;

verus! {

/// The schema of a TPCC table whose cache holds the part `T` of each row.
pub struct GeneralSchema<T> {
    cached: PhantomData<T>,
}

impl<T> GeneralSchema<T> {
    pub fn new() -> (r: Self) {
        Self { cached: PhantomData }
    }
}

/// The part of an order row that the cache holds: its first four words.
#[derive(Debug, Clone, Copy, PartialEq, Eq, Structural)]
pub struct OrderCached {
    pub o_id: u64,
    pub o_c_id: u64,
    pub o_entry_d: u64,
    pub o_carrier_id: u64,
}

impl View for OrderCached {
    type V = Seq<u64>;

    open spec fn view(&self) -> Seq<u64> {
        seq![self.o_id, self.o_c_id, self.o_entry_d, self.o_carrier_id]
    }
}

impl OrderCached {
    /// Write the word at `idx` of the layout.
    fn set_word(&mut self, idx: usize, w: u64)
        requires
            idx < 4,
        ensures
            final(self)@ == old(self)@.update(idx as int, w),
    {
        match idx {
            0 => self.o_id = w,
            1 => self.o_c_id = w,
            2 => self.o_entry_d = w,
            _ => self.o_carrier_id = w,
        }
        assert(self@ =~= old(self)@.update(idx as int, w));
    }
}

/// The byte where the part of an order row that is not cached begins (`o_d_id`).
pub const ORDER_CACHED_END: u16 = 32;

/// The key of an order row from its words.
pub open spec fn order_row_key(t: Seq<u64>) -> int {
    order_key(t[5], t[4], t[1], t[0])
}

impl Schema for GeneralSchema<OrderCached> {
    type Field = OrderCached;

    type Tuple = OrderTuple;

    open spec fn wf(&self) -> bool {
        true
    }

    open spec fn spec_to_cached(&self, tuple: Seq<u64>) -> Seq<u64> {
        tuple.subrange(0, 4)
    }

    open spec fn spec_write_back(&self, field: Seq<u64>, tuple: Seq<u64>) -> Seq<u64> {
        field + tuple.subrange(4, 8)
    }

    open spec fn spec_key(&self, tuple: Seq<u64>) -> usize {
        order_row_key(tuple) as usize
    }

    open spec fn key_ok(&self, tuple: Seq<u64>) -> bool {
        order_row_key(tuple) <= u64::MAX
    }

    open spec fn spec_to_cached_field(&self, tuple_field: Field) -> Option<Field> {
        if tuple_field.spec_begin() >= ORDER_CACHED_END {
            None
        } else {
            Some(tuple_field)
        }
    }

    /// Every cached field among the updated ones is one aligned word, and the data holds it.
    open spec fn update_cached_ok(&self, fields: Seq<Field>, data_len: nat) -> bool {
        &&& all_wf(fields)
        &&& prefix_size(fields, fields.len() as int) <= usize::MAX
        &&& forall|i: int|
            0 <= i < fields.len() && (#[trigger] fields[i]).spec_begin() < ORDER_CACHED_END
                ==> fields[i].spec_begin() % 8 == 0 && fields[i].spec_size() == 8 && prefix_size(
                fields,
                i,
            ) + 8 <= data_len
    }

    open spec fn spec_update_cached(&self, field: Seq<u64>, fields: Seq<Field>, data: Seq<u8>) -> Seq<u64> {
        updated_words_below(field, fields, data, fields.len() as int, ORDER_CACHED_END as int)
    }

    proof fn lemma_write_back_to_cached(&self, tuple: OrderTuple) {
        assert(tuple@.subrange(0, 4) + tuple@.subrange(4, 8) =~= tuple@);
    }

    fn to_cached(&self, tuple: &OrderTuple) -> (r: OrderCached) {
        let r = OrderCached {
            o_id: tuple.o_id,
            o_c_id: tuple.o_c_id,
            o_entry_d: tuple.o_entry_d,
            o_carrier_id: tuple.o_carrier_id,
        };
        assert(r@ =~= tuple@.subrange(0, 4));
        r
    }

    fn write_back(&self, field: &OrderCached, tuple: &mut OrderTuple) {
        tuple.o_id = field.o_id;
        tuple.o_c_id = field.o_c_id;
        tuple.o_entry_d = field.o_entry_d;
        tuple.o_carrier_id = field.o_carrier_id;
        assert(tuple@ =~= field@ + old(tuple)@.subrange(4, 8));
    }

    fn update_cached<const N: usize>(&self, field: &mut OrderCached, query: UpdateQuery<'_, N>) {
        let ghost fields = query.spec_meta().fields@;
        let ghost bytes = query.spec_data();
        let mut it = query.iter();
        let mut k: usize = 0;
        while k < N
            invariant
                0 <= k <= N,
                it.wf(),
                it.spec_query() == query,
                it.spec_cur_idx() == k,
                fields == query.spec_meta().fields@,
                bytes == query.spec_data(),
                self.update_cached_ok(fields, bytes.len()),
                field@ == updated_words_below(
                    old(field)@,
                    fields,
                    bytes,
                    k as int,
                    ORDER_CACHED_END as int,
                ),
            decreases N - k,
        {
            let next = it.next();
            match next {
                Some((f, off)) => {
                    if f.begin() < ORDER_CACHED_END {
                        proof {
                            assert(fields[k as int].spec_begin() < ORDER_CACHED_END);
                        }
                        let word_bytes = &query.data()[off..off + 8];
                        let w = vstd::bytes::u64_from_le_bytes(word_bytes);
                        field.set_word((f.begin() / 8) as usize, w);
                        proof {
                            assert(word_bytes@ == bytes.subrange(off as int, off + 8));
                        }
                    }
                },
                None => {
                    proof {
                        assert(false);
                    }
                },
            }
            k += 1;
        }
    }

    fn key(&self, tuple: &OrderTuple) -> (r: usize) {
        OrderTuple::make_key(tuple.o_w_id, tuple.o_d_id, tuple.o_c_id, tuple.o_id)
    }

    fn to_cached_field(&self, tuple_field: &Field) -> (r: Option<Field>) {
        if tuple_field.begin() >= ORDER_CACHED_END {
            None
        } else {
            Some(*tuple_field)
        }
    }
}

impl Schema for GeneralSchema<OrderTuple> {
    type Field = OrderTuple;

    type Tuple = OrderTuple;

    open spec fn wf(&self) -> bool {
        true
    }

    open spec fn spec_to_cached(&self, tuple: Seq<u64>) -> Seq<u64> {
        tuple
    }

    open spec fn spec_write_back(&self, field: Seq<u64>, tuple: Seq<u64>) -> Seq<u64> {
        field
    }

    open spec fn spec_key(&self, tuple: Seq<u64>) -> usize {
        order_row_key(tuple) as usize
    }

    open spec fn key_ok(&self, tuple: Seq<u64>) -> bool {
        order_row_key(tuple) <= u64::MAX
    }

    open spec fn spec_to_cached_field(&self, tuple_field: Field) -> Option<Field> {
        Some(tuple_field)
    }

    open spec fn update_cached_ok(&self, fields: Seq<Field>, data_len: nat) -> bool {
        OrderTuple::update_ok(fields, data_len)
    }

    open spec fn spec_update_cached(&self, field: Seq<u64>, fields: Seq<Field>, data: Seq<u8>) -> Seq<u64> {
        OrderTuple::spec_update(field, fields, data)
    }

    proof fn lemma_write_back_to_cached(&self, tuple: OrderTuple) {
    }

    fn to_cached(&self, tuple: &OrderTuple) -> (r: OrderTuple) {
        *tuple
    }

    fn write_back(&self, field: &OrderTuple, tuple: &mut OrderTuple) {
        *tuple = *field;
    }

    fn update_cached<const N: usize>(&self, field: &mut OrderTuple, query: UpdateQuery<'_, N>) {
        field.update(query);
    }

    fn key(&self, tuple: &OrderTuple) -> (r: usize) {
        OrderTuple::make_key(tuple.o_w_id, tuple.o_d_id, tuple.o_c_id, tuple.o_id)
    }

    fn to_cached_field(&self, tuple_field: &Field) -> (r: Option<Field>) {
        Some(*tuple_field)
    }
}

/// The part of a stock row that the cache holds: its counters, its data and the district
/// information of the tenth district.
#[derive(Debug, Clone, Copy, PartialEq, Eq)]
pub struct StockCached {
    pub s_i_id: u64,
    pub s_w_id: u64,
    pub s_quantity: u64,
    pub s_ytd: u64,
    pub s_order_cnt: u64,
    pub s_remote_cnt: u64,
    pub s_data: FixedString<24>,
    pub s_dist10: FixedString<24>,
}

/// The number of bytes of the cached part of a stock row.
pub const STOCK_CACHED_LEN: usize = 96;

/// The byte where the district informations of a stock row begin (`s_dist01`).
pub const STOCK_DIST01: u16 = 72;

/// The district information of the tenth district in a stock row, and in its cached part.
pub const STOCK_DIST10: u16 = 288;

pub const STOCK_DIST10_END: u16 = 312;

pub const STOCK_CACHED_DIST10: u16 = 72;

pub const STOCK_CACHED_DIST10_END: u16 = 96;

impl View for StockCached {
    type V = Seq<u8>;

    /// The bytes in layout order: the six counters as little-endian words, the data, the
    /// tenth district information.
    open spec fn view(&self) -> Seq<u8> {
        le_word(self.s_i_id) + le_word(self.s_w_id) + le_word(self.s_quantity) + le_word(
            self.s_ytd,
        ) + le_word(self.s_order_cnt) + le_word(self.s_remote_cnt) + self.s_data@ + self.s_dist10@
    }
}

impl StockCached {
    pub proof fn lemma_len(&self)
        ensures
            self@.len() == STOCK_CACHED_LEN,
    {
        vstd::bytes::lemma_auto_spec_u64_to_from_le_bytes();
        self.s_data.lemma_len();
        self.s_dist10.lemma_len();
    }

    fn to_bytes(&self) -> (r: Vec<u8>)
        ensures
            r@ == self@,
    {
        let t = StockTuple {
            s_i_id: self.s_i_id,
            s_w_id: self.s_w_id,
            s_quantity: self.s_quantity,
            s_ytd: self.s_ytd,
            s_order_cnt: self.s_order_cnt,
            s_remote_cnt: self.s_remote_cnt,
            s_data: self.s_data,
            s_dist01: self.s_dist10,
            s_dist02: self.s_dist10,
            s_dist03: self.s_dist10,
            s_dist04: self.s_dist10,
            s_dist05: self.s_dist10,
            s_dist06: self.s_dist10,
            s_dist07: self.s_dist10,
            s_dist08: self.s_dist10,
            s_dist09: self.s_dist10,
            s_dist10: self.s_dist10,
        };
        proof {
            t.lemma_len();
            self.s_data.lemma_len();
            self.s_dist10.lemma_len();
            vstd::bytes::lemma_auto_spec_u64_to_from_le_bytes();
        }
        let mut bytes = t.to_bytes();
        bytes.truncate(STOCK_CACHED_DIST10 as usize);
        let tail = self.s_dist10.as_bytes();
        let mut i: usize = 0;
        while i < tail.len()
            invariant
                0 <= i <= tail@.len(),
                tail@ == self.s_dist10@,
                tail@.len() == 24,
                bytes@ == t@.subrange(0, STOCK_CACHED_DIST10 as int) + tail@.subrange(0, i as int),
            decreases tail@.len() - i,
        {
            bytes.push(tail[i]);
            i += 1;
            assert(tail@.subrange(0, i as int) =~= tail@.subrange(0, i - 1).push(tail@[i - 1]));
        }
        assert(bytes@ =~= self@);
        bytes
    }

    fn from_bytes(b: &[u8]) -> (r: Self)
        requires
            b@.len() == STOCK_CACHED_LEN,
        ensures
            r@ == b@,
    {
        let mut full: Vec<u8> = Vec::new();
        let mut i: usize = 0;
        while i < STOCK_ROW_LEN
            invariant
                0 <= i <= STOCK_ROW_LEN,
                b@.len() == STOCK_CACHED_LEN,
                full@.len() == i,
                forall|j: int| 0 <= j < i ==> #[trigger] full@[j] == if j < STOCK_CACHED_LEN {
                    b@[j]
                } else {
                    0u8
                },
            decreases STOCK_ROW_LEN - i,
        {
            if i < STOCK_CACHED_LEN {
                full.push(b[i]);
            } else {
                full.push(0u8);
            }
            i += 1;
        }
        let t = StockTuple::from_bytes(full.as_slice());
        proof {
            t.lemma_len();
            vstd::bytes::lemma_auto_spec_u64_to_from_le_bytes();
            t.s_data.lemma_len();
            t.s_dist01.lemma_len();
        }
        let r = StockCached {
            s_i_id: t.s_i_id,
            s_w_id: t.s_w_id,
            s_quantity: t.s_quantity,
            s_ytd: t.s_ytd,
            s_order_cnt: t.s_order_cnt,
            s_remote_cnt: t.s_remote_cnt,
            s_data: t.s_data,
            s_dist10: t.s_dist01,
        };
        proof {
            assert(t@.subrange(0, 96) =~= r@);
            assert(full@.subrange(0, 96) =~= b@);
        }
        r
    }
}

/// The key of a stock row from its bytes.
pub open spec fn stock_row_key(t: Seq<u8>) -> int {
    stock_key(
        vstd::bytes::spec_u64_from_le_bytes(t.subrange(8, 16)),
        vstd::bytes::spec_u64_from_le_bytes(t.subrange(0, 8)),
    )
}

pub proof fn lemma_stock_key_fields(t: StockTuple)
    ensures
        vstd::bytes::spec_u64_from_le_bytes(t@.subrange(8, 16)) == t.s_w_id,
        vstd::bytes::spec_u64_from_le_bytes(t@.subrange(0, 8)) == t.s_i_id,
{
    vstd::bytes::lemma_auto_spec_u64_to_from_le_bytes();
    t.lemma_len();
    assert(t@.subrange(8, 16) =~= le_word(t.s_w_id));
    assert(t@.subrange(0, 8) =~= le_word(t.s_i_id));
}

impl Schema for GeneralSchema<StockTuple> {
    type Field = StockTuple;

    type Tuple = StockTuple;

    open spec fn wf(&self) -> bool {
        true
    }

    open spec fn spec_to_cached(&self, tuple: Seq<u8>) -> Seq<u8> {
        tuple
    }

    open spec fn spec_write_back(&self, field: Seq<u8>, tuple: Seq<u8>) -> Seq<u8> {
        field
    }

    open spec fn spec_key(&self, tuple: Seq<u8>) -> usize {
        stock_row_key(tuple) as usize
    }

    open spec fn key_ok(&self, tuple: Seq<u8>) -> bool {
        stock_row_key(tuple) <= u64::MAX
    }

    open spec fn spec_to_cached_field(&self, tuple_field: Field) -> Option<Field> {
        Some(tuple_field)
    }

    open spec fn update_cached_ok(&self, fields: Seq<Field>, data_len: nat) -> bool {
        StockTuple::update_ok(fields, data_len)
    }

    open spec fn spec_update_cached(&self, field: Seq<u8>, fields: Seq<Field>, data: Seq<u8>) -> Seq<u8> {
        StockTuple::spec_update(field, fields, data)
    }

    proof fn lemma_write_back_to_cached(&self, tuple: StockTuple) {
    }

    fn to_cached(&self, tuple: &StockTuple) -> (r: StockTuple) {
        *tuple
    }

    fn write_back(&self, field: &StockTuple, tuple: &mut StockTuple) {
        *tuple = *field;
    }

    fn update_cached<const N: usize>(&self, field: &mut StockTuple, query: UpdateQuery<'_, N>) {
        field.update(query);
    }

    fn key(&self, tuple: &StockTuple) -> (r: usize) {
        proof {
            lemma_stock_key_fields(*tuple);
        }
        StockTuple::make_key(tuple.s_w_id, tuple.s_i_id)
    }

    fn to_cached_field(&self, tuple_field: &Field) -> (r: Option<Field>) {
        Some(*tuple_field)
    }
}

/// Where a field of a stock row lies in its cached part: the tenth district information
/// moves next to the data, the fields before the district informations stay where they
/// are, and the other district informations are not cached.
pub open spec fn stock_cached_field(f: Field) -> Option<Field> {
    if f == Field::spec_new(STOCK_DIST10, STOCK_DIST10_END) {
        Some(Field::spec_new(STOCK_CACHED_DIST10, STOCK_CACHED_DIST10_END))
    } else if f.spec_begin() >= STOCK_DIST01 {
        None
    } else {
        Some(f)
    }
}

/// The cached part of a stock row after writing, in order, those fields `0..n` of an
/// update that it caches, each at its place in the cached part.
pub open spec fn updated_cached_bytes(
    bytes: Seq<u8>,
    fields: Seq<Field>,
    data: Seq<u8>,
    n: int,
) -> Seq<u8>
    decreases n,
{
    if n <= 0 {
        bytes
    } else {
        let prev = updated_cached_bytes(bytes, fields, data, n - 1);
        match stock_cached_field(fields[n - 1]) {
            Some(c) => {
                let off = prefix_size(fields, n - 1);
                overwrite(prev, c.spec_begin() as int, data.subrange(off, off + c.spec_size()))
            },
            None => prev,
        }
    }
}

impl Schema for GeneralSchema<StockCached> {
    type Field = StockCached;

    type Tuple = StockTuple;

    open spec fn wf(&self) -> bool {
        true
    }

    open spec fn spec_to_cached(&self, tuple: Seq<u8>) -> Seq<u8> {
        tuple.subrange(0, STOCK_DIST01 as int) + tuple.subrange(
            STOCK_DIST10 as int,
            STOCK_ROW_LEN as int,
        )
    }

    /// The quantity, the year-to-date count, the order and remote counts and the data go
    /// back into the row.
    open spec fn spec_write_back(&self, field: Seq<u8>, tuple: Seq<u8>) -> Seq<u8> {
        tuple.subrange(0, 16) + field.subrange(16, STOCK_DIST01 as int) + tuple.subrange(
            STOCK_DIST01 as int,
            STOCK_ROW_LEN as int,
        )
    }

    open spec fn spec_key(&self, tuple: Seq<u8>) -> usize {
        stock_row_key(tuple) as usize
    }

    open spec fn key_ok(&self, tuple: Seq<u8>) -> bool {
        stock_row_key(tuple) <= u64::MAX
    }

    open spec fn spec_to_cached_field(&self, tuple_field: Field) -> Option<Field> {
        stock_cached_field(tuple_field)
    }

    /// Every cached field among the updated ones lies within the cached part, and the data
    /// holds its value.
    open spec fn update_cached_ok(&self, fields: Seq<Field>, data_len: nat) -> bool {
        &&& all_wf(fields)
        &&& prefix_size(fields, fields.len() as int) <= usize::MAX
        &&& forall|i: int|
            0 <= i < fields.len() && (#[trigger] stock_cached_field(fields[i])) is Some ==> {
                let c = stock_cached_field(fields[i]).unwrap();
                &&& c.wf()
                &&& c.spec_begin() + c.spec_size() <= STOCK_CACHED_LEN
                &&& prefix_size(fields, i) + c.spec_size() <= data_len
            }
    }

    open spec fn spec_update_cached(&self, field: Seq<u8>, fields: Seq<Field>, data: Seq<u8>) -> Seq<u8> {
        updated_cached_bytes(field, fields, data, fields.len() as int)
    }

    proof fn lemma_write_back_to_cached(&self, tuple: StockTuple) {
        tuple.lemma_len();
        let t = tuple@;
        assert(t.subrange(0, 16) + (t.subrange(0, 72) + t.subrange(288, 312)).subrange(16, 72)
            + t.subrange(72, 312) =~= t);
    }

    fn to_cached(&self, tuple: &StockTuple) -> (r: StockCached) {
        let r = StockCached {
            s_i_id: tuple.s_i_id,
            s_w_id: tuple.s_w_id,
            s_quantity: tuple.s_quantity,
            s_ytd: tuple.s_ytd,
            s_order_cnt: tuple.s_order_cnt,
            s_remote_cnt: tuple.s_remote_cnt,
            s_data: tuple.s_data,
            s_dist10: tuple.s_dist10,
        };
        proof {
            tuple.lemma_len();
            r.lemma_len();
            vstd::bytes::lemma_auto_spec_u64_to_from_le_bytes();
            tuple.s_data.lemma_len();
            tuple.s_dist10.lemma_len();
            assert(r@ =~= tuple@.subrange(0, 72) + tuple@.subrange(288, 312));
        }
        r
    }

    fn write_back(&self, field: &StockCached, tuple: &mut StockTuple) {
        tuple.s_quantity = field.s_quantity;
        tuple.s_ytd = field.s_ytd;
        tuple.s_order_cnt = field.s_order_cnt;
        tuple.s_remote_cnt = field.s_remote_cnt;
        tuple.s_data = field.s_data;
        proof {
            field.lemma_len();
            tuple.lemma_len();
            old(tuple).lemma_len();
            vstd::bytes::lemma_auto_spec_u64_to_from_le_bytes();
            field.s_data.lemma_len();
            assert(tuple@ =~= old(tuple)@.subrange(0, 16) + field@.subrange(16, 72) + old(
                tuple,
            )@.subrange(72, 312));
        }
    }

    fn update_cached<const N: usize>(&self, field: &mut StockCached, query: UpdateQuery<'_, N>) {
        let ghost fields = query.spec_meta().fields@;
        let ghost data = query.spec_data();
        proof {
            field.lemma_len();
        }
        let mut bytes = field.to_bytes();
        let mut it = query.iter();
        let mut k: usize = 0;
        while k < N
            invariant
                0 <= k <= N,
                it.wf(),
                it.spec_query() == query,
                it.spec_cur_idx() == k,
                fields == query.spec_meta().fields@,
                data == query.spec_data(),
                fields.len() == N,
                self.update_cached_ok(fields, data.len()),
                bytes@.len() == STOCK_CACHED_LEN,
                bytes@ == updated_cached_bytes(old(field)@, fields, data, k as int),
            decreases N - k,
        {
            let next = it.next();
            match next {
                Some((f, off)) => {
                    match self.to_cached_field(f) {
                        Some(c) => {
                            proof {
                                assert(stock_cached_field(fields[k as int]) is Some);
                            }
                            let size = c.size();
                            copy_into(&mut bytes, c.begin() as usize, query.data(), off, size);
                        },
                        None => {},
                    }
                },
                None => {
                    proof {
                        assert(false);
                    }
                },
            }
            k += 1;
        }
        *field = StockCached::from_bytes(bytes.as_slice());
    }

    fn key(&self, tuple: &StockTuple) -> (r: usize) {
        proof {
            lemma_stock_key_fields(*tuple);
        }
        StockTuple::make_key(tuple.s_w_id, tuple.s_i_id)
    }

    fn to_cached_field(&self, tuple_field: &Field) -> (r: Option<Field>) {
        if *tuple_field == Field::new(STOCK_DIST10, STOCK_DIST10_END) {
            return Some(Field::new(STOCK_CACHED_DIST10, STOCK_CACHED_DIST10_END));
        }
        if tuple_field.begin() >= STOCK_DIST01 {
            None
        } else {
            Some(*tuple_field)
        }
    }
}

/// The key of a warehouse row: its id.
pub open spec fn warehouse_row_key(t: Seq<u8>) -> int {
    word64_at(t, 0) as int
}

pub proof fn lemma_warehouse_key_fields(t: WarehouseTuple)
    ensures
        word64_at(t@, 0) == t.w_id,
{
    t.lemma_len();
    vstd::bytes::lemma_auto_spec_u64_to_from_le_bytes();
    t.w_name.lemma_len();
    t.w_street1.lemma_len();
    t.w_street2.lemma_len();
    t.w_city.lemma_len();
    t.w_state.lemma_len();
    assert(t@.subrange(0, 8) =~= le_word(t.w_id));
    lemma_word_at(t@, 0, t.w_id);
}

impl Schema for GeneralSchema<WarehouseTuple> {
    type Field = WarehouseTuple;

    type Tuple = WarehouseTuple;

    open spec fn wf(&self) -> bool {
        true
    }

    open spec fn spec_to_cached(&self, tuple: Seq<u8>) -> Seq<u8> {
        tuple
    }

    open spec fn spec_write_back(&self, field: Seq<u8>, tuple: Seq<u8>) -> Seq<u8> {
        field
    }

    open spec fn spec_key(&self, tuple: Seq<u8>) -> usize {
        warehouse_row_key(tuple) as usize
    }

    open spec fn key_ok(&self, tuple: Seq<u8>) -> bool {
        true
    }

    open spec fn spec_to_cached_field(&self, tuple_field: Field) -> Option<Field> {
        Some(tuple_field)
    }

    open spec fn update_cached_ok(&self, fields: Seq<Field>, data_len: nat) -> bool {
        WarehouseTuple::update_ok(fields, data_len)
    }

    open spec fn spec_update_cached(&self, field: Seq<u8>, fields: Seq<Field>, data: Seq<u8>) -> Seq<u8> {
        WarehouseTuple::spec_update(field, fields, data)
    }

    proof fn lemma_write_back_to_cached(&self, tuple: WarehouseTuple) {
    }

    fn to_cached(&self, tuple: &WarehouseTuple) -> (r: WarehouseTuple) {
        *tuple
    }

    fn write_back(&self, field: &WarehouseTuple, tuple: &mut WarehouseTuple) {
        *tuple = *field;
    }

    fn update_cached<const N: usize>(&self, field: &mut WarehouseTuple, query: UpdateQuery<'_, N>) {
        field.update(query);
    }

    fn key(&self, tuple: &WarehouseTuple) -> (r: usize) {
        proof {
            lemma_warehouse_key_fields(*tuple);
        }
        tuple.w_id as usize
    }

    fn to_cached_field(&self, tuple_field: &Field) -> (r: Option<Field>) {
        Some(*tuple_field)
    }
}

/// The key of a district row from its bytes.
pub open spec fn district_row_key(t: Seq<u8>) -> int {
    district_key(word64_at(t, 8), word64_at(t, 0))
}

pub proof fn lemma_district_key_fields(t: DistrictTuple)
    ensures
        word64_at(t@, 8) == t.d_w_id,
        word64_at(t@, 0) == t.d_id,
{
    t.lemma_len();
    vstd::bytes::lemma_auto_spec_u64_to_from_le_bytes();
    t.d_name.lemma_len();
    t.d_street1.lemma_len();
    t.d_street2.lemma_len();
    t.d_city.lemma_len();
    t.d_state.lemma_len();
    assert(t@.subrange(8, 16) =~= le_word(t.d_w_id));
    lemma_word_at(t@, 8, t.d_w_id);
    assert(t@.subrange(0, 8) =~= le_word(t.d_id));
    lemma_word_at(t@, 0, t.d_id);
}

impl Schema for GeneralSchema<DistrictTuple> {
    type Field = DistrictTuple;

    type Tuple = DistrictTuple;

    open spec fn wf(&self) -> bool {
        true
    }

    open spec fn spec_to_cached(&self, tuple: Seq<u8>) -> Seq<u8> {
        tuple
    }

    open spec fn spec_write_back(&self, field: Seq<u8>, tuple: Seq<u8>) -> Seq<u8> {
        field
    }

    open spec fn spec_key(&self, tuple: Seq<u8>) -> usize {
        district_row_key(tuple) as usize
    }

    open spec fn key_ok(&self, tuple: Seq<u8>) -> bool {
        district_row_key(tuple) <= u64::MAX
    }

    open spec fn spec_to_cached_field(&self, tuple_field: Field) -> Option<Field> {
        Some(tuple_field)
    }

    open spec fn update_cached_ok(&self, fields: Seq<Field>, data_len: nat) -> bool {
        DistrictTuple::update_ok(fields, data_len)
    }

    open spec fn spec_update_cached(&self, field: Seq<u8>, fields: Seq<Field>, data: Seq<u8>) -> Seq<u8> {
        DistrictTuple::spec_update(field, fields, data)
    }

    proof fn lemma_write_back_to_cached(&self, tuple: DistrictTuple) {
    }

    fn to_cached(&self, tuple: &DistrictTuple) -> (r: DistrictTuple) {
        *tuple
    }

    fn write_back(&self, field: &DistrictTuple, tuple: &mut DistrictTuple) {
        *tuple = *field;
    }

    fn update_cached<const N: usize>(&self, field: &mut DistrictTuple, query: UpdateQuery<'_, N>) {
        field.update(query);
    }

    fn key(&self, tuple: &DistrictTuple) -> (r: usize) {
        proof {
            lemma_district_key_fields(*tuple);
        }
        DistrictTuple::make_key(tuple.d_w_id, tuple.d_id)
    }

    fn to_cached_field(&self, tuple_field: &Field) -> (r: Option<Field>) {
        Some(*tuple_field)
    }
}

/// The key of a customer row from its bytes.
pub open spec fn customer_row_key(t: Seq<u8>) -> int {
    customer_key(word64_at(t, 182), word64_at(t, 190), word64_at(t, 0))
}

pub proof fn lemma_customer_key_fields(t: CustomerTuple)
    ensures
        word64_at(t@, 182) == t.c_w_id,
        word64_at(t@, 190) == t.c_d_id,
        word64_at(t@, 0) == t.c_id,
{
    t.lemma_len();
    vstd::bytes::lemma_auto_spec_u64_to_from_le_bytes();
    vstd::bytes::lemma_auto_spec_u32_to_from_le_bytes();
    t.c_first.lemma_len();
    t.c_middle.lemma_len();
    t.c_last.lemma_len();
    t.c_street1.lemma_len();
    t.c_street2.lemma_len();
    t.c_city.lemma_len();
    t.c_state.lemma_len();
    t.c_phone.lemma_len();
    t.c_credit.lemma_len();
    t.c_data.lemma_len();
    assert(t@.subrange(182, 190) =~= le_word(t.c_w_id));
    lemma_word_at(t@, 182, t.c_w_id);
    assert(t@.subrange(190, 198) =~= le_word(t.c_d_id));
    lemma_word_at(t@, 190, t.c_d_id);
    assert(t@.subrange(0, 8) =~= le_word(t.c_id));
    lemma_word_at(t@, 0, t.c_id);
}

impl Schema for GeneralSchema<CustomerTuple> {
    type Field = CustomerTuple;

    type Tuple = CustomerTuple;

    open spec fn wf(&self) -> bool {
        true
    }

    open spec fn spec_to_cached(&self, tuple: Seq<u8>) -> Seq<u8> {
        tuple
    }

    open spec fn spec_write_back(&self, field: Seq<u8>, tuple: Seq<u8>) -> Seq<u8> {
        field
    }

    open spec fn spec_key(&self, tuple: Seq<u8>) -> usize {
        customer_row_key(tuple) as usize
    }

    open spec fn key_ok(&self, tuple: Seq<u8>) -> bool {
        customer_row_key(tuple) <= u64::MAX
    }

    open spec fn spec_to_cached_field(&self, tuple_field: Field) -> Option<Field> {
        Some(tuple_field)
    }

    open spec fn update_cached_ok(&self, fields: Seq<Field>, data_len: nat) -> bool {
        CustomerTuple::update_ok(fields, data_len)
    }

    open spec fn spec_update_cached(&self, field: Seq<u8>, fields: Seq<Field>, data: Seq<u8>) -> Seq<u8> {
        CustomerTuple::spec_update(field, fields, data)
    }

    proof fn lemma_write_back_to_cached(&self, tuple: CustomerTuple) {
    }

    fn to_cached(&self, tuple: &CustomerTuple) -> (r: CustomerTuple) {
        *tuple
    }

    fn write_back(&self, field: &CustomerTuple, tuple: &mut CustomerTuple) {
        *tuple = *field;
    }

    fn update_cached<const N: usize>(&self, field: &mut CustomerTuple, query: UpdateQuery<'_, N>) {
        field.update(query);
    }

    fn key(&self, tuple: &CustomerTuple) -> (r: usize) {
        proof {
            lemma_customer_key_fields(*tuple);
        }
        CustomerTuple::make_key(tuple.c_w_id, tuple.c_d_id, tuple.c_id)
    }

    fn to_cached_field(&self, tuple_field: &Field) -> (r: Option<Field>) {
        Some(*tuple_field)
    }
}

/// The key of an item row: its id.
pub open spec fn item_row_key(t: Seq<u8>) -> int {
    word64_at(t, 0) as int
}

pub proof fn lemma_item_key_fields(t: ItemTuple)
    ensures
        word64_at(t@, 0) == t.i_id,
{
    t.lemma_len();
    vstd::bytes::lemma_auto_spec_u64_to_from_le_bytes();
    t.i_name.lemma_len();
    t.i_data.lemma_len();
    assert(t@.subrange(0, 8) =~= le_word(t.i_id));
    lemma_word_at(t@, 0, t.i_id);
}

impl Schema for GeneralSchema<ItemTuple> {
    type Field = ItemTuple;

    type Tuple = ItemTuple;

    open spec fn wf(&self) -> bool {
        true
    }

    open spec fn spec_to_cached(&self, tuple: Seq<u8>) -> Seq<u8> {
        tuple
    }

    open spec fn spec_write_back(&self, field: Seq<u8>, tuple: Seq<u8>) -> Seq<u8> {
        field
    }

    open spec fn spec_key(&self, tuple: Seq<u8>) -> usize {
        item_row_key(tuple) as usize
    }

    open spec fn key_ok(&self, tuple: Seq<u8>) -> bool {
        true
    }

    open spec fn spec_to_cached_field(&self, tuple_field: Field) -> Option<Field> {
        Some(tuple_field)
    }

    open spec fn update_cached_ok(&self, fields: Seq<Field>, data_len: nat) -> bool {
        ItemTuple::update_ok(fields, data_len)
    }

    open spec fn spec_update_cached(&self, field: Seq<u8>, fields: Seq<Field>, data: Seq<u8>) -> Seq<u8> {
        ItemTuple::spec_update(field, fields, data)
    }

    proof fn lemma_write_back_to_cached(&self, tuple: ItemTuple) {
    }

    fn to_cached(&self, tuple: &ItemTuple) -> (r: ItemTuple) {
        *tuple
    }

    fn write_back(&self, field: &ItemTuple, tuple: &mut ItemTuple) {
        *tuple = *field;
    }

    fn update_cached<const N: usize>(&self, field: &mut ItemTuple, query: UpdateQuery<'_, N>) {
        field.update(query);
    }

    fn key(&self, tuple: &ItemTuple) -> (r: usize) {
        proof {
            lemma_item_key_fields(*tuple);
        }
        ItemTuple::make_key(tuple.i_id)
    }

    fn to_cached_field(&self, tuple_field: &Field) -> (r: Option<Field>) {
        Some(*tuple_field)
    }
}

/// The key of an order-line row from its bytes.
pub open spec fn order_line_row_key(t: Seq<u8>) -> int {
    order_line_key(word64_at(t, 64) as usize as u64, word64_at(t, 8) as usize as u64, word64_at(t, 0) as usize as u64, word64_at(t, 16) as usize as u64)
}

pub proof fn lemma_order_line_key_fields(t: OrderLineTuple)
    ensures
        word64_at(t@, 64) == t.ol_w_id,
        word64_at(t@, 8) == t.ol_d_id,
        word64_at(t@, 0) == t.ol_o_id,
        word64_at(t@, 16) == t.ol_i_id,
{
    t.lemma_len();
    vstd::bytes::lemma_auto_spec_u64_to_from_le_bytes();
    t.ol_dist_info.lemma_len();
    assert(t@.subrange(64, 72) =~= le_word(t.ol_w_id));
    lemma_word_at(t@, 64, t.ol_w_id);
    assert(t@.subrange(8, 16) =~= le_word(t.ol_d_id));
    lemma_word_at(t@, 8, t.ol_d_id);
    assert(t@.subrange(0, 8) =~= le_word(t.ol_o_id));
    lemma_word_at(t@, 0, t.ol_o_id);
    assert(t@.subrange(16, 24) =~= le_word(t.ol_i_id));
    lemma_word_at(t@, 16, t.ol_i_id);
}

impl Schema for GeneralSchema<OrderLineTuple> {
    type Field = OrderLineTuple;

    type Tuple = OrderLineTuple;

    open spec fn wf(&self) -> bool {
        true
    }

    open spec fn spec_to_cached(&self, tuple: Seq<u8>) -> Seq<u8> {
        tuple
    }

    open spec fn spec_write_back(&self, field: Seq<u8>, tuple: Seq<u8>) -> Seq<u8> {
        field
    }

    open spec fn spec_key(&self, tuple: Seq<u8>) -> usize {
        order_line_row_key(tuple) as usize
    }

    open spec fn key_ok(&self, tuple: Seq<u8>) -> bool {
        order_line_row_key(tuple) <= u64::MAX
    }

    open spec fn spec_to_cached_field(&self, tuple_field: Field) -> Option<Field> {
        Some(tuple_field)
    }

    open spec fn update_cached_ok(&self, fields: Seq<Field>, data_len: nat) -> bool {
        OrderLineTuple::update_ok(fields, data_len)
    }

    open spec fn spec_update_cached(&self, field: Seq<u8>, fields: Seq<Field>, data: Seq<u8>) -> Seq<u8> {
        OrderLineTuple::spec_update(field, fields, data)
    }

    proof fn lemma_write_back_to_cached(&self, tuple: OrderLineTuple) {
    }

    fn to_cached(&self, tuple: &OrderLineTuple) -> (r: OrderLineTuple) {
        *tuple
    }

    fn write_back(&self, field: &OrderLineTuple, tuple: &mut OrderLineTuple) {
        *tuple = *field;
    }

    fn update_cached<const N: usize>(&self, field: &mut OrderLineTuple, query: UpdateQuery<'_, N>) {
        field.update(query);
    }

    fn key(&self, tuple: &OrderLineTuple) -> (r: usize) {
        proof {
            lemma_order_line_key_fields(*tuple);
        }
        OrderLineTuple::make_key(
            tuple.ol_w_id as usize,
            tuple.ol_d_id as usize,
            tuple.ol_o_id as usize,
            tuple.ol_i_id as usize,
        )
    }

    fn to_cached_field(&self, tuple_field: &Field) -> (r: Option<Field>) {
        Some(*tuple_field)
    }
}

/// Where the fields of a row lie in the cached part of a schema, if it holds them.
pub trait FieldMapping {
    spec fn spec_map(&self, f: Field) -> Option<Field>;

    fn map(&self, f: &Field) -> (r: Option<Field>)
        ensures
            r == self.spec_map(*f),
    ;
}

/// A cached part that holds the bytes of a row from `lo` on: a field that begins before
/// `lo`, or at `hi` or after, is not cached; another moves to the front by `lo` bytes.
pub struct FieldShift {
    pub lo: u16,
    pub hi: u32,
}

impl FieldMapping for FieldShift {
    open spec fn spec_map(&self, f: Field) -> Option<Field> {
        if f.spec_begin() < self.lo || f.spec_begin() >= self.hi {
            None
        } else {
            Some(Field::spec_new((f.spec_begin() - self.lo) as u16, f.spec_end().wrapping_sub(self.lo)))
        }
    }

    fn map(&self, f: &Field) -> (r: Option<Field>) {
        if f.begin() < self.lo || f.begin() as u32 >= self.hi {
            None
        } else {
            Some(Field::new(f.begin() - self.lo, f.end().wrapping_sub(self.lo)))
        }
    }
}

/// A cached part that holds exactly the fields listed, each moved to the front by `lo`
/// bytes; no other field is cached.
pub struct FieldList<const K: usize> {
    pub lo: u16,
    pub fields: [Field; K],
}

impl<const K: usize> FieldMapping for FieldList<K> {
    open spec fn spec_map(&self, f: Field) -> Option<Field> {
        if exists|i: int| 0 <= i < K && self.fields@[i] == f {
            Some(Field::spec_new(f.spec_begin().wrapping_sub(self.lo), f.spec_end().wrapping_sub(self.lo)))
        } else {
            None
        }
    }

    fn map(&self, f: &Field) -> (r: Option<Field>) {
        let mut i: usize = 0;
        while i < K
            invariant
                0 <= i <= K,
                forall|j: int| 0 <= j < i ==> self.fields@[j] != *f,
            decreases K - i,
        {
            if self.fields[i] == *f {
                return Some(Field::new(f.begin().wrapping_sub(self.lo), f.end().wrapping_sub(self.lo)));
            }
            i += 1;
        }
        None
    }
}

/// The cached part `bytes` of a row after writing, in order, those fields `0..n` of an
/// update that it holds (as `m` maps them), each at its place in the cached part.
pub open spec fn updated_mapped_bytes<M: FieldMapping>(
    bytes: Seq<u8>,
    fields: Seq<Field>,
    data: Seq<u8>,
    n: int,
    m: M,
) -> Seq<u8>
    decreases n,
{
    if n <= 0 {
        bytes
    } else {
        let prev = updated_mapped_bytes(bytes, fields, data, n - 1, m);
        match m.spec_map(fields[n - 1]) {
            Some(c) => {
                let off = prefix_size(fields, n - 1);
                overwrite(prev, c.spec_begin() as int, data.subrange(off, off + c.spec_size()))
            },
            None => prev,
        }
    }
}

/// Every field of an update that a cached part of `part_len` bytes holds (as `m` maps
/// them) lands within it, and the data holds its value.
pub open spec fn mapped_update_ok<M: FieldMapping>(
    fields: Seq<Field>,
    data_len: nat,
    m: M,
    part_len: int,
) -> bool {
    &&& all_wf(fields)
    &&& prefix_size(fields, fields.len() as int) <= usize::MAX
    &&& forall|i: int|
        0 <= i < fields.len() && (#[trigger] m.spec_map(fields[i])) is Some ==> {
            let c = m.spec_map(fields[i]).unwrap();
            &&& c.wf()
            &&& c.spec_begin() + c.spec_size() <= part_len
            &&& prefix_size(fields, i) + c.spec_size() <= data_len
        }
}

/// Writes into `bytes`, a cached part whose fields `m` maps, the new values of the fields
/// of `query` that it holds.
fn update_mapped<M: FieldMapping, const N: usize>(
    bytes: &mut Vec<u8>,
    query: &UpdateQuery<'_, N>,
    m: &M,
)
    requires
        mapped_update_ok(query.spec_meta().fields@, query.spec_data().len(), *m, old(bytes)@.len() as int),
    ensures
        final(bytes)@.len() == old(bytes)@.len(),
        final(bytes)@ == updated_mapped_bytes(
            old(bytes)@,
            query.spec_meta().fields@,
            query.spec_data(),
            N as int,
            *m,
        ),
{
    let ghost fields = query.spec_meta().fields@;
    let ghost data = query.spec_data();
    let ghost len = bytes@.len();
    let mut it = query.iter();
    let mut k: usize = 0;
    while k < N
        invariant
            0 <= k <= N,
            it.wf(),
            it.spec_query() == *query,
            it.spec_cur_idx() == k,
            fields == query.spec_meta().fields@,
            data == query.spec_data(),
            fields.len() == N,
            len == old(bytes)@.len(),
            mapped_update_ok(fields, data.len(), *m, len as int),
            bytes@.len() == len,
            bytes@ == updated_mapped_bytes(old(bytes)@, fields, data, k as int, *m),
        decreases N - k,
    {
        let next = it.next();
        match next {
            Some((f, off)) => {
                match m.map(f) {
                    Some(c) => {
                        proof {
                            assert(m.spec_map(fields[k as int]) is Some);
                        }
                        let size = c.size();
                        copy_into(bytes, c.begin() as usize, query.data(), off, size);
                    },
                    None => {},
                }
            },
            None => {
                proof {
                    assert(false);
                }
            },
        }
        k += 1;
    }
}

/// The part of an item row that the cache holds: its price (the bits of a double), its
/// name and its data.
#[derive(Debug, Clone, Copy, PartialEq, Eq)]
pub struct ItemCached {
    pub i_price: u64,
    pub i_name: FixedString<24>,
    pub i_data: FixedString<50>,
}

/// The byte of an item row where its cached part begins (`i_price`).
pub const ITEM_CACHED_BEGIN: u16 = 16;

/// The number of bytes of the cached part of an item row.
pub const ITEM_CACHED_LEN: usize = 82;

impl View for ItemCached {
    type V = Seq<u8>;

    /// The bytes in layout order: the price as a little-endian word, the name, the data.
    open spec fn view(&self) -> Seq<u8> {
        le_word(self.i_price) + self.i_name@ + self.i_data@
    }
}

impl ItemCached {
    pub proof fn lemma_len(&self)
        ensures
            self@.len() == ITEM_CACHED_LEN,
    {
        vstd::bytes::lemma_auto_spec_u64_to_from_le_bytes();
        self.i_name.lemma_len();
        self.i_data.lemma_len();
    }

    fn to_bytes(&self) -> (r: Vec<u8>)
        ensures
            r@ == self@,
    {
        let mut out: Vec<u8> = Vec::new();
        push_word(&mut out, self.i_price);
        push_bytes(&mut out, self.i_name.as_bytes());
        push_bytes(&mut out, self.i_data.as_bytes());
        assert(out@ =~= self@);
        out
    }

    fn from_bytes(b: &[u8]) -> (r: Self)
        requires
            b@.len() == ITEM_CACHED_LEN,
        ensures
            r@ == b@,
    {
        let r = ItemCached {
            i_price: read_word(b, 0),
            i_name: FixedString::from_bytes(&b[8..32]),
            i_data: FixedString::from_bytes(&b[32..82]),
        };
        assert(r@ =~= b@);
        r
    }
}

/// Where the fields of an item row lie in its cached part: those from the price on move to
/// the front by the bytes of the id and the image id, which are not cached.
pub open spec fn item_cached_fields() -> FieldShift {
    FieldShift { lo: ITEM_CACHED_BEGIN, hi: 0x1_0000 }
}

impl Schema for GeneralSchema<ItemCached> {
    type Field = ItemCached;

    type Tuple = ItemTuple;

    open spec fn wf(&self) -> bool {
        true
    }

    open spec fn spec_to_cached(&self, tuple: Seq<u8>) -> Seq<u8> {
        tuple.subrange(ITEM_CACHED_BEGIN as int, ITEM_ROW_LEN as int)
    }

    /// The price, the name and the data go back into the row.
    open spec fn spec_write_back(&self, field: Seq<u8>, tuple: Seq<u8>) -> Seq<u8> {
        tuple.subrange(0, ITEM_CACHED_BEGIN as int) + field
    }

    open spec fn spec_key(&self, tuple: Seq<u8>) -> usize {
        item_row_key(tuple) as usize
    }

    open spec fn key_ok(&self, tuple: Seq<u8>) -> bool {
        true
    }

    open spec fn spec_to_cached_field(&self, tuple_field: Field) -> Option<Field> {
        item_cached_fields().spec_map(tuple_field)
    }

    open spec fn update_cached_ok(&self, fields: Seq<Field>, data_len: nat) -> bool {
        mapped_update_ok(fields, data_len, item_cached_fields(), ITEM_CACHED_LEN as int)
    }

    open spec fn spec_update_cached(&self, field: Seq<u8>, fields: Seq<Field>, data: Seq<u8>) -> Seq<u8> {
        updated_mapped_bytes(field, fields, data, fields.len() as int, item_cached_fields())
    }

    proof fn lemma_write_back_to_cached(&self, tuple: ItemTuple) {
        tuple.lemma_len();
        assert(tuple@.subrange(0, 16) + tuple@.subrange(16, 98) =~= tuple@);
    }

    fn to_cached(&self, tuple: &ItemTuple) -> (r: ItemCached) {
        let r = ItemCached { i_price: tuple.i_price, i_name: tuple.i_name, i_data: tuple.i_data };
        proof {
            tuple.lemma_len();
            vstd::bytes::lemma_auto_spec_u64_to_from_le_bytes();
            tuple.i_name.lemma_len();
            tuple.i_data.lemma_len();
            assert(r@ =~= tuple@.subrange(16, 98));
        }
        r
    }

    fn write_back(&self, field: &ItemCached, tuple: &mut ItemTuple) {
        tuple.i_price = field.i_price;
        tuple.i_name = field.i_name;
        tuple.i_data = field.i_data;
        proof {
            old(tuple).lemma_len();
            vstd::bytes::lemma_auto_spec_u64_to_from_le_bytes();
            assert(tuple@ =~= old(tuple)@.subrange(0, 16) + field@);
        }
    }

    fn update_cached<const N: usize>(&self, field: &mut ItemCached, query: UpdateQuery<'_, N>) {
        proof {
            field.lemma_len();
        }
        let mut bytes = field.to_bytes();
        let m = FieldShift { lo: ITEM_CACHED_BEGIN, hi: 0x1_0000 };
        update_mapped(&mut bytes, &query, &m);
        *field = ItemCached::from_bytes(bytes.as_slice());
    }

    fn key(&self, tuple: &ItemTuple) -> (r: usize) {
        proof {
            lemma_item_key_fields(*tuple);
        }
        ItemTuple::make_key(tuple.i_id)
    }

    fn to_cached_field(&self, tuple_field: &Field) -> (r: Option<Field>) {
        let m = FieldShift { lo: ITEM_CACHED_BEGIN, hi: 0x1_0000 };
        m.map(tuple_field)
    }
}

/// The part of a customer row that the cache holds for reading: every field before the
/// warehouse id. The credit limit, the discount and the balances are the bits of doubles.
#[derive(Debug, Clone, Copy, PartialEq, Eq)]
pub struct CustomerCachedRead {
    pub c_id: u64,
    pub c_first: FixedString<20>,
    pub c_middle: FixedString<2>,
    pub c_last: FixedString<16>,
    pub c_street1: FixedString<20>,
    pub c_street2: FixedString<20>,
    pub c_city: FixedString<20>,
    pub c_state: FixedString<2>,
    pub c_zip: u64,
    pub c_phone: FixedString<16>,
    pub c_since: u64,
    pub c_credit: FixedString<2>,
    pub c_credit_lim: u64,
    pub c_discount: u64,
    pub c_balance: u64,
    pub c_ytd_payment: u64,
    pub c_payment_cnt: u32,
    pub c_delivery_cnt: u32,
}

/// The byte of a customer row where its part that is not cached for reading begins
/// (`c_w_id`); it is also the number of bytes of the cached part.
pub const CUSTOMER_CACHED_END: u16 = 182;

impl View for CustomerCachedRead {
    type V = Seq<u8>;

    /// The bytes in layout order, the words little-endian.
    open spec fn view(&self) -> Seq<u8> {
        le_word(self.c_id)
            + self.c_first@
            + self.c_middle@
            + self.c_last@
            + self.c_street1@
            + self.c_street2@
            + self.c_city@
            + self.c_state@
            + le_word(self.c_zip)
            + self.c_phone@
            + le_word(self.c_since)
            + self.c_credit@
            + le_word(self.c_credit_lim)
            + le_word(self.c_discount)
            + le_word(self.c_balance)
            + le_word(self.c_ytd_payment)
            + le_word32(self.c_payment_cnt)
            + le_word32(self.c_delivery_cnt)
    }
}

impl CustomerCachedRead {
    pub proof fn lemma_len(&self)
        ensures
            self@.len() == CUSTOMER_CACHED_END,
    {
        vstd::bytes::lemma_auto_spec_u64_to_from_le_bytes();
        vstd::bytes::lemma_auto_spec_u32_to_from_le_bytes();
        self.c_first.lemma_len();
        self.c_middle.lemma_len();
        self.c_last.lemma_len();
        self.c_street1.lemma_len();
        self.c_street2.lemma_len();
        self.c_city.lemma_len();
        self.c_state.lemma_len();
        self.c_phone.lemma_len();
        self.c_credit.lemma_len();
    }

    fn to_bytes(&self) -> (r: Vec<u8>)
        ensures
            r@ == self@,
    {
        let mut out: Vec<u8> = Vec::new();
        push_word(&mut out, self.c_id);
        push_bytes(&mut out, self.c_first.as_bytes());
        push_bytes(&mut out, self.c_middle.as_bytes());
        push_bytes(&mut out, self.c_last.as_bytes());
        push_bytes(&mut out, self.c_street1.as_bytes());
        push_bytes(&mut out, self.c_street2.as_bytes());
        push_bytes(&mut out, self.c_city.as_bytes());
        push_bytes(&mut out, self.c_state.as_bytes());
        push_word(&mut out, self.c_zip);
        push_bytes(&mut out, self.c_phone.as_bytes());
        push_word(&mut out, self.c_since);
        push_bytes(&mut out, self.c_credit.as_bytes());
        push_word(&mut out, self.c_credit_lim);
        push_word(&mut out, self.c_discount);
        push_word(&mut out, self.c_balance);
        push_word(&mut out, self.c_ytd_payment);
        push_word32(&mut out, self.c_payment_cnt);
        push_word32(&mut out, self.c_delivery_cnt);
        assert(out@ =~= self@);
        out
    }

    fn from_bytes(b: &[u8]) -> (r: Self)
        requires
            b@.len() == CUSTOMER_CACHED_END,
        ensures
            r@ == b@,
    {
        let r = CustomerCachedRead {
            c_id: read_word(b, 0),
            c_first: FixedString::from_bytes(&b[8..28]),
            c_middle: FixedString::from_bytes(&b[28..30]),
            c_last: FixedString::from_bytes(&b[30..46]),
            c_street1: FixedString::from_bytes(&b[46..66]),
            c_street2: FixedString::from_bytes(&b[66..86]),
            c_city: FixedString::from_bytes(&b[86..106]),
            c_state: FixedString::from_bytes(&b[106..108]),
            c_zip: read_word(b, 108),
            c_phone: FixedString::from_bytes(&b[116..132]),
            c_since: read_word(b, 132),
            c_credit: FixedString::from_bytes(&b[140..142]),
            c_credit_lim: read_word(b, 142),
            c_discount: read_word(b, 150),
            c_balance: read_word(b, 158),
            c_ytd_payment: read_word(b, 166),
            c_payment_cnt: read_word32(b, 174),
            c_delivery_cnt: read_word32(b, 178),
        };
        assert(r@ =~= b@);
        r
    }
}

/// Where the fields of a customer row lie in its part cached for reading: those that begin
/// before the warehouse id are cached, where they are in the row.
pub open spec fn customer_read_fields() -> FieldShift {
    FieldShift { lo: 0, hi: 182 }
}

impl Schema for GeneralSchema<CustomerCachedRead> {
    type Field = CustomerCachedRead;

    type Tuple = CustomerTuple;

    open spec fn wf(&self) -> bool {
        true
    }

    open spec fn spec_to_cached(&self, tuple: Seq<u8>) -> Seq<u8> {
        tuple.subrange(0, CUSTOMER_CACHED_END as int)
    }

    /// Every field before the warehouse id goes back into the row.
    open spec fn spec_write_back(&self, field: Seq<u8>, tuple: Seq<u8>) -> Seq<u8> {
        field + tuple.subrange(CUSTOMER_CACHED_END as int, CUSTOMER_ROW_LEN as int)
    }

    open spec fn spec_key(&self, tuple: Seq<u8>) -> usize {
        customer_row_key(tuple) as usize
    }

    open spec fn key_ok(&self, tuple: Seq<u8>) -> bool {
        customer_row_key(tuple) <= u64::MAX
    }

    open spec fn spec_to_cached_field(&self, tuple_field: Field) -> Option<Field> {
        customer_read_fields().spec_map(tuple_field)
    }

    open spec fn update_cached_ok(&self, fields: Seq<Field>, data_len: nat) -> bool {
        mapped_update_ok(fields, data_len, customer_read_fields(), CUSTOMER_CACHED_END as int)
    }

    open spec fn spec_update_cached(&self, field: Seq<u8>, fields: Seq<Field>, data: Seq<u8>) -> Seq<u8> {
        updated_mapped_bytes(field, fields, data, fields.len() as int, customer_read_fields())
    }

    proof fn lemma_write_back_to_cached(&self, tuple: CustomerTuple) {
        tuple.lemma_len();
        assert(tuple@.subrange(0, 182) + tuple@.subrange(182, 698) =~= tuple@);
    }

    fn to_cached(&self, tuple: &CustomerTuple) -> (r: CustomerCachedRead) {
        let r = CustomerCachedRead {
            c_id: tuple.c_id,
            c_first: tuple.c_first,
            c_middle: tuple.c_middle,
            c_last: tuple.c_last,
            c_street1: tuple.c_street1,
            c_street2: tuple.c_street2,
            c_city: tuple.c_city,
            c_state: tuple.c_state,
            c_zip: tuple.c_zip,
            c_phone: tuple.c_phone,
            c_since: tuple.c_since,
            c_credit: tuple.c_credit,
            c_credit_lim: tuple.c_credit_lim,
            c_discount: tuple.c_discount,
            c_balance: tuple.c_balance,
            c_ytd_payment: tuple.c_ytd_payment,
            c_payment_cnt: tuple.c_payment_cnt,
            c_delivery_cnt: tuple.c_delivery_cnt,
        };
        proof {
            tuple.lemma_len();
            r.lemma_len();
            assert(r@ =~= tuple@.subrange(0, 182));
        }
        r
    }

    fn write_back(&self, field: &CustomerCachedRead, tuple: &mut CustomerTuple) {
        tuple.c_id = field.c_id;
        tuple.c_first = field.c_first;
        tuple.c_middle = field.c_middle;
        tuple.c_last = field.c_last;
        tuple.c_street1 = field.c_street1;
        tuple.c_street2 = field.c_street2;
        tuple.c_city = field.c_city;
        tuple.c_state = field.c_state;
        tuple.c_zip = field.c_zip;
        tuple.c_phone = field.c_phone;
        tuple.c_since = field.c_since;
        tuple.c_credit = field.c_credit;
        tuple.c_credit_lim = field.c_credit_lim;
        tuple.c_discount = field.c_discount;
        tuple.c_balance = field.c_balance;
        tuple.c_ytd_payment = field.c_ytd_payment;
        tuple.c_payment_cnt = field.c_payment_cnt;
        tuple.c_delivery_cnt = field.c_delivery_cnt;
        proof {
            old(tuple).lemma_len();
            tuple.lemma_len();
            field.lemma_len();
            let tail = le_word(tuple.c_w_id) + le_word(tuple.c_d_id) + tuple.c_data@;
            assert(tuple@ =~= field@ + tail);
            assert(old(tuple)@ =~= old(tuple)@.subrange(0, 182) + tail);
            assert(old(tuple)@.subrange(182, 698) =~= tail);
        }
    }

    fn update_cached<const N: usize>(&self, field: &mut CustomerCachedRead, query: UpdateQuery<'_, N>) {
        proof {
            field.lemma_len();
        }
        let mut bytes = field.to_bytes();
        let m = FieldShift { lo: 0, hi: 182 };
        update_mapped(&mut bytes, &query, &m);
        *field = CustomerCachedRead::from_bytes(bytes.as_slice());
    }

    fn key(&self, tuple: &CustomerTuple) -> (r: usize) {
        proof {
            lemma_customer_key_fields(*tuple);
        }
        CustomerTuple::make_key(tuple.c_w_id, tuple.c_d_id, tuple.c_id)
    }

    fn to_cached_field(&self, tuple_field: &Field) -> (r: Option<Field>) {
        let m = FieldShift { lo: 0, hi: 182 };
        m.map(tuple_field)
    }
}

/// The part of a warehouse row that the cache holds: its year-to-date balance (the bits of
/// a double).
#[derive(Debug, Clone, Copy, PartialEq, Eq)]
pub struct WarehouseCached {
    pub ytd: u64,
}

impl View for WarehouseCached {
    type V = Seq<u8>;

    /// The year-to-date balance as a little-endian word.
    open spec fn view(&self) -> Seq<u8> {
        le_word(self.ytd)
    }
}

impl WarehouseCached {
    pub proof fn lemma_len(&self)
        ensures
            self@.len() == 8,
    {
        vstd::bytes::lemma_auto_spec_u64_to_from_le_bytes();
    }

    fn to_bytes(&self) -> (r: Vec<u8>)
        ensures
            r@ == self@,
    {
        let mut out: Vec<u8> = Vec::new();
        push_word(&mut out, self.ytd);
        assert(out@ =~= self@);
        out
    }

    fn from_bytes(b: &[u8]) -> (r: Self)
        requires
            b@.len() == 8,
        ensures
            r@ == b@,
    {
        let r = WarehouseCached {
            ytd: read_word(b, 0),
        };
        assert(r@ =~= b@);
        r
    }
}

/// The one field of a warehouse row that its cached part holds: the year-to-date balance.
pub open spec fn warehouse_cached_fields() -> FieldList<1> {
    FieldList { lo: 96, fields: [Field::spec_new(96, 104)] }
}

impl Schema for GeneralSchema<WarehouseCached> {
    type Field = WarehouseCached;

    type Tuple = WarehouseTuple;

    open spec fn wf(&self) -> bool {
        true
    }

    open spec fn spec_to_cached(&self, tuple: Seq<u8>) -> Seq<u8> {
        tuple.subrange(96, 104)
    }

    /// The year-to-date balance goes back into the row.
    open spec fn spec_write_back(&self, field: Seq<u8>, tuple: Seq<u8>) -> Seq<u8> {
        tuple.subrange(0, 96) + field
    }

    open spec fn spec_key(&self, tuple: Seq<u8>) -> usize {
        warehouse_row_key(tuple) as usize
    }

    open spec fn key_ok(&self, tuple: Seq<u8>) -> bool {
        true
    }

    open spec fn spec_to_cached_field(&self, tuple_field: Field) -> Option<Field> {
        warehouse_cached_fields().spec_map(tuple_field)
    }

    open spec fn update_cached_ok(&self, fields: Seq<Field>, data_len: nat) -> bool {
        mapped_update_ok(fields, data_len, warehouse_cached_fields(), 8 as int)
    }

    open spec fn spec_update_cached(&self, field: Seq<u8>, fields: Seq<Field>, data: Seq<u8>) -> Seq<u8> {
        updated_mapped_bytes(field, fields, data, fields.len() as int, warehouse_cached_fields())
    }

    proof fn lemma_write_back_to_cached(&self, tuple: WarehouseTuple) {
        tuple.lemma_len();
        assert(tuple@.subrange(0, 96) + tuple@.subrange(96, 104) =~= tuple@);
    }

    fn to_cached(&self, tuple: &WarehouseTuple) -> (r: WarehouseCached) {
        let r = WarehouseCached {
            ytd: tuple.w_ytd,
        };
        proof {
            tuple.lemma_len();
            r.lemma_len();
            assert(r@ =~= tuple@.subrange(96, 104));
        }
        r
    }

    fn write_back(&self, field: &WarehouseCached, tuple: &mut WarehouseTuple) {
        tuple.w_ytd = field.ytd;
        proof {
            old(tuple).lemma_len();
            tuple.lemma_len();
            field.lemma_len();
            assert(tuple@ =~= old(tuple)@.subrange(0, 96) + field@);
        }
    }

    fn update_cached<const N: usize>(&self, field: &mut WarehouseCached, query: UpdateQuery<'_, N>) {
        proof {
            field.lemma_len();
        }
        let mut bytes = field.to_bytes();
        let m = FieldList { lo: 96, fields: [Field::new(96, 104)] };
        update_mapped(&mut bytes, &query, &m);
        *field = WarehouseCached::from_bytes(bytes.as_slice());
    }

    fn key(&self, tuple: &WarehouseTuple) -> (r: usize) {
        proof {
            lemma_warehouse_key_fields(*tuple);
        }
        tuple.w_id as usize
    }

    fn to_cached_field(&self, tuple_field: &Field) -> (r: Option<Field>) {
        let m = FieldList { lo: 96, fields: [Field::new(96, 104)] };
        m.map(tuple_field)
    }
}

/// The part of a district row that the cache holds: its year-to-date balance (the bits of
/// a double).
#[derive(Debug, Clone, Copy, PartialEq, Eq)]
pub struct DistrictCached {
    pub ytd: u64,
}

impl View for DistrictCached {
    type V = Seq<u8>;

    /// The year-to-date balance as a little-endian word.
    open spec fn view(&self) -> Seq<u8> {
        le_word(self.ytd)
    }
}

impl DistrictCached {
    pub proof fn lemma_len(&self)
        ensures
            self@.len() == 8,
    {
        vstd::bytes::lemma_auto_spec_u64_to_from_le_bytes();
    }

    fn to_bytes(&self) -> (r: Vec<u8>)
        ensures
            r@ == self@,
    {
        let mut out: Vec<u8> = Vec::new();
        push_word(&mut out, self.ytd);
        assert(out@ =~= self@);
        out
    }

    fn from_bytes(b: &[u8]) -> (r: Self)
        requires
            b@.len() == 8,
        ensures
            r@ == b@,
    {
        let r = DistrictCached {
            ytd: read_word(b, 0),
        };
        assert(r@ =~= b@);
        r
    }
}

/// The one field of a district row that its cached part holds: the year-to-date balance.
pub open spec fn district_cached_fields() -> FieldList<1> {
    FieldList { lo: 104, fields: [Field::spec_new(104, 112)] }
}

impl Schema for GeneralSchema<DistrictCached> {
    type Field = DistrictCached;

    type Tuple = DistrictTuple;

    open spec fn wf(&self) -> bool {
        true
    }

    open spec fn spec_to_cached(&self, tuple: Seq<u8>) -> Seq<u8> {
        tuple.subrange(104, 112)
    }

    /// The year-to-date balance goes back into the row.
    open spec fn spec_write_back(&self, field: Seq<u8>, tuple: Seq<u8>) -> Seq<u8> {
        tuple.subrange(0, 104) + field + tuple.subrange(112, 120)
    }

    open spec fn spec_key(&self, tuple: Seq<u8>) -> usize {
        district_row_key(tuple) as usize
    }

    open spec fn key_ok(&self, tuple: Seq<u8>) -> bool {
        district_row_key(tuple) <= u64::MAX
    }

    open spec fn spec_to_cached_field(&self, tuple_field: Field) -> Option<Field> {
        district_cached_fields().spec_map(tuple_field)
    }

    open spec fn update_cached_ok(&self, fields: Seq<Field>, data_len: nat) -> bool {
        mapped_update_ok(fields, data_len, district_cached_fields(), 8 as int)
    }

    open spec fn spec_update_cached(&self, field: Seq<u8>, fields: Seq<Field>, data: Seq<u8>) -> Seq<u8> {
        updated_mapped_bytes(field, fields, data, fields.len() as int, district_cached_fields())
    }

    proof fn lemma_write_back_to_cached(&self, tuple: DistrictTuple) {
        tuple.lemma_len();
        assert(tuple@.subrange(0, 104) + tuple@.subrange(104, 112) + tuple@.subrange(112, 120) =~= tuple@);
    }

    fn to_cached(&self, tuple: &DistrictTuple) -> (r: DistrictCached) {
        let r = DistrictCached {
            ytd: tuple.d_ytd,
        };
        proof {
            tuple.lemma_len();
            r.lemma_len();
            vstd::bytes::lemma_auto_spec_u64_to_from_le_bytes();
            vstd::bytes::lemma_auto_spec_u32_to_from_le_bytes();
            tuple.d_name.lemma_len();
            tuple.d_street1.lemma_len();
            tuple.d_street2.lemma_len();
            tuple.d_city.lemma_len();
            tuple.d_state.lemma_len();
            assert(r@ =~= tuple@.subrange(104, 112));
        }
        r
    }

    fn write_back(&self, field: &DistrictCached, tuple: &mut DistrictTuple) {
        tuple.d_ytd = field.ytd;
        proof {
            old(tuple).lemma_len();
            tuple.lemma_len();
            field.lemma_len();
            vstd::bytes::lemma_auto_spec_u64_to_from_le_bytes();
            vstd::bytes::lemma_auto_spec_u32_to_from_le_bytes();
            tuple.d_name.lemma_len();
            tuple.d_street1.lemma_len();
            tuple.d_street2.lemma_len();
            tuple.d_city.lemma_len();
            tuple.d_state.lemma_len();
            let head = le_word(tuple.d_id) + le_word(tuple.d_w_id) + tuple.d_name@ + tuple.d_street1@
                + tuple.d_street2@ + tuple.d_city@ + tuple.d_state@ + le_word(tuple.d_zip) + le_word(
                tuple.d_tax,
            );
            let tail = le_word(tuple.d_next_o_id);
            assert(head.len() == 104);
            assert(tuple@ =~= head + field@ + tail);
            assert(old(tuple)@ =~= head + le_word(old(tuple).d_ytd) + tail);
            assert(old(tuple)@.subrange(0, 104) =~= head);
            assert(old(tuple)@.subrange(112, 120) =~= tail);
        }
    }

    fn update_cached<const N: usize>(&self, field: &mut DistrictCached, query: UpdateQuery<'_, N>) {
        proof {
            field.lemma_len();
        }
        let mut bytes = field.to_bytes();
        let m = FieldList { lo: 104, fields: [Field::new(104, 112)] };
        update_mapped(&mut bytes, &query, &m);
        *field = DistrictCached::from_bytes(bytes.as_slice());
    }

    fn key(&self, tuple: &DistrictTuple) -> (r: usize) {
        proof {
            lemma_district_key_fields(*tuple);
        }
        DistrictTuple::make_key(tuple.d_w_id, tuple.d_id)
    }

    fn to_cached_field(&self, tuple_field: &Field) -> (r: Option<Field>) {
        let m = FieldList { lo: 104, fields: [Field::new(104, 112)] };
        m.map(tuple_field)
    }
}

/// The part of a customer row that the cache holds for writing: its balance and
/// year-to-date payment (the bits of doubles) and its payment count.
#[derive(Debug, Clone, Copy, PartialEq, Eq)]
pub struct CustomerCachedWrite {
    pub c_balance: u64,
    pub c_ytd_payment: u64,
    pub c_payment_cnt: u32,
}

impl View for CustomerCachedWrite {
    type V = Seq<u8>;

    /// The balances as little-endian words, then the payment count as a 32-bit one.
    open spec fn view(&self) -> Seq<u8> {
        le_word(self.c_balance) + le_word(self.c_ytd_payment) + le_word32(self.c_payment_cnt)
    }
}

impl CustomerCachedWrite {
    pub proof fn lemma_len(&self)
        ensures
            self@.len() == 20,
    {
        vstd::bytes::lemma_auto_spec_u64_to_from_le_bytes();
        vstd::bytes::lemma_auto_spec_u32_to_from_le_bytes();
    }

    fn to_bytes(&self) -> (r: Vec<u8>)
        ensures
            r@ == self@,
    {
        let mut out: Vec<u8> = Vec::new();
        push_word(&mut out, self.c_balance);
        push_word(&mut out, self.c_ytd_payment);
        push_word32(&mut out, self.c_payment_cnt);
        assert(out@ =~= self@);
        out
    }

    fn from_bytes(b: &[u8]) -> (r: Self)
        requires
            b@.len() == 20,
        ensures
            r@ == b@,
    {
        let r = CustomerCachedWrite {
            c_balance: read_word(b, 0),
            c_ytd_payment: read_word(b, 8),
            c_payment_cnt: read_word32(b, 16),
        };
        assert(r@ =~= b@);
        r
    }
}

/// The fields of a customer row that its part cached for writing holds: the balance, the
/// year-to-date payment and the payment count, moved to the front.
pub open spec fn customer_write_fields() -> FieldList<3> {
    FieldList {
        lo: 158,
        fields: [Field::spec_new(158, 166), Field::spec_new(166, 174), Field::spec_new(174, 178)],
    }
}

impl Schema for GeneralSchema<CustomerCachedWrite> {
    type Field = CustomerCachedWrite;

    type Tuple = CustomerTuple;

    open spec fn wf(&self) -> bool {
        true
    }

    open spec fn spec_to_cached(&self, tuple: Seq<u8>) -> Seq<u8> {
        tuple.subrange(158, 178)
    }

    /// The balance, the year-to-date payment and the payment count go back into the row.
    open spec fn spec_write_back(&self, field: Seq<u8>, tuple: Seq<u8>) -> Seq<u8> {
        tuple.subrange(0, 158) + field + tuple.subrange(178, 698)
    }

    open spec fn spec_key(&self, tuple: Seq<u8>) -> usize {
        customer_row_key(tuple) as usize
    }

    open spec fn key_ok(&self, tuple: Seq<u8>) -> bool {
        customer_row_key(tuple) <= u64::MAX
    }

    open spec fn spec_to_cached_field(&self, tuple_field: Field) -> Option<Field> {
        customer_write_fields().spec_map(tuple_field)
    }

    open spec fn update_cached_ok(&self, fields: Seq<Field>, data_len: nat) -> bool {
        mapped_update_ok(fields, data_len, customer_write_fields(), 20 as int)
    }

    open spec fn spec_update_cached(&self, field: Seq<u8>, fields: Seq<Field>, data: Seq<u8>) -> Seq<u8> {
        updated_mapped_bytes(field, fields, data, fields.len() as int, customer_write_fields())
    }

    proof fn lemma_write_back_to_cached(&self, tuple: CustomerTuple) {
        tuple.lemma_len();
        assert(tuple@.subrange(0, 158) + tuple@.subrange(158, 178) + tuple@.subrange(178, 698) =~= tuple@);
    }

    fn to_cached(&self, tuple: &CustomerTuple) -> (r: CustomerCachedWrite) {
        let r = CustomerCachedWrite {
            c_balance: tuple.c_balance,
            c_ytd_payment: tuple.c_ytd_payment,
            c_payment_cnt: tuple.c_payment_cnt,
        };
        proof {
            tuple.lemma_len();
            r.lemma_len();
            vstd::bytes::lemma_auto_spec_u64_to_from_le_bytes();
            vstd::bytes::lemma_auto_spec_u32_to_from_le_bytes();
            tuple.c_first.lemma_len();
            tuple.c_middle.lemma_len();
            tuple.c_last.lemma_len();
            tuple.c_street1.lemma_len();
            tuple.c_street2.lemma_len();
            tuple.c_city.lemma_len();
            tuple.c_state.lemma_len();
            tuple.c_phone.lemma_len();
            tuple.c_credit.lemma_len();
            assert(r@ =~= tuple@.subrange(158, 178));
        }
        r
    }

    fn write_back(&self, field: &CustomerCachedWrite, tuple: &mut CustomerTuple) {
        tuple.c_balance = field.c_balance;
        tuple.c_ytd_payment = field.c_ytd_payment;
        tuple.c_payment_cnt = field.c_payment_cnt;
        proof {
            old(tuple).lemma_len();
            tuple.lemma_len();
            field.lemma_len();
            vstd::bytes::lemma_auto_spec_u64_to_from_le_bytes();
            vstd::bytes::lemma_auto_spec_u32_to_from_le_bytes();
            tuple.c_first.lemma_len();
            tuple.c_middle.lemma_len();
            tuple.c_last.lemma_len();
            tuple.c_street1.lemma_len();
            tuple.c_street2.lemma_len();
            tuple.c_city.lemma_len();
            tuple.c_state.lemma_len();
            tuple.c_phone.lemma_len();
            tuple.c_credit.lemma_len();
            tuple.c_data.lemma_len();
            let head = le_word(tuple.c_id) + tuple.c_first@ + tuple.c_middle@ + tuple.c_last@
                + tuple.c_street1@ + tuple.c_street2@ + tuple.c_city@ + tuple.c_state@ + le_word(
                tuple.c_zip,
            ) + tuple.c_phone@ + le_word(tuple.c_since) + tuple.c_credit@ + le_word(
                tuple.c_credit_lim,
            ) + le_word(tuple.c_discount);
            let tail = le_word32(tuple.c_delivery_cnt) + le_word(tuple.c_w_id) + le_word(tuple.c_d_id)
                + tuple.c_data@;
            let mid = le_word(old(tuple).c_balance) + le_word(old(tuple).c_ytd_payment) + le_word32(
                old(tuple).c_payment_cnt,
            );
            assert(head.len() == 158);
            assert(tuple@ =~= head + field@ + tail);
            assert(old(tuple)@ =~= head + mid + tail);
            assert(old(tuple)@.subrange(0, 158) =~= head);
            assert(old(tuple)@.subrange(178, 698) =~= tail);
        }
    }

    fn update_cached<const N: usize>(&self, field: &mut CustomerCachedWrite, query: UpdateQuery<'_, N>) {
        proof {
            field.lemma_len();
        }
        let mut bytes = field.to_bytes();
        let m = FieldList { lo: 158, fields: [Field::new(158, 166), Field::new(166, 174), Field::new(174, 178)] };
        update_mapped(&mut bytes, &query, &m);
        *field = CustomerCachedWrite::from_bytes(bytes.as_slice());
    }

    fn key(&self, tuple: &CustomerTuple) -> (r: usize) {
        proof {
            lemma_customer_key_fields(*tuple);
        }
        CustomerTuple::make_key(tuple.c_w_id, tuple.c_d_id, tuple.c_id)
    }

    fn to_cached_field(&self, tuple_field: &Field) -> (r: Option<Field>) {
        let m = FieldList { lo: 158, fields: [Field::new(158, 166), Field::new(166, 174), Field::new(174, 178)] };
        m.map(tuple_field)
    }
}

/// The part of an order-line row that the cache holds: every field before the line number.
/// The amount is the bits of a double.
#[derive(Debug, Clone, Copy, PartialEq, Eq)]
pub struct OrderLineCached {
    pub ol_o_id: u64,
    pub ol_d_id: u64,
    pub ol_i_id: u64,
    pub ol_supply_w_id: u64,
    pub ol_quantity: u64,
    pub ol_delivery_d: u64,
    pub ol_amount: u64,
}

impl View for OrderLineCached {
    type V = Seq<u8>;

    /// The words in layout order, little-endian.
    open spec fn view(&self) -> Seq<u8> {
        le_word(self.ol_o_id) + le_word(self.ol_d_id) + le_word(self.ol_i_id) + le_word(self.ol_supply_w_id) + le_word(self.ol_quantity) + le_word(self.ol_delivery_d) + le_word(self.ol_amount)
    }
}

impl OrderLineCached {
    pub proof fn lemma_len(&self)
        ensures
            self@.len() == 56,
    {
        vstd::bytes::lemma_auto_spec_u64_to_from_le_bytes();
    }

    fn to_bytes(&self) -> (r: Vec<u8>)
        ensures
            r@ == self@,
    {
        let mut out: Vec<u8> = Vec::new();
        push_word(&mut out, self.ol_o_id);
        push_word(&mut out, self.ol_d_id);
        push_word(&mut out, self.ol_i_id);
        push_word(&mut out, self.ol_supply_w_id);
        push_word(&mut out, self.ol_quantity);
        push_word(&mut out, self.ol_delivery_d);
        push_word(&mut out, self.ol_amount);
        assert(out@ =~= self@);
        out
    }

    fn from_bytes(b: &[u8]) -> (r: Self)
        requires
            b@.len() == 56,
        ensures
            r@ == b@,
    {
        let r = OrderLineCached {
            ol_o_id: read_word(b, 0),
            ol_d_id: read_word(b, 8),
            ol_i_id: read_word(b, 16),
            ol_supply_w_id: read_word(b, 24),
            ol_quantity: read_word(b, 32),
            ol_delivery_d: read_word(b, 40),
            ol_amount: read_word(b, 48),
        };
        assert(r@ =~= b@);
        r
    }
}

/// Where the fields of an order-line row lie in its cached part: those that begin before
/// the line number are cached, where they are in the row.
pub open spec fn order_line_cached_fields() -> FieldShift {
    FieldShift { lo: 0, hi: 56 }
}

impl Schema for GeneralSchema<OrderLineCached> {
    type Field = OrderLineCached;

    type Tuple = OrderLineTuple;

    open spec fn wf(&self) -> bool {
        true
    }

    open spec fn spec_to_cached(&self, tuple: Seq<u8>) -> Seq<u8> {
        tuple.subrange(0, 56)
    }

    /// Every field before the line number goes back into the row.
    open spec fn spec_write_back(&self, field: Seq<u8>, tuple: Seq<u8>) -> Seq<u8> {
        field + tuple.subrange(56, 96)
    }

    open spec fn spec_key(&self, tuple: Seq<u8>) -> usize {
        order_line_row_key(tuple) as usize
    }

    open spec fn key_ok(&self, tuple: Seq<u8>) -> bool {
        order_line_row_key(tuple) <= u64::MAX
    }

    open spec fn spec_to_cached_field(&self, tuple_field: Field) -> Option<Field> {
        order_line_cached_fields().spec_map(tuple_field)
    }

    open spec fn update_cached_ok(&self, fields: Seq<Field>, data_len: nat) -> bool {
        mapped_update_ok(fields, data_len, order_line_cached_fields(), 56 as int)
    }

    open spec fn spec_update_cached(&self, field: Seq<u8>, fields: Seq<Field>, data: Seq<u8>) -> Seq<u8> {
        updated_mapped_bytes(field, fields, data, fields.len() as int, order_line_cached_fields())
    }

    proof fn lemma_write_back_to_cached(&self, tuple: OrderLineTuple) {
        tuple.lemma_len();
        assert(tuple@.subrange(0, 56) + tuple@.subrange(56, 96) =~= tuple@);
    }

    fn to_cached(&self, tuple: &OrderLineTuple) -> (r: OrderLineCached) {
        let r = OrderLineCached {
            ol_o_id: tuple.ol_o_id,
            ol_d_id: tuple.ol_d_id,
            ol_i_id: tuple.ol_i_id,
            ol_supply_w_id: tuple.ol_supply_w_id,
            ol_quantity: tuple.ol_quantity,
            ol_delivery_d: tuple.ol_delivery_d,
            ol_amount: tuple.ol_amount,
        };
        proof {
            tuple.lemma_len();
            r.lemma_len();
            assert(r@ =~= tuple@.subrange(0, 56));
        }
        r
    }

    fn write_back(&self, field: &OrderLineCached, tuple: &mut OrderLineTuple) {
        tuple.ol_o_id = field.ol_o_id;
        tuple.ol_d_id = field.ol_d_id;
        tuple.ol_i_id = field.ol_i_id;
        tuple.ol_supply_w_id = field.ol_supply_w_id;
        tuple.ol_quantity = field.ol_quantity;
        tuple.ol_delivery_d = field.ol_delivery_d;
        tuple.ol_amount = field.ol_amount;
        proof {
            old(tuple).lemma_len();
            tuple.lemma_len();
            field.lemma_len();
            assert(tuple@ =~= field@ + old(tuple)@.subrange(56, 96));
        }
    }

    fn update_cached<const N: usize>(&self, field: &mut OrderLineCached, query: UpdateQuery<'_, N>) {
        proof {
            field.lemma_len();
        }
        let mut bytes = field.to_bytes();
        let m = FieldShift { lo: 0, hi: 56 };
        update_mapped(&mut bytes, &query, &m);
        *field = OrderLineCached::from_bytes(bytes.as_slice());
    }

    fn key(&self, tuple: &OrderLineTuple) -> (r: usize) {
        proof {
            lemma_order_line_key_fields(*tuple);
        }
        OrderLineTuple::make_key(
            tuple.ol_w_id as usize,
            tuple.ol_d_id as usize,
            tuple.ol_o_id as usize,
            tuple.ol_i_id as usize,
        )
    }

    fn to_cached_field(&self, tuple_field: &Field) -> (r: Option<Field>) {
        let m = FieldShift { lo: 0, hi: 56 };
        m.map(tuple_field)
    }
}

} // verus!

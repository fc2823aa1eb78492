use vstd::prelude::*;

use crate::attribute_cache::Tuple;
use crate::benchmark::utils::FixedString;
use crate::query::{
    all_wf, lemma_prefix_size_monotone, prefix_size, Field, FieldsMeta, FieldsValue, UpdateQuery,
};
use crate::utils::test_gen::{lemma_word_fields_prefix, word_fields};

verus! {

broadcast use vstd::array::group_array_axioms;

/// The 64-bit word of `bytes` at `off`, little-endian.
pub open spec fn word64_at(bytes: Seq<u8>, off: int) -> u64 {
    vstd::bytes::spec_u64_from_le_bytes(bytes.subrange(off, off + 8))
}

/// The word at `off` of `t` is `w` when the eight bytes there are those of `w`.
pub proof fn lemma_word_at(t: Seq<u8>, off: int, w: u64)
    requires
        0 <= off,
        off + 8 <= t.len(),
        t.subrange(off, off + 8) == le_word(w),
    ensures
        word64_at(t, off) == w,
{
    vstd::bytes::lemma_auto_spec_u64_to_from_le_bytes();
}

/// The words of a record after writing, in order, those of the fields `0..n` of an update
/// that start below byte `limit`; each such field is one aligned word, and its new value is
/// the word of the update's data after the values of the fields before it.
pub open spec fn updated_words_below(
    words: Seq<u64>,
    fields: Seq<Field>,
    bytes: Seq<u8>,
    n: int,
    limit: int,
) -> Seq<u64>
    decreases n,
{
    if n <= 0 {
        words
    } else {
        let prev = updated_words_below(words, fields, bytes, n - 1, limit);
        if fields[n - 1].spec_begin() < limit {
            prev.update(
                fields[n - 1].spec_begin() as int / 8,
                word64_at(bytes, prefix_size(fields, n - 1)),
            )
        } else {
            prev
        }
    }
}

pub proof fn lemma_updated_words_below_len(
    words: Seq<u64>,
    fields: Seq<Field>,
    bytes: Seq<u8>,
    n: int,
    limit: int,
)
    requires
        0 <= n <= fields.len(),
        limit <= 8 * words.len(),
    ensures
        updated_words_below(words, fields, bytes, n, limit).len() == words.len(),
    decreases n,
{
    if n > 0 {
        lemma_updated_words_below_len(words, fields, bytes, n - 1, limit);
    }
}

/// `src` written over `s` from byte `at` on.
pub open spec fn overwrite(s: Seq<u8>, at: int, src: Seq<u8>) -> Seq<u8> {
    s.subrange(0, at) + src + s.subrange(at + src.len(), s.len() as int)
}

/// Writes the `len` bytes of `src` from `from` over `dst` from `at` on.
pub fn copy_into(dst: &mut Vec<u8>, at: usize, src: &[u8], from: usize, len: usize)
    requires
        at + len <= old(dst)@.len(),
        from + len <= src@.len(),
    ensures
        final(dst)@ == overwrite(old(dst)@, at as int, src@.subrange(from as int, from + len)),
{
    let dlen = dst.len();
    let slen = src.len();
    let mut i: usize = 0;
    while i < len
        invariant
            0 <= i <= len,
            at + len <= dlen,
            from + len <= slen,
            dlen == dst@.len(),
            slen == src@.len(),
            dst@.len() == old(dst)@.len(),
            forall|j: int|
                0 <= j < dst@.len() ==> #[trigger] dst@[j] == if at <= j < at + i {
                    src@[from + j - at]
                } else {
                    old(dst)@[j]
                },
        decreases len - i,
    {
        dst.set(at + i, src[from + i]);
        i += 1;
    }
    assert(dst@ =~= overwrite(old(dst)@, at as int, src@.subrange(from as int, from + len)));
}

/// The bytes of a row after writing, in order, the new values of the fields `0..n` of an
/// update, each at its place in the row; the new value of a field is the part of the
/// update's data after the values of the fields before it.
pub open spec fn updated_bytes(bytes: Seq<u8>, fields: Seq<Field>, data: Seq<u8>, n: int) -> Seq<u8>
    decreases n,
{
    if n <= 0 {
        bytes
    } else {
        let off = prefix_size(fields, n - 1);
        overwrite(
            updated_bytes(bytes, fields, data, n - 1),
            fields[n - 1].spec_begin() as int,
            data.subrange(off, off + fields[n - 1].spec_size()),
        )
    }
}

/// An update whose fields lie within a row of `row_len` bytes and whose data holds their
/// values.
pub open spec fn bytes_update_ok(fields: Seq<Field>, data_len: nat, row_len: int) -> bool {
    &&& all_wf(fields)
    &&& prefix_size(fields, fields.len() as int) <= data_len
    &&& prefix_size(fields, fields.len() as int) <= usize::MAX
    &&& forall|i: int|
        0 <= i < fields.len() ==> (#[trigger] fields[i]).spec_begin() + fields[i].spec_size()
            <= row_len
}

/// Writes the new values of an update into the bytes of a row; see `updated_bytes`.
pub fn apply_update<const N: usize>(bytes: &mut Vec<u8>, query: &UpdateQuery<'_, N>)
    requires
        bytes_update_ok(query.spec_meta().fields@, query.spec_data().len(), old(bytes)@.len() as int),
    ensures
        final(bytes)@ == updated_bytes(
            old(bytes)@,
            query.spec_meta().fields@,
            query.spec_data(),
            N as int,
        ),
        final(bytes)@.len() == old(bytes)@.len(),
{
    let ghost fields = query.spec_meta().fields@;
    let ghost data = query.spec_data();
    let mut it = query.iter();
    let mut k: usize = 0;
    while k < N
        invariant
            0 <= k <= N,
            it.wf(),
            it.spec_query() == *query,
            it.spec_cur_idx() == k,
            fields == query.spec_meta().fields@,
            data == query.spec_data(),
            fields.len() == N,
            bytes_update_ok(fields, data.len(), old(bytes)@.len() as int),
            bytes@.len() == old(bytes)@.len(),
            bytes@ == updated_bytes(old(bytes)@, fields, data, k as int),
        decreases N - k,
    {
        let next = it.next();
        match next {
            Some((f, off)) => {
                proof {
                    assert(fields[k as int].wf());
                    lemma_prefix_size_monotone(fields, k as int + 1, N as int);
                    assert(fields[k as int].spec_begin() + fields[k as int].spec_size() <= old(
                        bytes,
                    )@.len());
                }
                let size = f.size();
                copy_into(bytes, f.begin() as usize, query.data(), off, size);
            },
            None => {
                proof {
                    assert(false);
                }
            },
        }
        k += 1;
    }
}

/// The little-endian bytes of a word.
pub open spec fn le_word(w: u64) -> Seq<u8> {
    vstd::bytes::spec_u64_to_le_bytes(w)
}

/// Appends the little-endian bytes of `w`.
pub(crate) fn push_word(out: &mut Vec<u8>, w: u64)
    ensures
        final(out)@ == old(out)@ + le_word(w),
{
    let bytes = vstd::bytes::u64_to_le_bytes(w);
    push_bytes(out, bytes.as_slice());
}

/// Appends `b`.
pub(crate) fn push_bytes(out: &mut Vec<u8>, b: &[u8])
    ensures
        final(out)@ == old(out)@ + b@,
{
    let mut i: usize = 0;
    while i < b.len()
        invariant
            0 <= i <= b@.len(),
            out@ == old(out)@ + b@.subrange(0, i as int),
        decreases b@.len() - i,
    {
        out.push(b[i]);
        i += 1;
        assert(b@.subrange(0, i as int) =~= b@.subrange(0, i - 1).push(b@[i - 1]));
    }
    assert(b@.subrange(0, b@.len() as int) =~= b@);
}

/// The word whose little-endian bytes start at `at`.
pub(crate) fn read_word(b: &[u8], at: usize) -> (r: u64)
    requires
        at + 8 <= b@.len(),
    ensures
        le_word(r) == b@.subrange(at as int, at + 8),
{
    proof {
        vstd::bytes::lemma_auto_spec_u64_to_from_le_bytes();
    }
    let blen = b.len();
    assert(at + 8 <= blen);
    let s = &b[at..at + 8];
    vstd::bytes::u64_from_le_bytes(s)
}

/// The little-endian bytes of a 32-bit word.
pub open spec fn le_word32(w: u32) -> Seq<u8> {
    vstd::bytes::spec_u32_to_le_bytes(w)
}

/// Appends the little-endian bytes of `w`.
pub(crate) fn push_word32(out: &mut Vec<u8>, w: u32)
    ensures
        final(out)@ == old(out)@ + le_word32(w),
{
    let bytes = vstd::bytes::u32_to_le_bytes(w);
    push_bytes(out, bytes.as_slice());
}

/// The 32-bit word whose little-endian bytes start at `at`.
pub(crate) fn read_word32(b: &[u8], at: usize) -> (r: u32)
    requires
        at + 4 <= b@.len(),
    ensures
        le_word32(r) == b@.subrange(at as int, at + 4),
{
    proof {
        vstd::bytes::lemma_auto_spec_u32_to_from_le_bytes();
    }
    let blen = b.len();
    assert(at + 4 <= blen);
    let s = &b[at..at + 4];
    vstd::bytes::u32_from_le_bytes(s)
}

/// The offset in a row of each queried field.
pub fn field_offsets<const N: usize>(query: &FieldsMeta<N>) -> (r: FieldsValue<N>)
    ensures
        forall|i: int|
            0 <= i < N ==> r.spec_data()[i] == (#[trigger] query.fields@[i]).spec_begin(),
{
    let mut values: [usize; N] = [0;N];
    let mut i: usize = 0;
    while i < N
        invariant
            0 <= i <= N,
            values@.len() == N,
            forall|j: int| 0 <= j < i ==> values@[j] == (#[trigger] query.fields@[j]).spec_begin(),
        decreases N - i,
    {
        values[i] = query.fields[i].begin() as usize;
        i += 1;
    }
    FieldsValue::new(values)
}

/// The primary key of an order: warehouse, district, customer and order id, from the high
/// bits down; the sum must fit in 64 bits.
pub open spec fn order_key(w_id: u64, d_id: u64, c_id: u64, o_id: u64) -> int {
    (w_id << 48u64) + (d_id << 32u64) + (c_id << 16u64) + o_id
}

/// The primary key of a new order: warehouse, district, order and customer id, from the high
/// bits down; the sum must fit in 64 bits.
pub open spec fn new_order_key(w_id: u64, d_id: u64, o_id: u64, c_id: u64) -> int {
    (w_id << 48u64) + (d_id << 32u64) + (o_id << 16u64) + c_id
}

/// The primary key of a stock entry: warehouse above item.
pub open spec fn stock_key(w_id: u64, i_id: u64) -> int {
    (w_id << 32u64) + i_id
}

/// A row of the ORDER table, in its layout order: eight 64-bit words.
#[derive(Debug, Clone, Copy, PartialEq, Eq, Structural)]
pub struct OrderTuple {
    pub o_id: u64,
    pub o_c_id: u64,
    pub o_entry_d: u64,
    pub o_carrier_id: u64,
    pub o_d_id: u64,
    pub o_w_id: u64,
    pub o_ol_cnt: u64,
    pub o_all_local: u64,
}

impl View for OrderTuple {
    type V = Seq<u64>;

    /// The eight words of the row, in layout order.
    open spec fn view(&self) -> Seq<u64> {
        seq![
            self.o_id,
            self.o_c_id,
            self.o_entry_d,
            self.o_carrier_id,
            self.o_d_id,
            self.o_w_id,
            self.o_ol_cnt,
            self.o_all_local,
        ]
    }
}

impl OrderTuple {
    /// Write the word at `idx` of the layout.
    fn set_word(&mut self, idx: usize, w: u64)
        requires
            idx < 8,
        ensures
            final(self)@ == old(self)@.update(idx as int, w),
    {
        match idx {
            0 => self.o_id = w,
            1 => self.o_c_id = w,
            2 => self.o_entry_d = w,
            3 => self.o_carrier_id = w,
            4 => self.o_d_id = w,
            5 => self.o_w_id = w,
            6 => self.o_ol_cnt = w,
            _ => self.o_all_local = w,
        }
        assert(self@ =~= old(self)@.update(idx as int, w));
    }

    pub fn make_key(o_w_id: u64, o_d_id: u64, o_c_id: u64, o_id: u64) -> (r: usize)
        requires
            order_key(o_w_id, o_d_id, o_c_id, o_id) <= u64::MAX,
        ensures
            r == order_key(o_w_id, o_d_id, o_c_id, o_id) as usize,
    {
        ((o_w_id << 48) + (o_d_id << 32) + (o_c_id << 16) + o_id) as usize
    }
}

impl Tuple for OrderTuple {
    /// Each field of the update must be one aligned word of the row, and the data must hold
    /// a word for each of them.
    open spec fn update_ok(fields: Seq<Field>, data_len: nat) -> bool {
        &&& word_fields(fields, 8)
        &&& data_len >= 8 * fields.len()
        &&& fields.len() <= usize::MAX / 8
    }

    open spec fn spec_update(v: Seq<u64>, fields: Seq<Field>, data: Seq<u8>) -> Seq<u64> {
        updated_words_below(v, fields, data, fields.len() as int, 64)
    }

    fn update<const N: usize>(&mut self, query: UpdateQuery<'_, N>) {
        let ghost fields = query.spec_meta().fields@;
        let ghost bytes = query.spec_data();
        proof {
            lemma_word_fields_prefix(fields, 8, N as int);
            assert(query.spec_meta().wf()) by {
                assert forall|i: int| 0 <= i < fields.len() implies (#[trigger] fields[i]).wf() by {
                    assert(fields[i].spec_size() == 8);
                }
            }
        }
        let mut it = query.iter();
        let mut k: usize = 0;
        while k < N
            invariant
                0 <= k <= N,
                it.wf(),
                it.spec_query() == query,
                it.spec_cur_idx() == k,
                fields == query.spec_meta().fields@,
                bytes == query.spec_data(),
                bytes.len() >= 8 * N,
                word_fields(fields, 8),
                self@ == updated_words_below(old(self)@, fields, bytes, k as int, 64),
            decreases N - k,
        {
            let next = it.next();
            match next {
                Some((f, off)) => {
                    proof {
                        lemma_word_fields_prefix(fields, 8, k as int);
                        assert(fields[k as int].spec_begin() % 8 == 0);
                        assert(fields[k as int].spec_begin() as int / 8 < 8);
                    }
                    let word_bytes = &query.data()[off..off + 8];
                    let w = vstd::bytes::u64_from_le_bytes(word_bytes);
                    self.set_word((f.begin() / 8) as usize, w);
                    proof {
                        assert(word_bytes@ == bytes.subrange(off as int, off + 8));
                    }
                },
                None => {
                    proof {
                        assert(false);
                    }
                },
            }
            k += 1;
        }
    }

    /// The offset in the row of each queried field.
    fn to_query_values<const N: usize>(&self, query: &FieldsMeta<N>) -> (r: FieldsValue<N>)
        ensures
            forall|i: int|
                0 <= i < N ==> r.spec_data()[i] == (#[trigger] query.fields@[i]).spec_begin(),
    {
        let mut values: [usize; N] = [0;N];
        let mut i: usize = 0;
        while i < N
            invariant
                0 <= i <= N,
                values@.len() == N,
                forall|j: int|
                    0 <= j < i ==> values@[j] == (#[trigger] query.fields@[j]).spec_begin(),
            decreases N - i,
        {
            values[i] = query.fields[i].begin() as usize;
            i += 1;
        }
        FieldsValue::new(values)
    }
}

/// A row of the NEW-ORDER table.
#[derive(Debug, Clone, Copy, PartialEq, Eq, Structural)]
pub struct NewOrderTuple {
    pub no_o_id: u64,
    pub no_d_id: u64,
    pub no_w_id: u64,
}

impl NewOrderTuple {
    pub fn make_key(no_w_id: u64, no_d_id: u64, no_o_id: u64, c_id: u64) -> (r: usize)
        requires
            new_order_key(no_w_id, no_d_id, no_o_id, c_id) <= u64::MAX,
        ensures
            r == new_order_key(no_w_id, no_d_id, no_o_id, c_id) as usize,
    {
        ((no_w_id << 48) + (no_d_id << 32) + (no_o_id << 16) + c_id) as usize
    }

    /// The order id and the customer id of a new-order key: bits 16 to 31 and bits 0 to 15.
    pub fn o_c_id_from_key(key: usize) -> (r: (usize, usize))
        ensures
            r.0 == (key & 0x0000_0000_ffff_0000) >> 16usize,
            r.1 == key & 0x0000_0000_0000_ffff,
            r.0 < 0x1_0000,
            r.1 < 0x1_0000,
    {
        let o_id = (key & 0x0000_0000_ffff_0000) >> 16;
        let c_id = key & 0x0000_0000_0000_ffff;
        assert((key & 0xffff_0000usize) >> 16usize < 0x1_0000usize) by (bit_vector);
        assert(key & 0xffffusize < 0x1_0000usize) by (bit_vector);
        (o_id, c_id)
    }

    /// A new-order key gives back the order id and the customer id it was made of, when each
    /// fits in 16 bits.
    pub proof fn lemma_key_round_trip(no_w_id: u64, no_d_id: u64, no_o_id: u64, c_id: u64)
        requires
            new_order_key(no_w_id, no_d_id, no_o_id, c_id) <= u64::MAX,
            no_o_id < 0x1_0000,
            c_id < 0x1_0000,
        ensures
            ({
                let key = new_order_key(no_w_id, no_d_id, no_o_id, c_id) as usize;
                &&& (key & 0x0000_0000_ffff_0000) >> 16usize == no_o_id
                &&& key & 0x0000_0000_0000_ffff == c_id
            }),
    {
        let k: u64 = new_order_key(no_w_id, no_d_id, no_o_id, c_id) as u64;
        assert(k == (no_w_id << 48u64) + (no_d_id << 32u64) + (no_o_id << 16u64) + c_id);
        assert(((k as usize) & 0xffff_0000usize) >> 16usize == no_o_id && (k as usize) & 0xffffusize
            == c_id) by (bit_vector)
            requires
                k == (no_w_id << 48u64) + (no_d_id << 32u64) + (no_o_id << 16u64) + c_id,
                no_o_id < 0x1_0000u64,
                c_id < 0x1_0000u64,
        ;
    }
}

/// A row of the STOCK table.
#[derive(Debug, Clone, Copy, PartialEq, Eq)]
pub struct StockTuple {
    pub s_i_id: u64,
    pub s_w_id: u64,
    pub s_quantity: u64,
    pub s_ytd: u64,
    pub s_order_cnt: u64,
    pub s_remote_cnt: u64,
    pub s_data: FixedString<24>,
    pub s_dist01: FixedString<24>,
    pub s_dist02: FixedString<24>,
    pub s_dist03: FixedString<24>,
    pub s_dist04: FixedString<24>,
    pub s_dist05: FixedString<24>,
    pub s_dist06: FixedString<24>,
    pub s_dist07: FixedString<24>,
    pub s_dist08: FixedString<24>,
    pub s_dist09: FixedString<24>,
    pub s_dist10: FixedString<24>,
}

/// The number of bytes of a stock row.
pub const STOCK_ROW_LEN: usize = 312;

impl View for StockTuple {
    type V = Seq<u8>;

    /// The bytes of the row in its layout: the six counters as little-endian words, then
    /// the data and the ten district informations.
    open spec fn view(&self) -> Seq<u8> {
        le_word(self.s_i_id) + le_word(self.s_w_id) + le_word(self.s_quantity) + le_word(
            self.s_ytd,
        ) + le_word(self.s_order_cnt) + le_word(self.s_remote_cnt) + self.s_data@ + self.s_dist01@
            + self.s_dist02@ + self.s_dist03@ + self.s_dist04@ + self.s_dist05@ + self.s_dist06@
            + self.s_dist07@ + self.s_dist08@ + self.s_dist09@ + self.s_dist10@
    }
}

impl StockTuple {
    pub proof fn lemma_len(&self)
        ensures
            self@.len() == STOCK_ROW_LEN,
    {
        vstd::bytes::lemma_auto_spec_u64_to_from_le_bytes();
        self.s_data.lemma_len();
        self.s_dist01.lemma_len();
        self.s_dist02.lemma_len();
        self.s_dist03.lemma_len();
        self.s_dist04.lemma_len();
        self.s_dist05.lemma_len();
        self.s_dist06.lemma_len();
        self.s_dist07.lemma_len();
        self.s_dist08.lemma_len();
        self.s_dist09.lemma_len();
        self.s_dist10.lemma_len();
    }

    /// The bytes of the row.
    pub fn to_bytes(&self) -> (r: Vec<u8>)
        ensures
            r@ == self@,
    {
        let mut out: Vec<u8> = Vec::new();
        push_word(&mut out, self.s_i_id);
        push_word(&mut out, self.s_w_id);
        push_word(&mut out, self.s_quantity);
        push_word(&mut out, self.s_ytd);
        push_word(&mut out, self.s_order_cnt);
        push_word(&mut out, self.s_remote_cnt);
        push_bytes(&mut out, self.s_data.as_bytes());
        push_bytes(&mut out, self.s_dist01.as_bytes());
        push_bytes(&mut out, self.s_dist02.as_bytes());
        push_bytes(&mut out, self.s_dist03.as_bytes());
        push_bytes(&mut out, self.s_dist04.as_bytes());
        push_bytes(&mut out, self.s_dist05.as_bytes());
        push_bytes(&mut out, self.s_dist06.as_bytes());
        push_bytes(&mut out, self.s_dist07.as_bytes());
        push_bytes(&mut out, self.s_dist08.as_bytes());
        push_bytes(&mut out, self.s_dist09.as_bytes());
        push_bytes(&mut out, self.s_dist10.as_bytes());
        out
    }

    /// The row whose bytes are `b`.
    pub fn from_bytes(b: &[u8]) -> (r: Self)
        requires
            b@.len() == STOCK_ROW_LEN,
        ensures
            r@ == b@,
    {
        let r = StockTuple {
            s_i_id: read_word(b, 0),
            s_w_id: read_word(b, 8),
            s_quantity: read_word(b, 16),
            s_ytd: read_word(b, 24),
            s_order_cnt: read_word(b, 32),
            s_remote_cnt: read_word(b, 40),
            s_data: FixedString::from_bytes(&b[48..72]),
            s_dist01: FixedString::from_bytes(&b[72..96]),
            s_dist02: FixedString::from_bytes(&b[96..120]),
            s_dist03: FixedString::from_bytes(&b[120..144]),
            s_dist04: FixedString::from_bytes(&b[144..168]),
            s_dist05: FixedString::from_bytes(&b[168..192]),
            s_dist06: FixedString::from_bytes(&b[192..216]),
            s_dist07: FixedString::from_bytes(&b[216..240]),
            s_dist08: FixedString::from_bytes(&b[240..264]),
            s_dist09: FixedString::from_bytes(&b[264..288]),
            s_dist10: FixedString::from_bytes(&b[288..312]),
        };
        assert(r@ =~= b@);
        r
    }

    pub fn make_key(s_w_id: u64, s_i_id: u64) -> (r: usize)
        requires
            stock_key(s_w_id, s_i_id) <= u64::MAX,
        ensures
            r == stock_key(s_w_id, s_i_id) as usize,
    {
        ((s_w_id << 32) + s_i_id) as usize
    }
}

impl Tuple for StockTuple {
    /// Each field of the update must lie within the row, and the data must hold their values.
    open spec fn update_ok(fields: Seq<Field>, data_len: nat) -> bool {
        bytes_update_ok(fields, data_len, STOCK_ROW_LEN as int)
    }

    open spec fn spec_update(v: Seq<u8>, fields: Seq<Field>, data: Seq<u8>) -> Seq<u8> {
        updated_bytes(v, fields, data, fields.len() as int)
    }

    fn update<const N: usize>(&mut self, query: UpdateQuery<'_, N>) {
        proof {
            self.lemma_len();
        }
        let mut bytes = self.to_bytes();
        apply_update(&mut bytes, &query);
        *self = StockTuple::from_bytes(bytes.as_slice());
    }

    /// The offset in the row of each queried field.
    fn to_query_values<const N: usize>(&self, query: &FieldsMeta<N>) -> (r: FieldsValue<N>)
        ensures
            forall|i: int|
                0 <= i < N ==> r.spec_data()[i] == (#[trigger] query.fields@[i]).spec_begin(),
    {
        let mut values: [usize; N] = [0;N];
        let mut i: usize = 0;
        while i < N
            invariant
                0 <= i <= N,
                values@.len() == N,
                forall|j: int|
                    0 <= j < i ==> values@[j] == (#[trigger] query.fields@[j]).spec_begin(),
            decreases N - i,
        {
            values[i] = query.fields[i].begin() as usize;
            i += 1;
        }
        FieldsValue::new(values)
    }
}

/// A row of the WAREHOUSE table. The tax rate and the year-to-date balance are
/// doubles, held as their IEEE 754 bits.
#[derive(Debug, Clone, Copy, PartialEq, Eq)]
pub struct WarehouseTuple {
    pub w_id: u64,
    pub w_name: FixedString<10>,
    pub w_street1: FixedString<20>,
    pub w_street2: FixedString<20>,
    pub w_city: FixedString<20>,
    pub w_state: FixedString<2>,
    pub w_zip: u64,
    pub w_tax: u64,
    pub w_ytd: u64,
}

/// The number of bytes of a row of `WarehouseTuple`.
pub const WAREHOUSE_ROW_LEN: usize = 104;

impl View for WarehouseTuple {
    type V = Seq<u8>;

    /// The bytes of the row, field after field: the words little-endian.
    open spec fn view(&self) -> Seq<u8> {
        le_word(self.w_id)
            + self.w_name@
            + self.w_street1@
            + self.w_street2@
            + self.w_city@
            + self.w_state@
            + le_word(self.w_zip)
            + le_word(self.w_tax)
            + le_word(self.w_ytd)
    }
}

impl WarehouseTuple {
    pub proof fn lemma_len(&self)
        ensures
            self@.len() == WAREHOUSE_ROW_LEN,
    {
        vstd::bytes::lemma_auto_spec_u64_to_from_le_bytes();
        self.w_name.lemma_len();
        self.w_street1.lemma_len();
        self.w_street2.lemma_len();
        self.w_city.lemma_len();
        self.w_state.lemma_len();
    }

    /// The bytes of the row.
    pub fn to_bytes(&self) -> (r: Vec<u8>)
        ensures
            r@ == self@,
    {
        let mut out: Vec<u8> = Vec::new();
        push_word(&mut out, self.w_id);
        push_bytes(&mut out, self.w_name.as_bytes());
        push_bytes(&mut out, self.w_street1.as_bytes());
        push_bytes(&mut out, self.w_street2.as_bytes());
        push_bytes(&mut out, self.w_city.as_bytes());
        push_bytes(&mut out, self.w_state.as_bytes());
        push_word(&mut out, self.w_zip);
        push_word(&mut out, self.w_tax);
        push_word(&mut out, self.w_ytd);
        out
    }

    /// The row whose bytes are `b`.
    pub fn from_bytes(b: &[u8]) -> (r: Self)
        requires
            b@.len() == WAREHOUSE_ROW_LEN,
        ensures
            r@ == b@,
    {
        let r = WarehouseTuple {
            w_id: read_word(b, 0),
            w_name: FixedString::from_bytes(&b[8..18]),
            w_street1: FixedString::from_bytes(&b[18..38]),
            w_street2: FixedString::from_bytes(&b[38..58]),
            w_city: FixedString::from_bytes(&b[58..78]),
            w_state: FixedString::from_bytes(&b[78..80]),
            w_zip: read_word(b, 80),
            w_tax: read_word(b, 88),
            w_ytd: read_word(b, 96),
        };
        assert(r@ =~= b@);
        r
    }
}

impl Tuple for WarehouseTuple {
    /// Each field of the update must lie within the row, and the data must hold their values.
    open spec fn update_ok(fields: Seq<Field>, data_len: nat) -> bool {
        bytes_update_ok(fields, data_len, WAREHOUSE_ROW_LEN as int)
    }

    open spec fn spec_update(v: Seq<u8>, fields: Seq<Field>, data: Seq<u8>) -> Seq<u8> {
        updated_bytes(v, fields, data, fields.len() as int)
    }

    fn update<const N: usize>(&mut self, query: UpdateQuery<'_, N>) {
        proof {
            self.lemma_len();
        }
        let mut bytes = self.to_bytes();
        apply_update(&mut bytes, &query);
        *self = WarehouseTuple::from_bytes(bytes.as_slice());
    }

    /// The offset in the row of each queried field.
    fn to_query_values<const N: usize>(&self, query: &FieldsMeta<N>) -> (r: FieldsValue<N>) {
        field_offsets(query)
    }
}

/// A row of the DISTRICT table. The tax rate and the year-to-date balance are
/// doubles, held as their IEEE 754 bits.
#[derive(Debug, Clone, Copy, PartialEq, Eq)]
pub struct DistrictTuple {
    pub d_id: u64,
    pub d_w_id: u64,
    pub d_name: FixedString<10>,
    pub d_street1: FixedString<20>,
    pub d_street2: FixedString<20>,
    pub d_city: FixedString<20>,
    pub d_state: FixedString<2>,
    pub d_zip: u64,
    pub d_tax: u64,
    pub d_ytd: u64,
    pub d_next_o_id: u64,
}

/// The number of bytes of a row of `DistrictTuple`.
pub const DISTRICT_ROW_LEN: usize = 120;

impl View for DistrictTuple {
    type V = Seq<u8>;

    /// The bytes of the row, field after field: the words little-endian.
    open spec fn view(&self) -> Seq<u8> {
        le_word(self.d_id)
            + le_word(self.d_w_id)
            + self.d_name@
            + self.d_street1@
            + self.d_street2@
            + self.d_city@
            + self.d_state@
            + le_word(self.d_zip)
            + le_word(self.d_tax)
            + le_word(self.d_ytd)
            + le_word(self.d_next_o_id)
    }
}

impl DistrictTuple {
    pub proof fn lemma_len(&self)
        ensures
            self@.len() == DISTRICT_ROW_LEN,
    {
        vstd::bytes::lemma_auto_spec_u64_to_from_le_bytes();
        self.d_name.lemma_len();
        self.d_street1.lemma_len();
        self.d_street2.lemma_len();
        self.d_city.lemma_len();
        self.d_state.lemma_len();
    }

    /// The bytes of the row.
    pub fn to_bytes(&self) -> (r: Vec<u8>)
        ensures
            r@ == self@,
    {
        let mut out: Vec<u8> = Vec::new();
        push_word(&mut out, self.d_id);
        push_word(&mut out, self.d_w_id);
        push_bytes(&mut out, self.d_name.as_bytes());
        push_bytes(&mut out, self.d_street1.as_bytes());
        push_bytes(&mut out, self.d_street2.as_bytes());
        push_bytes(&mut out, self.d_city.as_bytes());
        push_bytes(&mut out, self.d_state.as_bytes());
        push_word(&mut out, self.d_zip);
        push_word(&mut out, self.d_tax);
        push_word(&mut out, self.d_ytd);
        push_word(&mut out, self.d_next_o_id);
        out
    }

    /// The row whose bytes are `b`.
    pub fn from_bytes(b: &[u8]) -> (r: Self)
        requires
            b@.len() == DISTRICT_ROW_LEN,
        ensures
            r@ == b@,
    {
        let r = DistrictTuple {
            d_id: read_word(b, 0),
            d_w_id: read_word(b, 8),
            d_name: FixedString::from_bytes(&b[16..26]),
            d_street1: FixedString::from_bytes(&b[26..46]),
            d_street2: FixedString::from_bytes(&b[46..66]),
            d_city: FixedString::from_bytes(&b[66..86]),
            d_state: FixedString::from_bytes(&b[86..88]),
            d_zip: read_word(b, 88),
            d_tax: read_word(b, 96),
            d_ytd: read_word(b, 104),
            d_next_o_id: read_word(b, 112),
        };
        assert(r@ =~= b@);
        r
    }
}

impl Tuple for DistrictTuple {
    /// Each field of the update must lie within the row, and the data must hold their values.
    open spec fn update_ok(fields: Seq<Field>, data_len: nat) -> bool {
        bytes_update_ok(fields, data_len, DISTRICT_ROW_LEN as int)
    }

    open spec fn spec_update(v: Seq<u8>, fields: Seq<Field>, data: Seq<u8>) -> Seq<u8> {
        updated_bytes(v, fields, data, fields.len() as int)
    }

    fn update<const N: usize>(&mut self, query: UpdateQuery<'_, N>) {
        proof {
            self.lemma_len();
        }
        let mut bytes = self.to_bytes();
        apply_update(&mut bytes, &query);
        *self = DistrictTuple::from_bytes(bytes.as_slice());
    }

    /// The offset in the row of each queried field.
    fn to_query_values<const N: usize>(&self, query: &FieldsMeta<N>) -> (r: FieldsValue<N>) {
        field_offsets(query)
    }
}

/// A row of the CUSTOMER table. The credit limit, the discount, the balance and the
/// year-to-date payment are doubles, held as their IEEE 754 bits.
#[derive(Debug, Clone, Copy, PartialEq, Eq)]
pub struct CustomerTuple {
    pub c_id: u64,
    pub c_first: FixedString<20>,
    pub c_middle: FixedString<2>,
    pub c_last: FixedString<16>,
    pub c_street1: FixedString<20>,
    pub c_street2: FixedString<20>,
    pub c_city: FixedString<20>,
    pub c_state: FixedString<2>,
    pub c_zip: u64,
    pub c_phone: FixedString<16>,
    pub c_since: u64,
    pub c_credit: FixedString<2>,
    pub c_credit_lim: u64,
    pub c_discount: u64,
    pub c_balance: u64,
    pub c_ytd_payment: u64,
    pub c_payment_cnt: u32,
    pub c_delivery_cnt: u32,
    pub c_w_id: u64,
    pub c_d_id: u64,
    pub c_data: FixedString<500>,
}

/// The number of bytes of a row of `CustomerTuple`.
pub const CUSTOMER_ROW_LEN: usize = 698;

impl View for CustomerTuple {
    type V = Seq<u8>;

    /// The bytes of the row, field after field: the words little-endian.
    open spec fn view(&self) -> Seq<u8> {
        le_word(self.c_id)
            + self.c_first@
            + self.c_middle@
            + self.c_last@
            + self.c_street1@
            + self.c_street2@
            + self.c_city@
            + self.c_state@
            + le_word(self.c_zip)
            + self.c_phone@
            + le_word(self.c_since)
            + self.c_credit@
            + le_word(self.c_credit_lim)
            + le_word(self.c_discount)
            + le_word(self.c_balance)
            + le_word(self.c_ytd_payment)
            + le_word32(self.c_payment_cnt)
            + le_word32(self.c_delivery_cnt)
            + le_word(self.c_w_id)
            + le_word(self.c_d_id)
            + self.c_data@
    }
}

impl CustomerTuple {
    pub proof fn lemma_len(&self)
        ensures
            self@.len() == CUSTOMER_ROW_LEN,
    {
        vstd::bytes::lemma_auto_spec_u64_to_from_le_bytes();
        vstd::bytes::lemma_auto_spec_u32_to_from_le_bytes();
        self.c_first.lemma_len();
        self.c_middle.lemma_len();
        self.c_last.lemma_len();
        self.c_street1.lemma_len();
        self.c_street2.lemma_len();
        self.c_city.lemma_len();
        self.c_state.lemma_len();
        self.c_phone.lemma_len();
        self.c_credit.lemma_len();
        self.c_data.lemma_len();
    }

    /// The bytes of the row.
    pub fn to_bytes(&self) -> (r: Vec<u8>)
        ensures
            r@ == self@,
    {
        let mut out: Vec<u8> = Vec::new();
        push_word(&mut out, self.c_id);
        push_bytes(&mut out, self.c_first.as_bytes());
        push_bytes(&mut out, self.c_middle.as_bytes());
        push_bytes(&mut out, self.c_last.as_bytes());
        push_bytes(&mut out, self.c_street1.as_bytes());
        push_bytes(&mut out, self.c_street2.as_bytes());
        push_bytes(&mut out, self.c_city.as_bytes());
        push_bytes(&mut out, self.c_state.as_bytes());
        push_word(&mut out, self.c_zip);
        push_bytes(&mut out, self.c_phone.as_bytes());
        push_word(&mut out, self.c_since);
        push_bytes(&mut out, self.c_credit.as_bytes());
        push_word(&mut out, self.c_credit_lim);
        push_word(&mut out, self.c_discount);
        push_word(&mut out, self.c_balance);
        push_word(&mut out, self.c_ytd_payment);
        push_word32(&mut out, self.c_payment_cnt);
        push_word32(&mut out, self.c_delivery_cnt);
        push_word(&mut out, self.c_w_id);
        push_word(&mut out, self.c_d_id);
        push_bytes(&mut out, self.c_data.as_bytes());
        out
    }

    /// The row whose bytes are `b`.
    pub fn from_bytes(b: &[u8]) -> (r: Self)
        requires
            b@.len() == CUSTOMER_ROW_LEN,
        ensures
            r@ == b@,
    {
        let r = CustomerTuple {
            c_id: read_word(b, 0),
            c_first: FixedString::from_bytes(&b[8..28]),
            c_middle: FixedString::from_bytes(&b[28..30]),
            c_last: FixedString::from_bytes(&b[30..46]),
            c_street1: FixedString::from_bytes(&b[46..66]),
            c_street2: FixedString::from_bytes(&b[66..86]),
            c_city: FixedString::from_bytes(&b[86..106]),
            c_state: FixedString::from_bytes(&b[106..108]),
            c_zip: read_word(b, 108),
            c_phone: FixedString::from_bytes(&b[116..132]),
            c_since: read_word(b, 132),
            c_credit: FixedString::from_bytes(&b[140..142]),
            c_credit_lim: read_word(b, 142),
            c_discount: read_word(b, 150),
            c_balance: read_word(b, 158),
            c_ytd_payment: read_word(b, 166),
            c_payment_cnt: read_word32(b, 174),
            c_delivery_cnt: read_word32(b, 178),
            c_w_id: read_word(b, 182),
            c_d_id: read_word(b, 190),
            c_data: FixedString::from_bytes(&b[198..698]),
        };
        assert(r@ =~= b@);
        r
    }
}

impl Tuple for CustomerTuple {
    /// Each field of the update must lie within the row, and the data must hold their values.
    open spec fn update_ok(fields: Seq<Field>, data_len: nat) -> bool {
        bytes_update_ok(fields, data_len, CUSTOMER_ROW_LEN as int)
    }

    open spec fn spec_update(v: Seq<u8>, fields: Seq<Field>, data: Seq<u8>) -> Seq<u8> {
        updated_bytes(v, fields, data, fields.len() as int)
    }

    fn update<const N: usize>(&mut self, query: UpdateQuery<'_, N>) {
        proof {
            self.lemma_len();
        }
        let mut bytes = self.to_bytes();
        apply_update(&mut bytes, &query);
        *self = CustomerTuple::from_bytes(bytes.as_slice());
    }

    /// The offset in the row of each queried field.
    fn to_query_values<const N: usize>(&self, query: &FieldsMeta<N>) -> (r: FieldsValue<N>) {
        field_offsets(query)
    }
}

/// A row of the HISTORY table. The amount is a double, held as its IEEE 754 bits.
#[derive(Debug, Clone, Copy, PartialEq, Eq)]
pub struct HistoryTuple {
    pub h_c_id: u64,
    pub h_c_d_id: u64,
    pub h_c_w_id: u64,
    pub h_d_id: u64,
    pub h_data: FixedString<24>,
    pub h_w_id: u64,
    pub h_date: u64,
    pub h_amount: u64,
}

/// The number of bytes of a row of `HistoryTuple`.
pub const HISTORY_ROW_LEN: usize = 80;

impl View for HistoryTuple {
    type V = Seq<u8>;

    /// The bytes of the row, field after field: the words little-endian.
    open spec fn view(&self) -> Seq<u8> {
        le_word(self.h_c_id)
            + le_word(self.h_c_d_id)
            + le_word(self.h_c_w_id)
            + le_word(self.h_d_id)
            + self.h_data@
            + le_word(self.h_w_id)
            + le_word(self.h_date)
            + le_word(self.h_amount)
    }
}

impl HistoryTuple {
    pub proof fn lemma_len(&self)
        ensures
            self@.len() == HISTORY_ROW_LEN,
    {
        vstd::bytes::lemma_auto_spec_u64_to_from_le_bytes();
        self.h_data.lemma_len();
    }

    /// The bytes of the row.
    pub fn to_bytes(&self) -> (r: Vec<u8>)
        ensures
            r@ == self@,
    {
        let mut out: Vec<u8> = Vec::new();
        push_word(&mut out, self.h_c_id);
        push_word(&mut out, self.h_c_d_id);
        push_word(&mut out, self.h_c_w_id);
        push_word(&mut out, self.h_d_id);
        push_bytes(&mut out, self.h_data.as_bytes());
        push_word(&mut out, self.h_w_id);
        push_word(&mut out, self.h_date);
        push_word(&mut out, self.h_amount);
        out
    }

    /// The row whose bytes are `b`.
    pub fn from_bytes(b: &[u8]) -> (r: Self)
        requires
            b@.len() == HISTORY_ROW_LEN,
        ensures
            r@ == b@,
    {
        let r = HistoryTuple {
            h_c_id: read_word(b, 0),
            h_c_d_id: read_word(b, 8),
            h_c_w_id: read_word(b, 16),
            h_d_id: read_word(b, 24),
            h_data: FixedString::from_bytes(&b[32..56]),
            h_w_id: read_word(b, 56),
            h_date: read_word(b, 64),
            h_amount: read_word(b, 72),
        };
        assert(r@ =~= b@);
        r
    }
}

impl Tuple for HistoryTuple {
    /// Each field of the update must lie within the row, and the data must hold their values.
    open spec fn update_ok(fields: Seq<Field>, data_len: nat) -> bool {
        bytes_update_ok(fields, data_len, HISTORY_ROW_LEN as int)
    }

    open spec fn spec_update(v: Seq<u8>, fields: Seq<Field>, data: Seq<u8>) -> Seq<u8> {
        updated_bytes(v, fields, data, fields.len() as int)
    }

    fn update<const N: usize>(&mut self, query: UpdateQuery<'_, N>) {
        proof {
            self.lemma_len();
        }
        let mut bytes = self.to_bytes();
        apply_update(&mut bytes, &query);
        *self = HistoryTuple::from_bytes(bytes.as_slice());
    }

    /// The offset in the row of each queried field.
    fn to_query_values<const N: usize>(&self, query: &FieldsMeta<N>) -> (r: FieldsValue<N>) {
        field_offsets(query)
    }
}

/// A row of the ORDER-LINE table. The amount is a double, held as its IEEE 754 bits.
#[derive(Debug, Clone, Copy, PartialEq, Eq)]
pub struct OrderLineTuple {
    pub ol_o_id: u64,
    pub ol_d_id: u64,
    pub ol_i_id: u64,
    pub ol_supply_w_id: u64,
    pub ol_quantity: u64,
    pub ol_delivery_d: u64,
    pub ol_amount: u64,
    pub ol_number: u64,
    pub ol_w_id: u64,
    pub ol_dist_info: FixedString<24>,
}

/// The number of bytes of a row of `OrderLineTuple`.
pub const ORDER_LINE_ROW_LEN: usize = 96;

impl View for OrderLineTuple {
    type V = Seq<u8>;

    /// The bytes of the row, field after field: the words little-endian.
    open spec fn view(&self) -> Seq<u8> {
        le_word(self.ol_o_id)
            + le_word(self.ol_d_id)
            + le_word(self.ol_i_id)
            + le_word(self.ol_supply_w_id)
            + le_word(self.ol_quantity)
            + le_word(self.ol_delivery_d)
            + le_word(self.ol_amount)
            + le_word(self.ol_number)
            + le_word(self.ol_w_id)
            + self.ol_dist_info@
    }
}

impl OrderLineTuple {
    pub proof fn lemma_len(&self)
        ensures
            self@.len() == ORDER_LINE_ROW_LEN,
    {
        vstd::bytes::lemma_auto_spec_u64_to_from_le_bytes();
        self.ol_dist_info.lemma_len();
    }

    /// The bytes of the row.
    pub fn to_bytes(&self) -> (r: Vec<u8>)
        ensures
            r@ == self@,
    {
        let mut out: Vec<u8> = Vec::new();
        push_word(&mut out, self.ol_o_id);
        push_word(&mut out, self.ol_d_id);
        push_word(&mut out, self.ol_i_id);
        push_word(&mut out, self.ol_supply_w_id);
        push_word(&mut out, self.ol_quantity);
        push_word(&mut out, self.ol_delivery_d);
        push_word(&mut out, self.ol_amount);
        push_word(&mut out, self.ol_number);
        push_word(&mut out, self.ol_w_id);
        push_bytes(&mut out, self.ol_dist_info.as_bytes());
        out
    }

    /// The row whose bytes are `b`.
    pub fn from_bytes(b: &[u8]) -> (r: Self)
        requires
            b@.len() == ORDER_LINE_ROW_LEN,
        ensures
            r@ == b@,
    {
        let r = OrderLineTuple {
            ol_o_id: read_word(b, 0),
            ol_d_id: read_word(b, 8),
            ol_i_id: read_word(b, 16),
            ol_supply_w_id: read_word(b, 24),
            ol_quantity: read_word(b, 32),
            ol_delivery_d: read_word(b, 40),
            ol_amount: read_word(b, 48),
            ol_number: read_word(b, 56),
            ol_w_id: read_word(b, 64),
            ol_dist_info: FixedString::from_bytes(&b[72..96]),
        };
        assert(r@ =~= b@);
        r
    }
}

impl Tuple for OrderLineTuple {
    /// Each field of the update must lie within the row, and the data must hold their values.
    open spec fn update_ok(fields: Seq<Field>, data_len: nat) -> bool {
        bytes_update_ok(fields, data_len, ORDER_LINE_ROW_LEN as int)
    }

    open spec fn spec_update(v: Seq<u8>, fields: Seq<Field>, data: Seq<u8>) -> Seq<u8> {
        updated_bytes(v, fields, data, fields.len() as int)
    }

    fn update<const N: usize>(&mut self, query: UpdateQuery<'_, N>) {
        proof {
            self.lemma_len();
        }
        let mut bytes = self.to_bytes();
        apply_update(&mut bytes, &query);
        *self = OrderLineTuple::from_bytes(bytes.as_slice());
    }

    /// The offset in the row of each queried field.
    fn to_query_values<const N: usize>(&self, query: &FieldsMeta<N>) -> (r: FieldsValue<N>) {
        field_offsets(query)
    }
}

/// A row of the ITEM table. The price is a double, held as its IEEE 754 bits.
#[derive(Debug, Clone, Copy, PartialEq, Eq)]
pub struct ItemTuple {
    pub i_id: u64,
    pub i_im_id: u64,
    pub i_price: u64,
    pub i_name: FixedString<24>,
    pub i_data: FixedString<50>,
}

/// The number of bytes of a row of `ItemTuple`.
pub const ITEM_ROW_LEN: usize = 98;

impl View for ItemTuple {
    type V = Seq<u8>;

    /// The bytes of the row, field after field: the words little-endian.
    open spec fn view(&self) -> Seq<u8> {
        le_word(self.i_id)
            + le_word(self.i_im_id)
            + le_word(self.i_price)
            + self.i_name@
            + self.i_data@
    }
}

impl ItemTuple {
    pub proof fn lemma_len(&self)
        ensures
            self@.len() == ITEM_ROW_LEN,
    {
        vstd::bytes::lemma_auto_spec_u64_to_from_le_bytes();
        self.i_name.lemma_len();
        self.i_data.lemma_len();
    }

    /// The bytes of the row.
    pub fn to_bytes(&self) -> (r: Vec<u8>)
        ensures
            r@ == self@,
    {
        let mut out: Vec<u8> = Vec::new();
        push_word(&mut out, self.i_id);
        push_word(&mut out, self.i_im_id);
        push_word(&mut out, self.i_price);
        push_bytes(&mut out, self.i_name.as_bytes());
        push_bytes(&mut out, self.i_data.as_bytes());
        out
    }

    /// The row whose bytes are `b`.
    pub fn from_bytes(b: &[u8]) -> (r: Self)
        requires
            b@.len() == ITEM_ROW_LEN,
        ensures
            r@ == b@,
    {
        let r = ItemTuple {
            i_id: read_word(b, 0),
            i_im_id: read_word(b, 8),
            i_price: read_word(b, 16),
            i_name: FixedString::from_bytes(&b[24..48]),
            i_data: FixedString::from_bytes(&b[48..98]),
        };
        assert(r@ =~= b@);
        r
    }
}

impl Tuple for ItemTuple {
    /// Each field of the update must lie within the row, and the data must hold their values.
    open spec fn update_ok(fields: Seq<Field>, data_len: nat) -> bool {
        bytes_update_ok(fields, data_len, ITEM_ROW_LEN as int)
    }

    open spec fn spec_update(v: Seq<u8>, fields: Seq<Field>, data: Seq<u8>) -> Seq<u8> {
        updated_bytes(v, fields, data, fields.len() as int)
    }

    fn update<const N: usize>(&mut self, query: UpdateQuery<'_, N>) {
        proof {
            self.lemma_len();
        }
        let mut bytes = self.to_bytes();
        apply_update(&mut bytes, &query);
        *self = ItemTuple::from_bytes(bytes.as_slice());
    }

    /// The offset in the row of each queried field.
    fn to_query_values<const N: usize>(&self, query: &FieldsMeta<N>) -> (r: FieldsValue<N>) {
        field_offsets(query)
    }
}


/// The primary key of a district: warehouse above district.
pub open spec fn district_key(w_id: u64, d_id: u64) -> int {
    (w_id << 48u64) + d_id
}

/// The primary key of a customer: warehouse, district and customer id, from the high bits
/// down.
pub open spec fn customer_key(w_id: u64, d_id: u64, c_id: u64) -> int {
    (w_id << 48u64) + (d_id << 32u64) + c_id
}

/// The key of a customer in the last-name index: warehouse, district, last-name seed and
/// customer id, sixteen bits each.
pub open spec fn last_name_key(w_id: u16, d_id: u16, last_name: u16, c_id: u16) -> int {
    w_id * 0x1_0000_0000_0000 + d_id * 0x1_0000_0000 + last_name * 0x1_0000 + c_id
}

/// The primary key of an order line: warehouse from bit 48, district from bit 40, order
/// from bit 20 and item id below, as 64-bit words.
pub open spec fn order_line_key(w_id: u64, d_id: u64, o_id: u64, i_id: u64) -> int {
    (w_id << 48u64) + (d_id << 40u64) + (o_id << 20u64) + i_id
}

impl DistrictTuple {
    pub fn make_key(w_id: u64, d_id: u64) -> (r: usize)
        requires
            district_key(w_id, d_id) <= u64::MAX,
        ensures
            r == district_key(w_id, d_id) as usize,
    {
        ((w_id << 48) + d_id) as usize
    }
}

impl CustomerTuple {
    pub fn make_key(w_id: u64, d_id: u64, c_id: u64) -> (r: usize)
        requires
            customer_key(w_id, d_id, c_id) <= u64::MAX,
        ensures
            r == customer_key(w_id, d_id, c_id) as usize,
    {
        ((w_id << 48) + (d_id << 32) + c_id) as usize
    }

    /// The key of a customer in the last-name index; it always fits in 64 bits.
    pub fn idx_key_lastname(w_id: u16, d_id: u16, last_name: u16, c_id: u16) -> (r: usize)
        ensures
            r == last_name_key(w_id, d_id, last_name, c_id) as usize,
    {
        let w = w_id as u64;
        let d = d_id as u64;
        let l = last_name as u64;
        let c = c_id as u64;
        assert((w << 48u64) == w * 0x1_0000_0000_0000 && (d << 32u64) == d * 0x1_0000_0000 && (l
            << 16u64) == l * 0x1_0000) by (bit_vector)
            requires
                w < 0x1_0000,
                d < 0x1_0000,
                l < 0x1_0000,
        ;
        let v = (w << 48) + (d << 32) + (l << 16) + c;
        v as usize
    }
}

impl OrderLineTuple {
    /// The item id takes the low 20 bits: it is wider than 16 bits.
    pub fn make_key(ol_w_id: usize, ol_d_id: usize, ol_o_id: usize, ol_i_id: usize) -> (r: usize)
        requires
            order_line_key(ol_w_id as u64, ol_d_id as u64, ol_o_id as u64, ol_i_id as u64)
                <= u64::MAX,
        ensures
            r == order_line_key(ol_w_id as u64, ol_d_id as u64, ol_o_id as u64, ol_i_id as u64)
                as usize,
    {
        (((ol_w_id as u64) << 48) + ((ol_d_id as u64) << 40) + ((ol_o_id as u64) << 20)
            + ol_i_id as u64) as usize
    }
}

impl ItemTuple {
    pub fn make_key(i_id: u64) -> (r: usize)
        ensures
            r == i_id as usize,
    {
        i_id as usize
    }
}


/// The next order id of a district row.
pub open spec fn district_next_o_id(d: Seq<u8>) -> u64 {
    word64_at(d, 112)
}

/// The item id of an order-line row.
pub open spec fn order_line_item(ol: Seq<u8>) -> u64 {
    word64_at(ol, 16)
}

/// The quantity of a stock row.
pub open spec fn stock_quantity(s: Seq<u8>) -> u64 {
    word64_at(s, 16)
}

impl DistrictTuple {
    pub proof fn lemma_next_o_id(&self)
        ensures
            district_next_o_id(self@) == self.d_next_o_id,
    {
        vstd::bytes::lemma_auto_spec_u64_to_from_le_bytes();
        self.lemma_len();
        self.d_name.lemma_len();
        self.d_street1.lemma_len();
        self.d_street2.lemma_len();
        self.d_city.lemma_len();
        self.d_state.lemma_len();
        assert(self@.subrange(112, 120) =~= le_word(self.d_next_o_id));
        lemma_word_at(self@, 112, self.d_next_o_id);
    }
}

impl OrderLineTuple {
    pub proof fn lemma_item(&self)
        ensures
            order_line_item(self@) == self.ol_i_id,
    {
        vstd::bytes::lemma_auto_spec_u64_to_from_le_bytes();
        self.lemma_len();
        assert(self@.subrange(16, 24) =~= le_word(self.ol_i_id));
        lemma_word_at(self@, 16, self.ol_i_id);
    }
}

impl StockTuple {
    pub proof fn lemma_quantity(&self)
        ensures
            stock_quantity(self@) == self.s_quantity,
    {
        vstd::bytes::lemma_auto_spec_u64_to_from_le_bytes();
        self.lemma_len();
        assert(self@.subrange(16, 24) =~= le_word(self.s_quantity));
        lemma_word_at(self@, 16, self.s_quantity);
    }
}


/// The id of a customer row.
pub open spec fn customer_c_id(c: Seq<u8>) -> u64 {
    word64_at(c, 0)
}

impl CustomerTuple {
    pub proof fn lemma_c_id(&self)
        ensures
            customer_c_id(self@) == self.c_id,
    {
        vstd::bytes::lemma_auto_spec_u64_to_from_le_bytes();
        self.lemma_len();
        assert(self@.subrange(0, 8) =~= le_word(self.c_id));
        lemma_word_at(self@, 0, self.c_id);
    }
}


/// The amount (as the bits of a double) of an order-line row.
pub open spec fn order_line_amount(ol: Seq<u8>) -> u64 {
    word64_at(ol, 48)
}

/// The delivery date of an order-line row.
pub open spec fn order_line_delivery_d(ol: Seq<u8>) -> u64 {
    word64_at(ol, 40)
}

/// The balance (as the bits of a double) of a customer row.
pub open spec fn customer_balance(c: Seq<u8>) -> u64 {
    word64_at(c, 158)
}

/// The number of deliveries of a customer row.
pub open spec fn customer_delivery_cnt(c: Seq<u8>) -> u32 {
    vstd::bytes::spec_u32_from_le_bytes(c.subrange(178, 182))
}

/// The bytes at `off` of a row written with the bytes of `x`.
pub proof fn lemma_overwrite_word(v: Seq<u8>, off: int, x: u64)
    requires
        0 <= off,
        off + 8 <= v.len(),
    ensures
        overwrite(v, off, le_word(x)).len() == v.len(),
        word64_at(overwrite(v, off, le_word(x)), off) == x,
        forall|o: int|
            0 <= o && o + 8 <= v.len() && (o + 8 <= off || off + 8 <= o) ==> #[trigger] word64_at(
                overwrite(v, off, le_word(x)),
                o,
            ) == word64_at(v, o),
{
    vstd::bytes::lemma_auto_spec_u64_to_from_le_bytes();
    let w = overwrite(v, off, le_word(x));
    assert(w.subrange(off, off + 8) =~= le_word(x));
    assert forall|o: int|
        0 <= o && o + 8 <= v.len() && (o + 8 <= off || off + 8 <= o) implies #[trigger] word64_at(
            w,
            o,
        ) == word64_at(v, o) by {
        assert(w.subrange(o, o + 8) =~= v.subrange(o, o + 8));
    }
}

/// A one-field update of a byte row with the bytes of `x`: the row with those bytes written
/// over the field.
pub proof fn lemma_word_update(v: Seq<u8>, f: Field, x: u64)
    requires
        f.spec_size() == 8,
        f.spec_begin() + 8 <= v.len(),
    ensures
        updated_bytes(v, seq![f], le_word(x), 1) == overwrite(v, f.spec_begin() as int, le_word(x)),
{
    vstd::bytes::lemma_auto_spec_u64_to_from_le_bytes();
    let fs = seq![f];
    assert(fs[0] == f);
    assert(prefix_size(fs, 0) == 0);
    assert(updated_bytes(v, fs, le_word(x), 0) == v);
    assert(le_word(x).subrange(0, f.spec_size()) =~= le_word(x));
    assert(updated_bytes(v, fs, le_word(x), 1) == overwrite(
        updated_bytes(v, fs, le_word(x), 0),
        fs[0].spec_begin() as int,
        le_word(x).subrange(prefix_size(fs, 0), prefix_size(fs, 0) + fs[0].spec_size()),
    ));
}

/// An update that writes the word `x` over the field `f` of a row.
pub fn word_update_data(x: u64) -> (r: Vec<u8>)
    ensures
        r@ == le_word(x),
        r@.len() == 8,
{
    proof {
        vstd::bytes::lemma_auto_spec_u64_to_from_le_bytes();
    }
    vstd::bytes::u64_to_le_bytes(x)
}


impl OrderLineTuple {
    pub proof fn lemma_amount(&self)
        ensures
            order_line_amount(self@) == self.ol_amount,
    {
        vstd::bytes::lemma_auto_spec_u64_to_from_le_bytes();
        self.lemma_len();
        assert(self@.subrange(48, 56) =~= le_word(self.ol_amount));
        lemma_word_at(self@, 48, self.ol_amount);
    }
}

/// Writing the same bytes twice at the same place is writing them once.
pub proof fn lemma_overwrite_twice(v: Seq<u8>, off: int, src: Seq<u8>)
    requires
        0 <= off,
        off + src.len() <= v.len(),
    ensures
        overwrite(overwrite(v, off, src), off, src) == overwrite(v, off, src),
{
    assert(overwrite(overwrite(v, off, src), off, src) =~= overwrite(v, off, src));
}


/// A one-field update of a byte row: the row with the update's data written over the field.
pub proof fn lemma_field_update(v: Seq<u8>, f: Field, data: Seq<u8>)
    requires
        f.spec_size() == data.len(),
        f.spec_begin() + data.len() <= v.len(),
    ensures
        updated_bytes(v, seq![f], data, 1) == overwrite(v, f.spec_begin() as int, data),
{
    let fs = seq![f];
    assert(fs[0] == f);
    assert(prefix_size(fs, 0) == 0);
    assert(updated_bytes(v, fs, data, 0) == v);
    assert(data.subrange(0, f.spec_size()) =~= data);
    assert(updated_bytes(v, fs, data, 1) == overwrite(
        updated_bytes(v, fs, data, 0),
        fs[0].spec_begin() as int,
        data.subrange(prefix_size(fs, 0), prefix_size(fs, 0) + fs[0].spec_size()),
    ));
}

/// The data of an update that writes the 32-bit word `x`.
pub fn word32_update_data(x: u32) -> (r: Vec<u8>)
    ensures
        r@ == le_word32(x),
        r@.len() == 4,
{
    proof {
        vstd::bytes::lemma_auto_spec_u32_to_from_le_bytes();
    }
    vstd::bytes::u32_to_le_bytes(x)
}

impl CustomerTuple {
    pub proof fn lemma_delivery(&self)
        ensures
            customer_balance(self@) == self.c_balance,
            customer_delivery_cnt(self@) == self.c_delivery_cnt,
            self@.len() == CUSTOMER_ROW_LEN,
    {
        vstd::bytes::lemma_auto_spec_u64_to_from_le_bytes();
        vstd::bytes::lemma_auto_spec_u32_to_from_le_bytes();
        self.lemma_len();
        self.c_first.lemma_len();
        self.c_middle.lemma_len();
        self.c_last.lemma_len();
        self.c_street1.lemma_len();
        self.c_street2.lemma_len();
        self.c_city.lemma_len();
        self.c_state.lemma_len();
        self.c_phone.lemma_len();
        self.c_credit.lemma_len();
        self.c_data.lemma_len();
        assert(self@.subrange(158, 166) =~= le_word(self.c_balance));
        lemma_word_at(self@, 158, self.c_balance);
        assert(self@.subrange(178, 182) =~= le_word32(self.c_delivery_cnt));
    }
}


/// The price (as the bits of a double) of an item row.
pub open spec fn item_price(i: Seq<u8>) -> u64 {
    word64_at(i, 16)
}

impl ItemTuple {
    pub proof fn lemma_price(&self)
        ensures
            item_price(self@) == self.i_price,
    {
        vstd::bytes::lemma_auto_spec_u64_to_from_le_bytes();
        self.lemma_len();
        assert(self@.subrange(16, 24) =~= le_word(self.i_price));
        lemma_word_at(self@, 16, self.i_price);
    }
}


/// The year-to-date quantity of a stock row.
pub open spec fn stock_ytd(s: Seq<u8>) -> u64 {
    word64_at(s, 24)
}

/// The number of orders of a stock row.
pub open spec fn stock_order_cnt(s: Seq<u8>) -> u64 {
    word64_at(s, 32)
}

/// The number of remote orders of a stock row.
pub open spec fn stock_remote_cnt(s: Seq<u8>) -> u64 {
    word64_at(s, 40)
}

/// The tenth district information of a stock row.
pub open spec fn stock_dist10(s: Seq<u8>) -> Seq<u8> {
    s.subrange(288, 312)
}

impl StockTuple {
    pub proof fn lemma_words(&self)
        ensures
            self@.len() == STOCK_ROW_LEN,
            stock_quantity(self@) == self.s_quantity,
            stock_ytd(self@) == self.s_ytd,
            stock_order_cnt(self@) == self.s_order_cnt,
            stock_remote_cnt(self@) == self.s_remote_cnt,
            stock_dist10(self@) == self.s_dist10@,
    {
        vstd::bytes::lemma_auto_spec_u64_to_from_le_bytes();
        self.lemma_len();
        self.s_data.lemma_len();
        self.s_dist01.lemma_len();
        self.s_dist02.lemma_len();
        self.s_dist03.lemma_len();
        self.s_dist04.lemma_len();
        self.s_dist05.lemma_len();
        self.s_dist06.lemma_len();
        self.s_dist07.lemma_len();
        self.s_dist08.lemma_len();
        self.s_dist09.lemma_len();
        self.s_dist10.lemma_len();
        assert(self@.subrange(16, 24) =~= le_word(self.s_quantity));
        lemma_word_at(self@, 16, self.s_quantity);
        assert(self@.subrange(24, 32) =~= le_word(self.s_ytd));
        lemma_word_at(self@, 24, self.s_ytd);
        assert(self@.subrange(32, 40) =~= le_word(self.s_order_cnt));
        lemma_word_at(self@, 32, self.s_order_cnt);
        assert(self@.subrange(40, 48) =~= le_word(self.s_remote_cnt));
        lemma_word_at(self@, 40, self.s_remote_cnt);
        assert(self@.subrange(288, 312) =~= self.s_dist10@);
    }
}

/// The quantity of a stock row after a line takes `qty` from it: what is left, or that plus
/// 91 when fewer than 10 would be left (counted as a 64-bit signed number).
pub open spec fn stock_left(q: u64, qty: u64) -> u64 {
    let left = (q - qty) as u64;
    if (left as i64) >= 10 {
        left
    } else {
        ((left as i64) + 91) as u64
    }
}

/// A stock row after a line of a new order takes `qty` from it: the quantity left, the
/// year-to-date quantity and the number of orders go up, and, for a line from another
/// warehouse, the number of remote orders.
pub open spec fn stock_after_line(s: Seq<u8>, qty: u64, remote: bool) -> Seq<u8> {
    let s1 = overwrite(s, 16, le_word(stock_left(stock_quantity(s), qty)));
    let s2 = overwrite(s1, 24, le_word((stock_ytd(s) + qty) as u64));
    let s3 = overwrite(s2, 32, le_word((stock_order_cnt(s) + 1) as u64));
    if remote {
        overwrite(s3, 40, le_word((stock_remote_cnt(s) + 1) as u64))
    } else {
        s3
    }
}

/// A line of a new order takes its quantity off its stock row: when at least 10 are left,
/// the new quantity plus the line's quantity is the old quantity; when fewer would be left,
/// 91 more are put back. The year-to-date quantity grows by the line's quantity, the order
/// count by one, the remote count by one exactly for a line from another warehouse, and the
/// rest of the row stays.
pub proof fn lemma_stock_line_takes_quantity(before: Seq<u8>, qty: u64, remote: bool, after: Seq<u8>)
    requires
        before.len() == STOCK_ROW_LEN,
        stock_line_ok(before, qty, remote),
        stock_quantity(before) - qty <= i64::MAX,
        after == stock_after_line(before, qty, remote),
    ensures
        after.len() == before.len(),
        stock_quantity(before) - qty >= 10 ==> stock_quantity(after) + qty == stock_quantity(before),
        stock_quantity(before) - qty < 10 ==> stock_quantity(after) == stock_quantity(before) - qty + 91,
        stock_ytd(after) == stock_ytd(before) + qty,
        stock_order_cnt(after) == stock_order_cnt(before) + 1,
        remote ==> stock_remote_cnt(after) == stock_remote_cnt(before) + 1,
        !remote ==> stock_remote_cnt(after) == stock_remote_cnt(before),
        after.subrange(0, 16) == before.subrange(0, 16),
        after.subrange(48, STOCK_ROW_LEN as int) == before.subrange(48, STOCK_ROW_LEN as int),
{
    let q = stock_quantity(before);
    let left = (q - qty) as u64;
    assert(left as i64 == left);
    let s1 = overwrite(before, 16, le_word(stock_left(q, qty)));
    lemma_overwrite_word(before, 16, stock_left(q, qty));
    let s2 = overwrite(s1, 24, le_word((stock_ytd(before) + qty) as u64));
    lemma_overwrite_word(s1, 24, (stock_ytd(before) + qty) as u64);
    let s3 = overwrite(s2, 32, le_word((stock_order_cnt(before) + 1) as u64));
    lemma_overwrite_word(s2, 32, (stock_order_cnt(before) + 1) as u64);
    assert(word64_at(s1, 24) == word64_at(before, 24));
    assert(word64_at(s1, 32) == word64_at(before, 32));
    assert(word64_at(s1, 40) == word64_at(before, 40));
    assert(word64_at(s2, 16) == word64_at(s1, 16));
    assert(word64_at(s2, 32) == word64_at(s1, 32));
    assert(word64_at(s2, 40) == word64_at(s1, 40));
    assert(word64_at(s3, 16) == word64_at(s2, 16));
    assert(word64_at(s3, 24) == word64_at(s2, 24));
    assert(word64_at(s3, 40) == word64_at(s2, 40));
    vstd::bytes::lemma_auto_spec_u64_to_from_le_bytes();
    assert(s3.subrange(0, 16) =~= before.subrange(0, 16));
    assert(s3.subrange(48, STOCK_ROW_LEN as int) =~= before.subrange(48, STOCK_ROW_LEN as int));
    if remote {
        let s4 = overwrite(s3, 40, le_word((stock_remote_cnt(before) + 1) as u64));
        lemma_overwrite_word(s3, 40, (stock_remote_cnt(before) + 1) as u64);
        assert(word64_at(s4, 16) == word64_at(s3, 16));
        assert(word64_at(s4, 24) == word64_at(s3, 24));
        assert(word64_at(s4, 32) == word64_at(s3, 32));
        assert(s4.subrange(0, 16) =~= before.subrange(0, 16));
        assert(s4.subrange(48, STOCK_ROW_LEN as int) =~= before.subrange(48, STOCK_ROW_LEN as int));
    }
}

/// A stock row can take a line of `qty`: the quantity covers it and no counter overflows.
pub open spec fn stock_line_ok(s: Seq<u8>, qty: u64, remote: bool) -> bool {
    &&& stock_quantity(s) >= qty
    &&& stock_ytd(s) + qty <= u64::MAX
    &&& stock_order_cnt(s) + 1 <= u64::MAX
    &&& remote ==> stock_remote_cnt(s) + 1 <= u64::MAX
}


/// The name of a warehouse row.
pub open spec fn warehouse_name(w: Seq<u8>) -> Seq<u8> {
    w.subrange(8, 18)
}

/// The year-to-date balance (the bits of a double) of a warehouse row.
pub open spec fn warehouse_ytd(w: Seq<u8>) -> u64 {
    word64_at(w, 96)
}

/// The name of a district row.
pub open spec fn district_name(d: Seq<u8>) -> Seq<u8> {
    d.subrange(16, 26)
}

/// The year-to-date balance (the bits of a double) of a district row.
pub open spec fn district_ytd(d: Seq<u8>) -> u64 {
    word64_at(d, 104)
}

/// The middle name of a customer row.
pub open spec fn customer_middle(c: Seq<u8>) -> Seq<u8> {
    c.subrange(28, 30)
}

/// The credit of a customer row.
pub open spec fn customer_credit(c: Seq<u8>) -> Seq<u8> {
    c.subrange(140, 142)
}

/// The discount (the bits of a double) of a customer row.
pub open spec fn customer_discount(c: Seq<u8>) -> u64 {
    word64_at(c, 150)
}

/// The year-to-date payment (the bits of a double) of a customer row.
pub open spec fn customer_ytd_payment(c: Seq<u8>) -> u64 {
    word64_at(c, 166)
}

/// The number of payments of a customer row.
pub open spec fn customer_payment_cnt(c: Seq<u8>) -> u32 {
    vstd::bytes::spec_u32_from_le_bytes(c.subrange(174, 178))
}

/// The data of a customer row.
pub open spec fn customer_data(c: Seq<u8>) -> Seq<u8> {
    c.subrange(198, 698)
}

impl WarehouseTuple {
    pub proof fn lemma_payment(&self)
        ensures
            self@.len() == WAREHOUSE_ROW_LEN,
            warehouse_name(self@) == self.w_name@,
            warehouse_ytd(self@) == self.w_ytd,
    {
        vstd::bytes::lemma_auto_spec_u64_to_from_le_bytes();
        self.lemma_len();
        self.w_name.lemma_len();
        self.w_street1.lemma_len();
        self.w_street2.lemma_len();
        self.w_city.lemma_len();
        self.w_state.lemma_len();
        assert(self@.subrange(8, 18) =~= self.w_name@);
        assert(self@.subrange(96, 104) =~= le_word(self.w_ytd));
        lemma_word_at(self@, 96, self.w_ytd);
    }
}

impl DistrictTuple {
    pub proof fn lemma_payment(&self)
        ensures
            self@.len() == DISTRICT_ROW_LEN,
            district_name(self@) == self.d_name@,
            district_ytd(self@) == self.d_ytd,
    {
        vstd::bytes::lemma_auto_spec_u64_to_from_le_bytes();
        self.lemma_len();
        self.d_name.lemma_len();
        self.d_street1.lemma_len();
        self.d_street2.lemma_len();
        self.d_city.lemma_len();
        self.d_state.lemma_len();
        assert(self@.subrange(16, 26) =~= self.d_name@);
        assert(self@.subrange(104, 112) =~= le_word(self.d_ytd));
        lemma_word_at(self@, 104, self.d_ytd);
    }
}

impl CustomerTuple {
    pub proof fn lemma_payment(&self)
        ensures
            self@.len() == CUSTOMER_ROW_LEN,
            customer_middle(self@) == self.c_middle@,
            customer_credit(self@) == self.c_credit@,
            customer_discount(self@) == self.c_discount,
            customer_balance(self@) == self.c_balance,
            customer_ytd_payment(self@) == self.c_ytd_payment,
            customer_payment_cnt(self@) == self.c_payment_cnt,
            customer_data(self@) == self.c_data@,
    {
        vstd::bytes::lemma_auto_spec_u64_to_from_le_bytes();
        vstd::bytes::lemma_auto_spec_u32_to_from_le_bytes();
        self.lemma_len();
        self.c_first.lemma_len();
        self.c_middle.lemma_len();
        self.c_last.lemma_len();
        self.c_street1.lemma_len();
        self.c_street2.lemma_len();
        self.c_city.lemma_len();
        self.c_state.lemma_len();
        self.c_phone.lemma_len();
        self.c_credit.lemma_len();
        self.c_data.lemma_len();
        assert(self@.subrange(28, 30) =~= self.c_middle@);
        assert(self@.subrange(140, 142) =~= self.c_credit@);
        assert(self@.subrange(150, 158) =~= le_word(self.c_discount));
        lemma_word_at(self@, 150, self.c_discount);
        assert(self@.subrange(158, 166) =~= le_word(self.c_balance));
        lemma_word_at(self@, 158, self.c_balance);
        assert(self@.subrange(166, 174) =~= le_word(self.c_ytd_payment));
        lemma_word_at(self@, 166, self.c_ytd_payment);
        assert(self@.subrange(174, 178) =~= le_word32(self.c_payment_cnt));
        assert(self@.subrange(198, 698) =~= self.c_data@);
    }
}

impl HistoryTuple {
    /// The first 48 bytes of the row: the four ids, then the start of the data.
    pub proof fn lemma_prefix(&self)
        ensures
            self@.len() == HISTORY_ROW_LEN,
            self@.subrange(0, 48) == le_word(self.h_c_id) + le_word(self.h_c_d_id) + le_word(
                self.h_c_w_id,
            ) + le_word(self.h_d_id) + self.h_data@.subrange(0, 16),
    {
        vstd::bytes::lemma_auto_spec_u64_to_from_le_bytes();
        self.lemma_len();
        self.h_data.lemma_len();
        assert(self@.subrange(0, 48) =~= le_word(self.h_c_id) + le_word(self.h_c_d_id) + le_word(
            self.h_c_w_id,
        ) + le_word(self.h_d_id) + self.h_data@.subrange(0, 16));
    }
}

/// Left shifts of the key fields are multiplications by powers of two: a field below 2^16
/// shifted by 16, 20, 32, 40 or 48 bits, or one below 2^32 shifted by 32 bits, loses no bit
/// of a `u64`.
pub proof fn lemma_key_shifts()
    by (bit_vector)
    ensures
        forall|x: u64| x < 0x1_0000u64 ==> #[trigger] (x << 48u64) == x * 0x1_0000_0000_0000u64,
        forall|x: u64| x < 0x1_0000u64 ==> #[trigger] (x << 40u64) == x * 0x100_0000_0000u64,
        forall|x: u64| x < 0x1_0000_0000u64 ==> #[trigger] (x << 32u64) == x * 0x1_0000_0000u64,
        forall|x: u64| x < 0x1_0000u64 ==> #[trigger] (x << 20u64) == x * 0x10_0000u64,
        forall|x: u64| x < 0x1_0000u64 ==> #[trigger] (x << 16u64) == x * 0x1_0000u64,
{
}

/// Within a district, new-order keys grow with the order id: the district's keys run from
/// that of order 0 and customer 0 to that of order and customer 65535, all within 64 bits,
/// and an older order has a smaller key, whatever the customers; so do `make_key`'s results
/// wherever these keys fit in `usize`.
pub proof fn lemma_new_order_key_order(w: u64, d: u64, o1: u64, c1: u64, o2: u64, c2: u64)
    requires
        w < 0x1_0000,
        d < 0x1_0000,
        o1 < 0x1_0000,
        c1 < 0x1_0000,
        o2 < 0x1_0000,
        c2 < 0x1_0000,
        o1 < o2,
    ensures
        new_order_key(w, d, 0xffff, 0xffff) <= u64::MAX,
        new_order_key(w, d, 0, 0) <= new_order_key(w, d, o1, c1),
        new_order_key(w, d, o1, c1) < new_order_key(w, d, o2, c2),
        new_order_key(w, d, o2, c2) <= new_order_key(w, d, 0xffff, 0xffff),
        new_order_key(w, d, 0xffff, 0xffff) <= usize::MAX ==> {
            &&& (new_order_key(w, d, 0, 0) as usize) <= (new_order_key(w, d, o1, c1) as usize)
            &&& (new_order_key(w, d, o1, c1) as usize) < (new_order_key(w, d, o2, c2) as usize)
            &&& (new_order_key(w, d, o2, c2) as usize) <= (new_order_key(w, d, 0xffff, 0xffff) as usize)
        },
{
    lemma_key_shifts();
    assert((0u64 << 16u64) == 0u64);
    assert((0xffffu64 << 16u64) == 0xffff_0000u64);
}

/// Stock keys tell their rows apart: for warehouse and item ids below 2^32, two keys are
/// equal exactly when both ids are; so are `make_key`'s results wherever the keys fit in
/// `usize`.
pub proof fn lemma_stock_key_injective(w1: u64, i1: u64, w2: u64, i2: u64)
    requires
        w1 < 0x1_0000_0000,
        i1 < 0x1_0000_0000,
        w2 < 0x1_0000_0000,
        i2 < 0x1_0000_0000,
    ensures
        stock_key(w1, i1) <= u64::MAX,
        stock_key(w2, i2) <= u64::MAX,
        (stock_key(w1, i1) == stock_key(w2, i2)) <==> (w1 == w2 && i1 == i2),
        stock_key(w1, i1) <= usize::MAX && stock_key(w2, i2) <= usize::MAX ==> (((stock_key(
            w1,
            i1,
        ) as usize) == (stock_key(w2, i2) as usize)) <==> (w1 == w2 && i1 == i2)),
{
    lemma_key_shifts();
    assert((w1 << 32u64) == w1 * 0x1_0000_0000u64);
    assert((w2 << 32u64) == w2 * 0x1_0000_0000u64);
    let a = w1 * 0x1_0000_0000int + i1;
    let b = w2 * 0x1_0000_0000int + i2;
    if a == b {
        if w1 < w2 {
            assert(w1 * 0x1_0000_0000int + 0x1_0000_0000int <= w2 * 0x1_0000_0000int) by (nonlinear_arith)
                requires
                    w1 < w2,
            ;
        } else if w2 < w1 {
            assert(w2 * 0x1_0000_0000int + 0x1_0000_0000int <= w1 * 0x1_0000_0000int) by (nonlinear_arith)
                requires
                    w2 < w1,
            ;
        }
    }
}
} // verus!

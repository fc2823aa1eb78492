use vstd::prelude::*;

use crate::attribute_cache::{QueryValue, Schema, Tuple, ValueRef};
use crate::query::{all_wf, prefix_size, Field, FieldsMeta, FieldsValue, UpdateQuery};

verus! {

broadcast use {vstd::array::group_array_axioms, crate::query::Field::lemma_spec_new};

/// Records that a test can make from a number.
pub trait TestGen: Sized {
    /// Whether `from_increasing` can take this seed without overflow.
    spec fn increasing_seed_ok(seed: usize) -> bool;

    fn from_fixed(seed: usize) -> Self;

    fn from_increasing(seed: usize) -> Self
        requires
            Self::increasing_seed_ok(seed),
    ;
}

/// The word of `bytes` at `off`, read as a little-endian machine word.
pub open spec fn word_at(bytes: Seq<u8>, off: int) -> usize {
    vstd::bytes::spec_u64_from_le_bytes(bytes.subrange(off, off + 8)) as usize
}

/// A test record: `TZ` machine words.
#[derive(Debug, Clone, PartialEq, Eq)]
pub struct TestItem<const TZ: usize> {
    data: [usize; TZ],
}

/// The words of a record after writing the fields `0..n` of an update, in order.
pub open spec fn updated_words(
    words: Seq<usize>,
    fields: Seq<Field>,
    bytes: Seq<u8>,
    n: int,
) -> Seq<usize>
    decreases n,
{
    if n <= 0 {
        words
    } else {
        let prev = updated_words(words, fields, bytes, n - 1);
        prev.update(
            (fields[n - 1].spec_begin() as int / 8) as int,
            word_at(bytes, prefix_size(fields, n - 1)),
        )
    }
}

/// Every field is one aligned word of a record of `tz` words.
pub open spec fn word_fields(fields: Seq<Field>, tz: int) -> bool {
    forall|i: int|
        0 <= i < fields.len() ==> {
            &&& (#[trigger] fields[i]).spec_begin() % 8 == 0
            &&& fields[i].spec_size() == 8
            &&& fields[i].spec_begin() as int / 8 < tz
        }
}

pub proof fn lemma_word_fields_prefix(fields: Seq<Field>, tz: int, n: int)
    requires
        word_fields(fields, tz),
        0 <= n <= fields.len(),
    ensures
        prefix_size(fields, n) == 8 * n,
    decreases n,
{
    if n > 0 {
        lemma_word_fields_prefix(fields, tz, n - 1);
        assert(fields[n - 1].spec_size() == 8);
    }
}

pub proof fn lemma_updated_words_len(words: Seq<usize>, fields: Seq<Field>, bytes: Seq<u8>, n: int)
    requires
        0 <= n <= fields.len(),
        word_fields(fields, words.len() as int),
    ensures
        updated_words(words, fields, bytes, n).len() == words.len(),
    decreases n,
{
    if n > 0 {
        lemma_updated_words_len(words, fields, bytes, n - 1);
        assert(fields[n - 1].spec_begin() as int / 8 < words.len());
    }
}

impl<const TZ: usize> TestItem<TZ> {

    pub fn build_query<const N: usize>(fields: [u16; N]) -> (r: FieldsMeta<N>)
        requires
            N < TZ,
            forall|i: int| 0 <= i < N ==> fields@[i] * 8 + 8 <= u16::MAX,
        ensures
            forall|i: int|
                0 <= i < N ==> (#[trigger] r.fields@[i]).spec_begin() == fields@[i] * 8
                    && r.fields@[i].spec_end() == fields@[i] * 8 + 8,
    {
        let mut rv_fields = [Field::default();N];
        let mut i: usize = 0;
        while i < N
            invariant
                0 <= i <= N,
                rv_fields@.len() == N,
                forall|j: int| 0 <= j < N ==> fields@[j] * 8 + 8 <= u16::MAX,
                forall|j: int|
                    0 <= j < i ==> (#[trigger] rv_fields@[j]).spec_begin() == fields@[j] * 8
                        && rv_fields@[j].spec_end() == fields@[j] * 8 + 8,
            decreases N - i,
        {
            let start = fields[i] * 8;
            rv_fields[i] = Field::new(start, start + 8);
            i += 1;
        }
        FieldsMeta::new(rv_fields)
    }

    /// Read the word a field starts at.
    pub fn read_field(&self, field: &Field) -> (r: usize)
        requires
            field.spec_begin() % 8 == 0,
            field.spec_begin() as int / 8 < TZ,
        ensures
            r == self@[field.spec_begin() as int / 8],
    {
        self.data[(field.begin() / 8) as usize]
    }

    /// The first word, which is the record's key.
    pub fn first_word(&self) -> (r: usize)
        requires
            TZ > 0,
        ensures
            r == self@[0],
    {
        self.data[0]
    }
}

impl<const TZ: usize> TestGen for TestItem<TZ> {
    open spec fn increasing_seed_ok(seed: usize) -> bool {
        seed + TZ <= usize::MAX
    }

    fn from_fixed(val: usize) -> (r: Self)
        ensures
            forall|i: int| 0 <= i < TZ ==> r@[i] == val,
    {
        Self { data: [val;TZ] }
    }

    fn from_increasing(base: usize) -> (r: Self)
        ensures
            forall|i: int| 0 <= i < TZ ==> r@[i] == base + i,
    {
        let mut data: [usize; TZ] = [0;TZ];
        let mut i: usize = 0;
        while i < TZ
            invariant
                0 <= i <= TZ,
                base + TZ <= usize::MAX,
                data@.len() == TZ,
                forall|j: int| 0 <= j < i ==> data@[j] == base + j,
            decreases TZ - i,
        {
            data[i] = base + i;
            i += 1;
        }
        Self { data }
    }
}

impl<const TZ: usize> Tuple for TestItem<TZ> {
    /// Each field of the update must be one aligned word of the record, and the data must
    /// hold a word for each of them.
    open spec fn update_ok(fields: Seq<Field>, data_len: nat) -> bool {
        &&& word_fields(fields, TZ as int)
        &&& data_len >= 8 * fields.len()
        &&& fields.len() <= usize::MAX / 8
    }

    open spec fn spec_update(v: Seq<usize>, fields: Seq<Field>, data: Seq<u8>) -> Seq<usize> {
        updated_words(v, fields, data, fields.len() as int)
    }

    fn update<const N: usize>(&mut self, query: UpdateQuery<'_, N>) {
        let mut it = query.iter();
        let ghost fields = query.spec_meta().fields@;
        let ghost bytes = query.spec_data();
        proof {
            lemma_word_fields_prefix(fields, TZ as int, N as int);
            assert(query.spec_meta().wf()) by {
                assert forall|i: int| 0 <= i < fields.len() implies (#[trigger] fields[i]).wf() by {
                    assert(fields[i].spec_size() == 8);
                }
            }
        }
        let mut k: usize = 0;
        while k < N
            invariant
                0 <= k <= N,
                it.wf(),
                it.spec_query() == query,
                it.spec_cur_idx() == k,
                fields == query.spec_meta().fields@,
                bytes == query.spec_data(),
                bytes.len() >= 8 * N,
                word_fields(fields, TZ as int),
                self.data@.len() == TZ,
                self@ == updated_words(old(self)@, fields, bytes, k as int),
            decreases N - k,
        {
            let next = it.next();
            match next {
                Some((f, off)) => {
                    proof {
                        lemma_word_fields_prefix(fields, TZ as int, k as int);
                        assert(fields[k as int].spec_begin() % 8 == 0);
                    }
                    let word_bytes = &query.data()[off..off + 8];
                    let w = vstd::bytes::u64_from_le_bytes(word_bytes);
                    let pos = (f.begin() / 8) as usize;
                    self.data[pos] = w as usize;
                    proof {
                        assert(word_bytes@ == bytes.subrange(off as int, off + 8));
                    }
                },
                None => {
                    proof {
                        assert(false);
                    }
                },
            }
            k += 1;
        }
    }

    fn to_query_values<const N: usize>(&self, query: &FieldsMeta<N>) -> (r: FieldsValue<N>)
        ensures
            forall|i: int|
                0 <= i < N ==> r.spec_data()[i] == (#[trigger] query.fields@[i]).spec_begin(),
    {
        let mut values: [usize; N] = [0;N];
        let mut i: usize = 0;
        while i < N
            invariant
                0 <= i <= N,
                values@.len() == N,
                forall|j: int|
                    0 <= j < i ==> values@[j] == (#[trigger] query.fields@[j]).spec_begin(),
            decreases N - i,
        {
            values[i] = query.fields[i].begin() as usize;
            i += 1;
        }
        FieldsValue::new(values)
    }
}

/// The cached part of a test record: `N` words.
#[derive(Debug, PartialEq, Eq)]
pub struct FieldCached<const N: usize> {
    data: [usize; N],
}

impl<const N: usize> FieldCached<N> {

    /// The cached word at a span of the cached part.
    pub fn read_field(&self, field: &Field) -> (r: usize)
        requires
            field.spec_begin() as int / 8 < N,
        ensures
            r == self@[field.spec_begin() as int / 8],
    {
        self.data[(field.begin() / 8) as usize]
    }
}

/// The position of the first of the first `n` fields that equals `f`.
pub open spec fn position_in(fields: Seq<Field>, f: Field, n: int) -> Option<usize>
    decreases n,
{
    if n <= 0 {
        None
    } else {
        match position_in(fields, f, n - 1) {
            Some(i) => Some(i),
            None => if fields[n - 1] == f {
                Some((n - 1) as usize)
            } else {
                None
            },
        }
    }
}

pub proof fn lemma_position_in(fields: Seq<Field>, f: Field, n: int)
    requires
        0 <= n <= fields.len(),
        n <= usize::MAX,
    ensures
        position_in(fields, f, n) matches Some(i) ==> i < n && fields[i as int] == f,
        position_in(fields, f, n) is None ==> forall|j: int| 0 <= j < n ==> fields[j] != f,
    decreases n,
{
    if n > 0 {
        lemma_position_in(fields, f, n - 1);
    }
}

/// The cached part after writing back the first `n` cached words into the words of a record.
pub open spec fn written_back(fields: Seq<Field>, cached: Seq<usize>, words: Seq<usize>, n: int) -> Seq<
    usize,
>
    decreases n,
{
    if n <= 0 {
        words
    } else {
        written_back(fields, cached, words, n - 1).update(
            (fields[n - 1].spec_begin() as int / 8) as int,
            cached[n - 1],
        )
    }
}

/// A schema that caches some words of a test record: the cached part holds, in order, the
/// words at which the schema's fields start.
pub struct FieldItemSchema<const FZ: usize, const TZ: usize> {
    fields: [Field; FZ],
}

impl<const FZ: usize, const TZ: usize> FieldItemSchema<FZ, TZ> {
    pub closed spec fn spec_fields(&self) -> Seq<Field> {
        self.fields@
    }

    pub fn from_fields(fields: [Field; FZ]) -> (r: Self)
        ensures
            r.spec_fields() == fields@,
    {
        Self { fields }
    }

    pub fn from_range(ranges: [std::ops::Range<u16>; FZ]) -> (r: Self)
        ensures
            forall|i: int|
                0 <= i < FZ ==> (#[trigger] r.spec_fields()[i]).spec_begin() == ranges@[i].start
                    && r.spec_fields()[i].spec_end() == ranges@[i].end,
    {
        let mut fields = [Field::default();FZ];
        let mut i: usize = 0;
        while i < FZ
            invariant
                0 <= i <= FZ,
                fields@.len() == FZ,
                forall|j: int|
                    0 <= j < i ==> (#[trigger] fields@[j]).spec_begin() == ranges@[j].start
                        && fields@[j].spec_end() == ranges@[j].end,
            decreases FZ - i,
        {
            fields[i] = Field::new(ranges[i].start, ranges[i].end);
            i += 1;
        }
        Self { fields }
    }

    pub open spec fn spec_position(&self, field: Field) -> Option<usize> {
        position_in(self.spec_fields(), field, FZ as int)
    }

    pub fn position(&self, field: &Field) -> (r: Option<usize>)
        ensures
            r == self.spec_position(*field),
    {
        let mut i: usize = 0;
        while i < FZ
            invariant
                0 <= i <= FZ,
                self.fields@.len() == FZ,
                position_in(self.fields@, *field, i as int) is None,
            decreases FZ - i,
        {
            if self.fields[i] == *field {
                proof {
                    assert(position_in(self.fields@, *field, i + 1) == Some(i));
                    lemma_position_later(self.fields@, *field, i as int + 1, FZ as int);
                }
                return Some(i);
            }
            i += 1;
        }
        None
    }
}

proof fn lemma_position_later(fields: Seq<Field>, f: Field, n: int, m: int)
    requires
        0 < n <= m,
        position_in(fields, f, n) is Some,
    ensures
        position_in(fields, f, m) == position_in(fields, f, n),
    decreases m - n,
{
    if m > n {
        lemma_position_later(fields, f, n, m - 1);
    }
}

proof fn lemma_written_back_identity(fields: Seq<Field>, words: Seq<usize>, cached: Seq<usize>, n: int)
    requires
        0 <= n <= fields.len(),
        n <= cached.len(),
        forall|i: int|
            0 <= i < n ==> 0 <= (#[trigger] fields[i]).spec_begin() as int / 8 < words.len() && cached[i]
                == words[fields[i].spec_begin() as int / 8],
    ensures
        written_back(fields, cached, words, n) == words,
    decreases n,
{
    if n > 0 {
        lemma_written_back_identity(fields, words, cached, n - 1);
        assert(fields[n - 1].spec_begin() as int / 8 < words.len());
        assert(words.update((fields[n - 1].spec_begin() as int / 8) as int, cached[n - 1]) =~= words);
    }
}

/// The cached words after the cached ones among the fields `0..n` of an update are written,
/// in order.
pub open spec fn cached_updates(
    schema_fields: Seq<Field>,
    cached: Seq<usize>,
    fields: Seq<Field>,
    bytes: Seq<u8>,
    n: int,
) -> Seq<usize>
    decreases n,
{
    if n <= 0 {
        cached
    } else {
        let prev = cached_updates(schema_fields, cached, fields, bytes, n - 1);
        match position_in(schema_fields, fields[n - 1], schema_fields.len() as int) {
            Some(i) => prev.update(i as int, word_at(bytes, prefix_size(fields, n - 1))),
            None => prev,
        }
    }
}

impl<const TZ: usize> View for TestItem<TZ> {
    type V = Seq<usize>;

    closed spec fn view(&self) -> Seq<usize> {
        self.data@
    }
}

impl<const N: usize> View for FieldCached<N> {
    type V = Seq<usize>;

    closed spec fn view(&self) -> Seq<usize> {
        self.data@
    }
}

impl<const FZ: usize, const TZ: usize> Schema for FieldItemSchema<FZ, TZ> {
    type Field = FieldCached<FZ>;

    type Tuple = TestItem<TZ>;

    /// The record has a first word, each cached field lies within the record, and the spans
    /// of the cached part fit 16 bits.
    open spec fn wf(&self) -> bool {
        &&& TZ > 0
        &&& (FZ + 1) * 8 <= u16::MAX
        &&& forall|i: int|
            0 <= i < FZ ==> (#[trigger] self.spec_fields()[i]).spec_begin() as int / 8 < TZ
    }

    open spec fn spec_to_cached(&self, tuple: Seq<usize>) -> Seq<usize> {
        Seq::new(FZ as nat, |i: int| tuple[self.spec_fields()[i].spec_begin() as int / 8])
    }

    open spec fn spec_write_back(&self, field: Seq<usize>, tuple: Seq<usize>) -> Seq<usize> {
        written_back(self.spec_fields(), field, tuple, FZ as int)
    }

    open spec fn spec_key(&self, tuple: Seq<usize>) -> usize {
        tuple[0]
    }

    open spec fn key_ok(&self, tuple: Seq<usize>) -> bool {
        true
    }

    open spec fn spec_to_cached_field(&self, tuple_field: Field) -> Option<Field> {
        match self.spec_position(tuple_field) {
            Some(i) => Some(Field::spec_new((i * 8) as u16, ((i + 1) * 8) as u16)),
            None => None,
        }
    }

    /// Every cached field among the updated ones is one word, and the data holds it.
    open spec fn update_cached_ok(&self, fields: Seq<Field>, data_len: nat) -> bool {
        &&& all_wf(fields)
        &&& prefix_size(fields, fields.len() as int) <= usize::MAX
        &&& forall|i: int|
            0 <= i < fields.len() && (#[trigger] position_in(
                self.spec_fields(),
                fields[i],
                FZ as int,
            )) is Some ==> fields[i].spec_size() == 8 && prefix_size(fields, i) + 8 <= data_len
    }

    open spec fn spec_update_cached(&self, field: Seq<usize>, fields: Seq<Field>, data: Seq<u8>) -> Seq<usize> {
        cached_updates(self.spec_fields(), field, fields, data, fields.len() as int)
    }

    proof fn lemma_write_back_to_cached(&self, tuple: TestItem<TZ>) {
        let t = tuple@;
        let c = self.spec_to_cached(t);
        assert forall|i: int|
            0 <= i < FZ implies 0 <= (#[trigger] self.spec_fields()[i]).spec_begin() as int / 8 < t.len()
            && c[i] == t[self.spec_fields()[i].spec_begin() as int / 8] by {}
        lemma_written_back_identity(self.spec_fields(), t, c, FZ as int);
    }

    fn to_cached(&self, tuple: &TestItem<TZ>) -> (r: FieldCached<FZ>) {
        let mut fields: [usize; FZ] = [0;FZ];
        let mut i: usize = 0;
        while i < FZ
            invariant
                0 <= i <= FZ,
                self.wf(),
                fields@.len() == FZ,
                forall|j: int|
                    0 <= j < i ==> fields@[j] == tuple@[self.spec_fields()[j].spec_begin() as int / 8],
            decreases FZ - i,
        {
            assert(self.spec_fields()[i as int].spec_begin() as int / 8 < TZ);
            fields[i] = tuple.data[(self.fields[i].begin() / 8) as usize];
            i += 1;
        }
        let r = FieldCached { data: fields };
        assert(r@ =~= self.spec_to_cached(tuple@));
        r
    }

    fn key(&self, tuple: &TestItem<TZ>) -> (r: usize) {
        tuple.data[0]
    }

    fn write_back(&self, field: &FieldCached<FZ>, tuple: &mut TestItem<TZ>) {
        let mut c_idx: usize = 0;
        while c_idx < FZ
            invariant
                0 <= c_idx <= FZ,
                self.wf(),
                tuple.data@.len() == TZ,
                tuple@ == written_back(self.spec_fields(), field@, old(tuple)@, c_idx as int),
            decreases FZ - c_idx,
        {
            assert(self.spec_fields()[c_idx as int].spec_begin() as int / 8 < TZ);
            let pos = (self.fields[c_idx].begin() / 8) as usize;
            tuple.data[pos] = field.data[c_idx];
            c_idx += 1;
        }
    }

    fn update_cached<const N: usize>(&self, fields: &mut FieldCached<FZ>, query: UpdateQuery<'_, N>) {
        let ghost qfields = query.spec_meta().fields@;
        let ghost bytes = query.spec_data();
        let mut it = query.iter();
        let mut k: usize = 0;
        while k < N
            invariant
                0 <= k <= N,
                self.wf(),
                it.wf(),
                it.spec_query() == query,
                it.spec_cur_idx() == k,
                qfields == query.spec_meta().fields@,
                bytes == query.spec_data(),
                self.update_cached_ok(qfields, bytes.len()),
                fields.data@.len() == FZ,
                fields@ == cached_updates(self.spec_fields(), old(fields)@, qfields, bytes, k as int),
            decreases N - k,
        {
            let next = it.next();
            match next {
                Some((f, off)) => {
                    match self.position(f) {
                        Some(idx) => {
                            proof {
                                lemma_position_in(self.spec_fields(), *f, FZ as int);
                                assert(position_in(self.spec_fields(), qfields[k as int], FZ as int) is Some);
                            }
                            let word_bytes = &query.data()[off..off + 8];
                            let w = vstd::bytes::u64_from_le_bytes(word_bytes);
                            fields.data[idx] = w as usize;
                            proof {
                                assert(word_bytes@ == bytes.subrange(off as int, off + 8));
                            }
                        },
                        None => {},
                    }
                },
                None => {
                    proof {
                        assert(false);
                    }
                },
            }
            k += 1;
        }
    }

    fn matches<const N: usize>(&self, query: &FieldsMeta<N>) -> (r: bool) {
        let mut idx: usize = 0;
        while idx < N
            invariant
                0 <= idx <= N,
                self.wf(),
                forall|i: int|
                    0 <= i < idx ==> (#[trigger] self.spec_to_cached_field(query.fields@[i])) is Some,
            decreases N - idx,
        {
            if self.position(&query.fields[idx]).is_none() {
                assert(self.spec_to_cached_field(query.fields@[idx as int]) is None);
                return false;
            }
            idx += 1;
        }
        true
    }

    fn to_cached_field(&self, tuple_field: &Field) -> (r: Option<Field>) {
        match self.position(tuple_field) {
            Some(i) => {
                proof {
                    lemma_position_in(self.spec_fields(), *tuple_field, FZ as int);
                }
                Some(Field::from_span(std::ops::Range { start: i * 8, end: (i + 1) * 8 }))
            },
            None => None,
        }
    }
}

/// Whether every queried field reads, through the query's answer, the word that the test
/// record holds there.
pub open spec fn values_agree<L, const FZ: usize, const TZ: usize, const QN: usize>(
    values: &QueryValue<FieldCached<FZ>, TestItem<TZ>, L>,
    query: &FieldsMeta<QN>,
    tuple: &TestItem<TZ>,
    schema: &FieldItemSchema<FZ, TZ>,
) -> bool {
    forall|i: int|
        0 <= i < QN ==> #[trigger] answered_word(values, query.fields@[i], schema)
            == tuple@[query.fields@[i].spec_begin() as int / 8]
}

/// The word a query's answer gives for a field.
pub open spec fn answered_word<L, const FZ: usize, const TZ: usize>(
    values: &QueryValue<FieldCached<FZ>, TestItem<TZ>, L>,
    field: Field,
    schema: &FieldItemSchema<FZ, TZ>,
) -> usize {
    match schema.spec_to_cached_field(field) {
        Some(cf) if values.spec_field() is Some => values.spec_field().unwrap()@[cf.spec_begin()
            as int / 8],
        _ => values.spec_tuple().unwrap()@[field.spec_begin() as int / 8],
    }
}

/// Compares every queried field of a query's answer with a test record.
pub fn value_compare<L, const FZ: usize, const TZ: usize, const QN: usize>(
    values: &QueryValue<FieldCached<FZ>, TestItem<TZ>, L>,
    query: &FieldsMeta<QN>,
    tuple: &TestItem<TZ>,
    schema: &FieldItemSchema<FZ, TZ>,
) -> (r: bool)
    requires
        schema.wf(),
        values.spec_field() is Some || values.spec_tuple() is Some,
        forall|i: int|
            0 <= i < QN ==> (#[trigger] query.fields@[i]).spec_begin() % 8 == 0
                && query.fields@[i].spec_begin() as int / 8 < TZ,
        forall|i: int|
            0 <= i < QN && !(schema.spec_to_cached_field(query.fields@[i]) is Some
                && values.spec_field() is Some) ==> #[trigger] values.spec_tuple() is Some,
    ensures
        r == values_agree(values, query, tuple, schema),
{
    let mut idx: usize = 0;
    while idx < QN
        invariant
            0 <= idx <= QN,
            schema.wf(),
            forall|i: int|
                0 <= i < QN ==> (#[trigger] query.fields@[i]).spec_begin() % 8 == 0
                    && query.fields@[i].spec_begin() as int / 8 < TZ,
            forall|i: int|
                0 <= i < QN && !(schema.spec_to_cached_field(query.fields@[i]) is Some
                    && values.spec_field() is Some) ==> #[trigger] values.spec_tuple() is Some,
            forall|i: int|
                0 <= i < idx ==> #[trigger] answered_word(values, query.fields@[i], schema)
                    == tuple@[query.fields@[i].spec_begin() as int / 8],
        decreases QN - idx,
    {
        let q = &query.fields[idx];
        let gt_val = tuple.read_field(q);
        let qy_val = match values.get_value(q, schema) {
            ValueRef::Cached(c, cf) => {
                proof {
                    lemma_position_in(schema.spec_fields(), *q, FZ as int);
                }
                c.read_field(&cf)
            },
            ValueRef::Stored(t, f) => t.read_field(&f),
        };
        assert(answered_word(values, query.fields@[idx as int], schema) == qy_val);
        if gt_val != qy_val {
            return false;
        }
        idx += 1;
    }
    true
}

} // verus!

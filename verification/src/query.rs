use vstd::prelude::*;
use vstd::std_specs::iter::IteratorSpec;

verus! {

broadcast use {vstd::array::group_array_axioms, vstd::std_specs::slice::axiom_spec_slice_iter};

/// A span of bytes `[begin, end)` inside a record.
#[derive(Debug, Clone, Copy, PartialEq, Eq, Structural)]
pub struct Field {
    begin: u16,
    end: u16,
}

impl Field {
    pub closed spec fn spec_begin(self) -> u16 {
        self.begin
    }

    pub closed spec fn spec_end(self) -> u16 {
        self.end
    }

    pub closed spec fn spec_new(begin: u16, end: u16) -> Field {
        Field { begin, end }
    }

    pub broadcast proof fn lemma_spec_new(begin: u16, end: u16)
        ensures
            (#[trigger] Field::spec_new(begin, end)).spec_begin() == begin,
            Field::spec_new(begin, end).spec_end() == end,
    {
    }

    /// The number of bytes the field spans.
    pub open spec fn spec_size(self) -> int {
        self.spec_end() - self.spec_begin()
    }

    pub open spec fn wf(self) -> bool {
        self.spec_begin() <= self.spec_end()
    }

    pub fn default() -> (r: Self)
        ensures
            r.spec_begin() == 0,
            r.spec_end() == 0,
    {
        Self { begin: 0, end: 0 }
    }

    pub fn new(begin: u16, end: u16) -> (r: Self)
        ensures
            r == Field::spec_new(begin, end),
            r.spec_begin() == begin,
            r.spec_end() == end,
    {
        Self { begin, end }
    }

    /// The bounds are cut to 16 bits.
    pub fn from_span(span: std::ops::Range<usize>) -> (r: Self)
        ensures
            r == Field::spec_new(span.start as u16, span.end as u16),
            r.spec_begin() == span.start as u16,
            r.spec_end() == span.end as u16,
    {
        Self { begin: span.start as u16, end: span.end as u16 }
    }

    pub fn begin(&self) -> (r: u16)
        ensures
            r == self.spec_begin(),
    {
        self.begin
    }

    pub fn end(&self) -> (r: u16)
        ensures
            r == self.spec_end(),
    {
        self.end
    }

    pub fn size(&self) -> (r: usize)
        requires
            self.wf(),
        ensures
            r == self.spec_size(),
    {
        (self.end - self.begin) as usize
    }
}

/// The sum of the sizes of the first `n` fields.
pub open spec fn prefix_size(fields: Seq<Field>, n: int) -> int
    decreases n,
{
    if n <= 0 {
        0
    } else {
        prefix_size(fields, n - 1) + fields[n - 1].spec_size()
    }
}

pub open spec fn all_wf(fields: Seq<Field>) -> bool {
    forall|i: int| 0 <= i < fields.len() ==> (#[trigger] fields[i]).wf()
}

pub proof fn lemma_prefix_size_monotone(fields: Seq<Field>, i: int, j: int)
    requires
        all_wf(fields),
        0 <= i <= j <= fields.len(),
    ensures
        0 <= prefix_size(fields, i) <= prefix_size(fields, j),
    decreases j - i,
{
    if i < j {
        lemma_prefix_size_monotone(fields, i, j - 1);
        assert(fields[j - 1].wf());
    } else {
        lemma_prefix_size_nonneg(fields, i);
    }
}

pub proof fn lemma_prefix_size_nonneg(fields: Seq<Field>, i: int)
    requires
        all_wf(fields),
        0 <= i <= fields.len(),
    ensures
        prefix_size(fields, i) >= 0,
    decreases i,
{
    if i > 0 {
        lemma_prefix_size_nonneg(fields, i - 1);
        assert(fields[i - 1].wf());
    }
}

/// The read query format for our database system.
/// The query need to specify the field id and field length.
#[derive(Debug, Clone)]
pub struct FieldsMeta<const N: usize> {
    pub fields: [Field; N],
}

impl<const N: usize> FieldsMeta<N> {
    /// The total size of the fields, in bytes.
    pub open spec fn spec_size(&self) -> int {
        prefix_size(self.fields@, N as int)
    }

    /// Every field is well formed and the total size fits a machine word.
    pub open spec fn wf(&self) -> bool {
        &&& all_wf(self.fields@)
        &&& self.spec_size() <= usize::MAX
    }

    pub fn iter(&self) -> (r: std::slice::Iter<'_, Field>)
        ensures
            r.remaining() == self.fields@.as_ref(),
    {
        self.fields.as_slice().iter()
    }

    pub fn new(fields: [Field; N]) -> (r: Self)
        ensures
            r.fields@ == fields@,
    {
        Self { fields }
    }

    pub fn from_spans(spans: [std::ops::Range<usize>; N]) -> (r: Self)
        ensures
            forall|i: int|
                0 <= i < N ==> (#[trigger] r.fields@[i]).spec_begin() == spans@[i].start as u16
                    && r.fields@[i].spec_end() == spans@[i].end as u16,
    {
        let mut fields = [Field::default();N];
        let mut idx: usize = 0;
        while idx < N
            invariant
                0 <= idx <= N,
                fields@.len() == N,
                forall|i: int|
                    0 <= i < idx ==> (#[trigger] fields@[i]).spec_begin() == spans@[i].start as u16
                        && fields@[i].spec_end() == spans@[i].end as u16,
            decreases N - idx,
        {
            let f = Field::from_span(std::ops::Range { start: spans[idx].start, end: spans[idx].end });
            fields[idx] = f;
            idx += 1;
        }
        Self { fields }
    }

    pub fn size(&self) -> (r: usize)
        requires
            self.wf(),
        ensures
            r == self.spec_size(),
    {
        let mut total: usize = 0;
        let mut idx: usize = 0;
        while idx < N
            invariant
                0 <= idx <= N,
                self.wf(),
                total == prefix_size(self.fields@, idx as int),
            decreases N - idx,
        {
            proof {
                assert(self.fields@[idx as int].wf());
                lemma_prefix_size_monotone(self.fields@, idx as int + 1, N as int);
            }
            total = total + self.fields[idx].size();
            idx += 1;
        }
        total
    }
}

/// The update query,
/// The `meta` describe the fields it needs to update,
/// the data holds the actual data: the new values of the fields, one after the other.
#[derive(Debug, Clone)]
pub struct UpdateQuery<'a, const N: usize> {
    meta: FieldsMeta<N>,
    data: &'a [u8],
}

impl<'a, const N: usize> UpdateQuery<'a, N> {
    pub closed spec fn spec_meta(&self) -> FieldsMeta<N> {
        self.meta
    }

    pub closed spec fn spec_data(&self) -> Seq<u8> {
        self.data@
    }

    pub fn new(fields: [Field; N], data: &'a [u8]) -> (r: Self)
        ensures
            r.spec_meta().fields@ == fields@,
            r.spec_data() == data@,
    {
        let meta = FieldsMeta::new(fields);
        Self::from_meta(meta, data)
    }

    pub fn from_meta(meta: FieldsMeta<N>, data: &'a [u8]) -> (r: Self)
        ensures
            r.spec_meta() == meta,
            r.spec_data() == data@,
    {
        Self { meta, data }
    }

    pub fn iter(&self) -> (r: UpdateIter<'_, 'a, N>)
        ensures
            r.spec_cur_idx() == 0,
            r.spec_ptr_off() == 0,
            r.spec_query() == *self,
    {
        UpdateIter { cur_idx: 0, ptr_off: 0, query: self }
    }

    pub fn meta(&self) -> (r: &FieldsMeta<N>)
        ensures
            *r == self.spec_meta(),
    {
        &self.meta
    }

    pub fn data(&self) -> (r: &'a [u8])
        ensures
            r@ == self.spec_data(),
    {
        self.data
    }
}

/// Walks the fields of an update query, handing out each field together with the offset
/// of its new value in the query's data.
pub struct UpdateIter<'q, 'a, const N: usize> {
    cur_idx: usize,
    ptr_off: usize,
    query: &'q UpdateQuery<'a, N>,
}

impl<'q, 'a, const N: usize> UpdateIter<'q, 'a, N> {
    pub closed spec fn spec_cur_idx(&self) -> usize {
        self.cur_idx
    }

    pub closed spec fn spec_ptr_off(&self) -> usize {
        self.ptr_off
    }

    pub closed spec fn spec_query(&self) -> UpdateQuery<'a, N> {
        *self.query
    }

    /// The offset is the sum of the sizes of the fields handed out so far.
    pub open spec fn wf(&self) -> bool {
        &&& self.spec_query().spec_meta().wf()
        &&& self.spec_cur_idx() <= N
        &&& self.spec_ptr_off() == prefix_size(
            self.spec_query().spec_meta().fields@,
            self.spec_cur_idx() as int,
        )
    }

    pub fn next(&mut self) -> (r: Option<(&'q Field, usize)>)
        requires
            old(self).wf(),
        ensures
            final(self).wf(),
            final(self).spec_query() == old(self).spec_query(),
            old(self).spec_cur_idx() == N ==> r is None && *final(self) == *old(self),
            old(self).spec_cur_idx() < N ==> {
                &&& r matches Some((f, off)) && *f == old(self).spec_query().spec_meta().fields@[old(
                    self,
                ).spec_cur_idx() as int] && off == old(self).spec_ptr_off()
                &&& final(self).spec_cur_idx() == old(self).spec_cur_idx() + 1
            },
    {
        if self.cur_idx == N {
            None
        } else {
            let idx = self.cur_idx;
            let ptr_off = self.ptr_off;
            self.cur_idx = self.cur_idx + 1;
            let field = &self.query.meta.fields[idx];
            proof {
                assert(self.query.meta.fields@[idx as int].wf());
                lemma_prefix_size_monotone(self.query.meta.fields@, idx as int + 1, N as int);
            }
            self.ptr_off = self.ptr_off + field.size();
            Some((field, ptr_off))
        }
    }
}

/// FieldValue is the response to a read query, where each entry is the offset, in the
/// record, of a field the query asked for.
#[derive(Debug, Clone)]
pub struct FieldsValue<const N: usize> {
    data: [usize; N],
}

impl<const N: usize> FieldsValue<N> {
    pub closed spec fn spec_data(&self) -> Seq<usize> {
        self.data@
    }

    pub fn new(values: [usize; N]) -> (r: Self)
        ensures
            r.spec_data() == values@,
    {
        Self { data: values }
    }

    pub fn iter(&self) -> (r: std::slice::Iter<'_, usize>)
        ensures
            r.remaining() == self.spec_data().as_ref(),
    {
        self.data.as_slice().iter()
    }

    pub fn get(&self, idx: usize) -> (r: usize)
        requires
            idx < N,
        ensures
            r == self.spec_data()[idx as int],
    {
        self.data[idx]
    }
}

} // verus!

use vstd::prelude::*;

pub mod clock_cache;

use crate::query::{Field, FieldsMeta, FieldsValue, UpdateQuery};
use std::marker::PhantomData;

verus! {

/// The sentinel id that no record may carry.
pub const RID_SENTINEL: u32 = 0xffff_ffff;

/// RID: record id, is the offset to the table storage
#[derive(Debug, Clone, Copy, PartialEq, Eq, Structural)]
pub struct Rid {
    id: u32,
}

impl Rid {
    pub closed spec fn id(self) -> u32 {
        self.id
    }

    /// No record carries the sentinel id.
    #[verifier::type_invariant]
    pub open spec fn not_sentinel(self) -> bool {
        self.id() != RID_SENTINEL
    }

    /// The record id `id`.
    pub closed spec fn spec_from_u32(id: u32) -> Rid {
        Rid { id }
    }

    pub broadcast proof fn lemma_spec_from_u32(id: u32)
        ensures
            #[trigger] Rid::spec_from_u32(id).id() == id,
    {
    }

    pub broadcast proof fn lemma_id_determines(a: Rid, b: Rid)
        ensures
            #![trigger a.id(), b.id()]
            a.id() == b.id() ==> a == b,
    {
    }

    pub fn as_u32(&self) -> (r: u32)
        ensures
            r == self.id(),
    {
        self.id
    }

    /// The id `u32::MAX` is reserved for the sentinel.
    pub fn from_u32(id: u32) -> (r: Self)
        requires
            id != RID_SENTINEL,
        ensures
            r.id() == id,
            r == Rid::spec_from_u32(id),
    {
        Self { id }
    }

    /// A record id from an offset; the offset is cut to 32 bits.
    pub fn from_usize(id: usize) -> (r: Self)
        requires
            id as u32 != RID_SENTINEL,
        ensures
            r.id() == id as u32,
            r == Rid::spec_from_u32(id as u32),
    {
        Rid::from_u32(id as u32)
    }

    /// The offset that the record id stands for.
    pub fn to_usize(&self) -> (r: usize)
        ensures
            r == self.id(),
    {
        self.id as usize
    }

}

/// Where the value of a queried field is read: at a span of the cached part of a record,
/// or at a span of the full record in the table storage.
pub enum ValueRef<'a, F, T> {
    Cached(&'a F, Field),
    Stored(&'a T, Field),
}

/// The answer to a read: the cached part of the record, the full record, or both.
pub struct QueryValue<'a, F, T, L> {
    field: Option<&'a F>,
    tuple: Option<&'a T>,
    pt_l: PhantomData<L>,
}

impl<'a, F, T, L> QueryValue<'a, F, T, L> {
    pub closed spec fn spec_field(&self) -> Option<&'a F> {
        self.field
    }

    pub closed spec fn spec_tuple(&self) -> Option<&'a T> {
        self.tuple
    }

    pub fn new(field: Option<&'a F>, tuple: Option<&'a T>) -> (r: Self)
        ensures
            r.spec_field() == field,
            r.spec_tuple() == tuple,
    {
        Self { field, tuple, pt_l: PhantomData }
    }

    /// Where to read `field` from: the cached part when the schema caches that field and the
    /// cached part is here, the full record otherwise.
    pub fn get_value<S: Schema<Field = F, Tuple = T>>(&self, field: &Field, schema: &S) -> (r:
        ValueRef<'a, F, T>)
        requires
            schema.wf(),
            schema.spec_to_cached_field(*field) is Some && self.spec_field() is Some
                || self.spec_tuple() is Some,
        ensures
            (schema.spec_to_cached_field(*field) is Some && self.spec_field() is Some) ==> r
                == ValueRef::<'a, F, T>::Cached(self.spec_field().unwrap(), schema.spec_to_cached_field(
                *field,
            ).unwrap()),
            !(schema.spec_to_cached_field(*field) is Some && self.spec_field() is Some) ==> r
                == ValueRef::<'a, F, T>::Stored(self.spec_tuple().unwrap(), *field),
    {
        let cached_field = schema.to_cached_field(field);
        match (cached_field, self.field) {
            (Some(cf), Some(f)) => ValueRef::Cached(f, cf),
            _ => {
                let tuple = match self.tuple {
                    Some(t) => t,
                    None => {
                        proof {
                            assert(false);
                        }
                        return ValueRef::Stored(self.tuple.unwrap(), *field);
                    },
                };
                ValueRef::Stored(tuple, *field)
            },
        }
    }

    pub fn cached_hit(&self) -> (r: bool)
        ensures
            r == self.spec_field() is Some,
    {
        self.field.is_some()
    }

    pub fn has_field(&self) -> (r: bool)
        ensures
            r == self.spec_field() is Some,
    {
        self.field.is_some()
    }

    pub fn has_tuple(&self) -> (r: bool)
        ensures
            r == self.spec_tuple() is Some,
    {
        self.tuple.is_some()
    }
}

/// A record that takes updates.
pub trait Updatable {
    fn update<const N: usize>(&mut self, query: UpdateQuery<'_, N>);
}

/// A full record of a table.
pub trait Tuple: Sized + View {
    /// Whether the record can take an update of these fields with this much data.
    spec fn update_ok(fields: Seq<Field>, data_len: nat) -> bool;

    /// The record after the update.
    spec fn spec_update(v: Self::V, fields: Seq<Field>, data: Seq<u8>) -> Self::V;

    fn update<const N: usize>(&mut self, query: UpdateQuery<'_, N>)
        requires
            Self::update_ok(query.spec_meta().fields@, query.spec_data().len()),
        ensures
            final(self)@ == Self::spec_update(
                old(self)@,
                query.spec_meta().fields@,
                query.spec_data(),
            ),
    ;

    /// Where each queried field lies in the record: its offset.
    fn to_query_values<const N: usize>(&self, query: &FieldsMeta<N>) -> (r: FieldsValue<N>)
        ensures
            forall|i: int|
                0 <= i < N ==> r.spec_data()[i] == (#[trigger] query.fields@[i]).spec_begin(),
    ;
}

/// How a table caches its records: what part of a record the cache holds, and where each
/// field of a record lies in that part.
pub trait Schema {
    type Field: View;

    type Tuple: Tuple + View;

    /// The schema's own conditions (such as: its fields lie within the record).
    spec fn wf(&self) -> bool;

    spec fn spec_to_cached(&self, tuple: <Self::Tuple as View>::V) -> <Self::Field as View>::V;

    spec fn spec_write_back(
        &self,
        field: <Self::Field as View>::V,
        tuple: <Self::Tuple as View>::V,
    ) -> <Self::Tuple as View>::V;

    spec fn spec_key(&self, tuple: <Self::Tuple as View>::V) -> usize;

    /// Whether the key of a record can be computed (its parts fit in the key).
    spec fn key_ok(&self, tuple: <Self::Tuple as View>::V) -> bool;

    spec fn spec_to_cached_field(&self, tuple_field: Field) -> Option<Field>;

    /// Writing back the cached part of a record into the record gives the record back.
    proof fn lemma_write_back_to_cached(&self, tuple: Self::Tuple)
        requires
            self.wf(),
        ensures
            self.spec_write_back(self.spec_to_cached(tuple@), tuple@) == tuple@,
    ;

    /// make a field out from the full tuple.
    fn to_cached(&self, tuple: &Self::Tuple) -> (r: Self::Field)
        requires
            self.wf(),
        ensures
            r@ == self.spec_to_cached(tuple@),
    ;

    fn write_back(&self, field: &Self::Field, tuple: &mut Self::Tuple)
        requires
            self.wf(),
        ensures
            final(tuple)@ == self.spec_write_back(field@, old(tuple)@),
    ;

    /// Whether the cached part can take an update of these fields with this much data.
    spec fn update_cached_ok(&self, fields: Seq<Field>, data_len: nat) -> bool;

    /// The cached part after an update of the record.
    spec fn spec_update_cached(
        &self,
        field: <Self::Field as View>::V,
        fields: Seq<Field>,
        data: Seq<u8>,
    ) -> <Self::Field as View>::V;

    fn update_cached<const N: usize>(&self, field: &mut Self::Field, query: UpdateQuery<'_, N>)
        requires
            self.wf(),
            self.update_cached_ok(query.spec_meta().fields@, query.spec_data().len()),
        ensures
            final(field)@ == self.spec_update_cached(
                old(field)@,
                query.spec_meta().fields@,
                query.spec_data(),
            ),
    ;

    /// Generate unique primary key form the tuple
    fn key(&self, tuple: &Self::Tuple) -> (r: usize)
        requires
            self.wf(),
            self.key_ok(tuple@),
        ensures
            r == self.spec_key(tuple@),
    ;

    /// check if the schema matches with the query: every queried field is cached.
    fn matches<const N: usize>(&self, query: &FieldsMeta<N>) -> (r: bool)
        requires
            self.wf(),
        ensures
            r == (forall|i: int|
                0 <= i < N ==> (#[trigger] self.spec_to_cached_field(query.fields@[i])) is Some),
    {
        let mut idx: usize = 0;
        while idx < N
            invariant
                0 <= idx <= N,
                self.wf(),
                forall|i: int|
                    0 <= i < idx ==> (#[trigger] self.spec_to_cached_field(query.fields@[i])) is Some,
            decreases N - idx,
        {
            if self.to_cached_field(&query.fields[idx]).is_none() {
                return false;
            }
            idx += 1;
        }
        true
    }

    /// Convert a field in tuple to a field in cached field
    fn to_cached_field(&self, tuple_field: &Field) -> (r: Option<Field>)
        requires
            self.wf(),
        ensures
            r == self.spec_to_cached_field(*tuple_field),
    ;
}

} // verus!

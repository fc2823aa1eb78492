use vstd::prelude::*;

use crate::attribute_cache::Rid;

verus! {

/// The storage of a table: a slot for each record id, up to a fixed capacity.
pub struct Storage<T> {
    heap: Vec<Option<T>>,
    cap: usize,
}

impl<T> View for Storage<T> {
    type V = Seq<Option<T>>;

    closed spec fn view(&self) -> Seq<Option<T>> {
        self.heap@
    }
}

impl<T> Storage<T> {
    pub closed spec fn spec_cap(&self) -> usize {
        self.cap
    }

    pub closed spec fn wf(&self) -> bool {
        self.heap@.len() == self.cap
    }

    pub proof fn lemma_wf(&self)
        requires
            self.wf(),
        ensures
            self@.len() == self.spec_cap(),
    {
    }

    /// Create a new table storage which has at most `cap` elements in it.
    /// The cap must be equal to (or larger than) the oid array cap
    pub fn new(cap: usize) -> (r: Self)
        ensures
            r.wf(),
            r.spec_cap() == cap,
            r@.len() == cap,
            forall|i: int| 0 <= i < cap ==> r@[i] is None,
    {
        let mut heap: Vec<Option<T>> = Vec::new();
        let mut i: usize = 0;
        while i < cap
            invariant
                0 <= i <= cap,
                heap@.len() == i,
                forall|j: int| 0 <= j < i ==> heap@[j] is None,
            decreases cap - i,
        {
            heap.push(None);
            i += 1;
        }
        Self { heap, cap }
    }

    pub fn capacity(&self) -> (r: usize)
        ensures
            r == self.spec_cap(),
    {
        self.cap
    }

    /// The record at a record id.
    pub fn get(&self, rid: Rid) -> (r: &T)
        requires
            self.wf(),
            rid.id() < self.spec_cap(),
            self@[rid.id() as int] is Some,
        ensures
            Some(*r) == self@[rid.id() as int],
    {
        let idx = rid.as_u32() as usize;
        match &self.heap[idx] {
            Some(t) => t,
            None => {
                proof {
                    assert(false);
                }
                self.heap[idx].as_ref().unwrap()
            },
        }
    }

    /// Changes the record at a record id by a function of the library.
    pub fn get_mut(&mut self, rid: &Rid) -> (r: &mut T)
        requires
            old(self).wf(),
            rid.id() < old(self).spec_cap(),
            old(self)@[rid.id() as int] is Some,
        ensures
            Some(*r) == old(self)@[rid.id() as int],
            final(self)@ == old(self)@.update(rid.id() as int, Some(*final(r))),
            final(self).spec_cap() == old(self).spec_cap(),
            final(self).wf(),
    {
        let idx = rid.as_u32() as usize;
        self.heap[idx].as_mut().unwrap()
    }

    pub fn insert(&mut self, rid: &Rid, val: T)
        requires
            old(self).wf(),
            rid.id() < old(self).spec_cap(),
        ensures
            final(self)@ == old(self)@.update(rid.id() as int, Some(val)),
            final(self).spec_cap() == old(self).spec_cap(),
            final(self).wf(),
    {
        let idx = rid.as_u32() as usize;
        self.heap.set(idx, Some(val));
    }
}

} // verus!

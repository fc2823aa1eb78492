pub mod test_gen;

pub use test_gen::TestGen;

use rand::Rng;
use std::marker::PhantomData;
use vstd::prelude::*;

verus! {

/// A draw below `bound` (rand's `gen_range(0..bound)` on the thread's generator).
#[verifier::external_body]
pub(crate) fn rand_below_u32(bound: u32) -> (r: u32)
    requires
        bound > 0,
    ensures
        r < bound,
{
    rand::thread_rng().gen_range(0..bound)
}

/// A handle on a value of type `T` held elsewhere, by its address, that can be handed
/// across threads.
#[derive(Debug)]
pub struct PointerRef<T> {
    ptr: usize,
    pt: PhantomData<T>,
}

impl<T> Clone for PointerRef<T> {
    fn clone(&self) -> (r: Self)
        ensures
            r == *self,
    {
        PointerRef { ptr: self.ptr, pt: PhantomData }
    }
}

impl<T> PointerRef<T> {
    pub closed spec fn spec_ptr(&self) -> usize {
        self.ptr
    }

    pub fn new(ptr: usize) -> (r: Self)
        ensures
            r.spec_ptr() == ptr,
    {
        Self { ptr, pt: PhantomData }
    }

    pub fn to_ptr(&self) -> (r: usize)
        ensures
            r == self.spec_ptr(),
    {
        self.ptr
    }
}

} // verus!

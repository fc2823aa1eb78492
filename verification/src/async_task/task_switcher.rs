use vstd::prelude::*;

verus! {

/// A future that yields a given number of times before it is ready.
pub struct DummySwitcher {
    remaining: usize,
}

impl DummySwitcher {
    pub closed spec fn spec_remaining(&self) -> usize {
        self.remaining
    }

    pub fn new(round: usize) -> (r: Self)
        ensures
            r.spec_remaining() == round,
    {
        DummySwitcher { remaining: round }
    }

    /// One poll: ready once no yields remain, else one yield fewer.
    pub fn poll_step(&mut self) -> (ready: bool)
        ensures
            ready == (old(self).spec_remaining() == 0),
            ready ==> final(self).spec_remaining() == 0,
            !ready ==> final(self).spec_remaining() == old(self).spec_remaining() - 1,
    {
        if self.remaining == 0 {
            true
        } else {
            self.remaining = self.remaining - 1;
            false
        }
    }
}

} // verus!

use vstd::prelude::*;

verus! {

/// A future that yields once, so the memory it was made for can be fetched meanwhile.
pub struct Prefetcher {
    is_first_poll: bool,
}

impl Prefetcher {
    pub closed spec fn spec_first_poll(&self) -> bool {
        self.is_first_poll
    }

    /// Made for the memory of `reference`: the step to await once its prefetch is issued.
    #[must_use]
    pub fn fetch<T>(reference: &T) -> (r: Self)
        ensures
            r.spec_first_poll(),
    {
        Prefetcher { is_first_poll: true }
    }

    /// Made for the memory at an address: the step to await once its prefetch is issued.
    #[must_use]
    pub fn fetch_ptr(addr: usize) -> (r: Self)
        ensures
            r.spec_first_poll(),
    {
        Prefetcher { is_first_poll: true }
    }

    /// One poll: pending the first time, ready after.
    pub fn poll_step(&mut self) -> (ready: bool)
        ensures
            ready == !old(self).spec_first_poll(),
            !final(self).spec_first_poll(),
    {
        if self.is_first_poll {
            self.is_first_poll = false;
            false
        } else {
            true
        }
    }
}

/// A reference handed out after one yield, so it can be fetched meanwhile.
pub struct PrefetchRef<'a, T> {
    value: &'a T,
    fetched: bool,
}

impl<'a, T> PrefetchRef<'a, T> {
    pub closed spec fn spec_value(&self) -> &'a T {
        self.value
    }

    pub closed spec fn spec_fetched(&self) -> bool {
        self.fetched
    }

    pub fn new(reference: &'a T) -> (r: Self)
        ensures
            r.spec_value() == reference,
            !r.spec_fetched(),
    {
        Self { value: reference, fetched: false }
    }

    pub fn to_ref(&self) -> (r: &'a T)
        ensures
            r == self.spec_value(),
    {
        self.value
    }

    /// One poll: pending the first time, the reference after.
    pub fn poll_step(&mut self) -> (r: Option<&'a T>)
        ensures
            final(self).spec_fetched(),
            final(self).spec_value() == old(self).spec_value(),
            old(self).spec_fetched() ==> r == Some(old(self).spec_value()),
            !old(self).spec_fetched() ==> r is None,
    {
        if !self.fetched {
            self.fetched = true;
            None
        } else {
            Some(self.value)
        }
    }
}

} // verus!

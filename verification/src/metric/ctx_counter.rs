use vstd::prelude::*;

use super::counter::{Counter, CounterRecorder};
use std::collections::HashMap;

verus! {

broadcast use vstd::std_specs::hash::group_hash_axioms;

/// The contexts that counts can be kept for.
#[derive(Debug, Clone, Copy, PartialEq, Eq, Structural)]
pub enum CtxCounter {
    Customer,
    Stock,
    Order,
}

impl CtxCounter {
    /// The context's number.
    pub open spec fn spec_key(self) -> u8 {
        match self {
            CtxCounter::Customer => 2,
            CtxCounter::Stock => 3,
            CtxCounter::Order => 4,
        }
    }

    pub fn key(&self) -> (r: u8)
        ensures
            r == self.spec_key(),
    {
        match self {
            CtxCounter::Customer => 2,
            CtxCounter::Stock => 3,
            CtxCounter::Order => 4,
        }
    }

    /// The name the context is reported under.
    pub open spec fn spec_name(&self) -> Seq<char> {
        match self {
            CtxCounter::Customer => "Customer"@,
            CtxCounter::Stock => "Stock"@,
            CtxCounter::Order => "Order"@,
        }
    }

    pub fn name(&self) -> (r: &'static str)
        ensures
            r@ == self.spec_name(),
    {
        match self {
            CtxCounter::Customer => "Customer",
            CtxCounter::Stock => "Stock",
            CtxCounter::Order => "Order",
        }
    }
}

/// Event counts kept per context; a context has counts once an event was counted for it.
#[derive(Debug, Clone)]
pub struct CtxCounterRecorder {
    counters: HashMap<u8, CounterRecorder>,
}

impl CtxCounterRecorder {
    pub closed spec fn map(&self) -> Map<u8, CounterRecorder> {
        self.counters@
    }

    /// Only the contexts' numbers are keys.
    pub open spec fn wf(&self) -> bool {
        forall|k: u8| #[trigger] self.map().contains_key(k) ==> 2 <= k <= 4
    }

    pub open spec fn get_spec(&self, tag: CtxCounter) -> Option<CounterRecorder> {
        if self.map().contains_key(tag.spec_key()) {
            Some(self.map()[tag.spec_key()])
        } else {
            None
        }
    }

    /// The count of an event in a context (0 for a context without counts).
    pub open spec fn count_spec(&self, tag: CtxCounter, event: Counter) -> u64 {
        match self.get_spec(tag) {
            Some(c) => c.counters@[event.spec_index() as int],
            None => 0,
        }
    }

    pub fn new() -> (r: Self)
        ensures
            r.wf(),
            forall|c: CtxCounter| #[trigger] r.get_spec(c) is None,
    {
        CtxCounterRecorder { counters: HashMap::new() }
    }

    pub fn get(&self, tag: CtxCounter) -> (r: Option<CounterRecorder>)
        ensures
            r == self.get_spec(tag),
    {
        let k = tag.key();
        match self.counters.get(&k) {
            Some(c) => Some(*c),
            None => None,
        }
    }

    pub fn increment(&mut self, event: Counter, amount: u64, tag: CtxCounter)
        requires
            old(self).wf(),
            old(self).count_spec(tag, event) + amount <= u64::MAX,
        ensures
            final(self).wf(),
            final(self).count_spec(tag, event) == old(self).count_spec(tag, event) + amount,
            final(self).get_spec(tag) is Some,
            forall|t: CtxCounter, e: Counter| !(t == tag && e == event) ==> #[trigger] final(self).count_spec(t, e) == old(self).count_spec(t, e),
    {
        let k = tag.key();
        let mut recorder = match self.counters.get(&k) {
            Some(c) => *c,
            None => CounterRecorder::new(),
        };
        recorder.increment(event, amount);
        self.counters.insert(k, recorder);
        proof {
            assert forall|t: CtxCounter, e: Counter| !(t == tag && e == event) implies #[trigger] self.count_spec(t, e) == old(self).count_spec(t, e) by {
                if t == tag {
                    assert(e.spec_index() != event.spec_index());
                } else {
                    assert(t.spec_key() != tag.spec_key());
                }
            }
        }
    }

    pub fn reset(&mut self)
        ensures
            final(self).wf(),
            forall|c: CtxCounter| #[trigger] final(self).get_spec(c) is None,
    {
        self.counters.clear();
    }

    /// Adds the counts of `other`, context by context (the `+=` of two recorders).
    pub fn add_assign(&mut self, other: &CtxCounterRecorder)
        requires
            old(self).wf(),
            forall|t: CtxCounter, e: Counter| #[trigger] old(self).count_spec(t, e) + other.count_spec(t, e) <= u64::MAX,
        ensures
            final(self).wf(),
            forall|t: CtxCounter, e: Counter| #[trigger] final(self).count_spec(t, e) == old(self).count_spec(t, e) + other.count_spec(t, e),
            forall|t: CtxCounter| (#[trigger] final(self).get_spec(t) is Some) <==> (old(self).get_spec(t) is Some || other.get_spec(t) is Some),
    {
        self.add_one(other, CtxCounter::Customer);
        self.add_one(other, CtxCounter::Stock);
        self.add_one(other, CtxCounter::Order);
        proof {
            assert forall|t: CtxCounter, e: Counter| #[trigger] self.count_spec(t, e) == old(self).count_spec(t, e) + other.count_spec(t, e) by {
                match t {
                    CtxCounter::Customer => {},
                    CtxCounter::Stock => {},
                    CtxCounter::Order => {},
                }
            }
            assert forall|t: CtxCounter| (#[trigger] self.get_spec(t) is Some) <==> (old(self).get_spec(t) is Some || other.get_spec(t) is Some) by {
                match t {
                    CtxCounter::Customer => {},
                    CtxCounter::Stock => {},
                    CtxCounter::Order => {},
                }
            }
        }
    }

    fn add_one(&mut self, other: &CtxCounterRecorder, tag: CtxCounter)
        requires
            old(self).wf(),
            forall|e: Counter| #[trigger] old(self).count_spec(tag, e) + other.count_spec(tag, e) <= u64::MAX,
        ensures
            final(self).wf(),
            forall|e: Counter| #[trigger] final(self).count_spec(tag, e) == old(self).count_spec(tag, e) + other.count_spec(tag, e),
            forall|t: CtxCounter, e: Counter| t != tag ==> #[trigger] final(self).count_spec(t, e) == old(self).count_spec(t, e),
            (final(self).get_spec(tag) is Some) <==> (old(self).get_spec(tag) is Some || other.get_spec(tag) is Some),
            forall|t: CtxCounter| t != tag ==> #[trigger] final(self).get_spec(t) == old(self).get_spec(t),
    {
        let k = tag.key();
        match other.counters.get(&k) {
            Some(rv) => {
                let merged = match self.counters.get(&k) {
                    Some(v) => {
                        proof {
                            assert forall|i: int| 0 <= i < Counter::LENGTH implies v.counters@[i] + rv.counters@[i] <= u64::MAX by {
                                let e = Counter::spec_from_index(i);
                                assert(old(self).count_spec(tag, e) + other.count_spec(tag, e) <= u64::MAX);
                            }
                        }
                        v.add(rv)
                    },
                    None => *rv,
                };
                self.counters.insert(k, merged);
                proof {
                    assert forall|e: Counter| #[trigger] self.count_spec(tag, e) == old(self).count_spec(tag, e) + other.count_spec(tag, e) by {}
                    assert forall|t: CtxCounter, e: Counter| t != tag implies #[trigger] self.count_spec(t, e) == old(self).count_spec(t, e) by {
                        assert(t.spec_key() != tag.spec_key());
                    }
                    assert forall|t: CtxCounter| t != tag implies #[trigger] self.get_spec(t) == old(self).get_spec(t) by {
                        assert(t.spec_key() != tag.spec_key());
                    }
                }
            },
            None => {},
        }
    }
}

} // verus!

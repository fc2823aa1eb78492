use vstd::prelude::*;

pub mod micro;
pub mod tpcc;
pub mod utils;

verus! {

/// What a benchmark table caches: some fields, whole records, or nothing.
#[derive(Debug, Clone, Copy, PartialEq, Eq, Structural)]
pub enum CachePolicy {
    Field,
    Tuple,
    Direct,
}

impl CachePolicy {
    /// The name the policy is shown with.
    pub open spec fn spec_name(&self) -> Seq<char> {
        match self {
            CachePolicy::Field => "field"@,
            CachePolicy::Tuple => "tuple"@,
            CachePolicy::Direct => "direct"@,
        }
    }

    pub fn name(&self) -> (r: &'static str)
        ensures
            r@ == self.spec_name(),
    {
        match self {
            CachePolicy::Field => "field",
            CachePolicy::Tuple => "tuple",
            CachePolicy::Direct => "direct",
        }
    }
}

} // verus!

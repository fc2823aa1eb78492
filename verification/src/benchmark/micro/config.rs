use vstd::prelude::*;

use crate::benchmark::CachePolicy;

verus! {

/// How the keys of a micro benchmark are drawn.
#[derive(Debug, Clone, Copy, PartialEq, Eq, Structural)]
pub enum Distribution {
    Uniform,
    Zipfian,
    SelfSimilar01,
    SelfSimilar02,
    SelfSimilar03,
    SelfSimilar04,
    SelfSimilar05,
}

impl Distribution {
    pub open spec fn spec_name(&self) -> Seq<char> {
        match self {
            Distribution::Uniform => "uniform"@,
            Distribution::Zipfian => "zipfian"@,
            Distribution::SelfSimilar01 => "selfsimilar01"@,
            Distribution::SelfSimilar02 => "selfsimilar02"@,
            Distribution::SelfSimilar03 => "selfsimilar03"@,
            Distribution::SelfSimilar04 => "selfsimilar04"@,
            Distribution::SelfSimilar05 => "selfsimilar05"@,
        }
    }

    pub fn name(&self) -> (r: &'static str)
        ensures
            r@ == self.spec_name(),
    {
        match self {
            Distribution::Uniform => "uniform",
            Distribution::Zipfian => "zipfian",
            Distribution::SelfSimilar01 => "selfsimilar01",
            Distribution::SelfSimilar02 => "selfsimilar02",
            Distribution::SelfSimilar03 => "selfsimilar03",
            Distribution::SelfSimilar04 => "selfsimilar04",
            Distribution::SelfSimilar05 => "selfsimilar05",
        }
    }
}

/// The mix of operations of a micro benchmark.
#[derive(Debug, Clone, Copy, PartialEq, Eq, Structural)]
pub enum Workload {
    ReadOnly,
    ReadHeavy,
    Balanced,
    WriteHeavy,
    WriteOnly,
    InsertOnly,
}

impl Workload {
    pub open spec fn spec_name(&self) -> Seq<char> {
        match self {
            Workload::ReadOnly => "read_only"@,
            Workload::ReadHeavy => "read_heavy"@,
            Workload::Balanced => "balanced"@,
            Workload::WriteHeavy => "write_heavy"@,
            Workload::WriteOnly => "write_only"@,
            Workload::InsertOnly => "insert_only"@,
        }
    }

    pub fn name(&self) -> (r: &'static str)
        ensures
            r@ == self.spec_name(),
    {
        match self {
            Workload::ReadOnly => "read_only",
            Workload::ReadHeavy => "read_heavy",
            Workload::Balanced => "balanced",
            Workload::WriteHeavy => "write_heavy",
            Workload::WriteOnly => "write_only",
            Workload::InsertOnly => "insert_only",
        }
    }
}

/// The replacement of a cache; `Off` is the one with no replacement (shown as "none").
#[derive(Debug, Clone, Copy, PartialEq, Eq, Structural)]
pub enum Replacement {
    Off,
    Clock,
    Direct,
}

impl Replacement {
    pub open spec fn spec_name(&self) -> Seq<char> {
        match self {
            Replacement::Clock => "clock"@,
            Replacement::Off => "none"@,
            Replacement::Direct => "direct"@,
        }
    }

    pub fn name(&self) -> (r: &'static str)
        ensures
            r@ == self.spec_name(),
    {
        match self {
            Replacement::Clock => "clock",
            Replacement::Off => "none",
            Replacement::Direct => "direct",
        }
    }
}

#[derive(Debug, Clone, Copy, PartialEq, Eq, Structural)]
pub enum MemEngine {
    Sync,
    Async,
}

impl MemEngine {
    pub open spec fn spec_name(&self) -> Seq<char> {
        match self {
            MemEngine::Sync => "sync"@,
            MemEngine::Async => "async"@,
        }
    }

    pub fn name(&self) -> (r: &'static str)
        ensures
            r@ == self.spec_name(),
    {
        match self {
            MemEngine::Sync => "sync",
            MemEngine::Async => "async",
        }
    }
}

/// The configuration of the cache micro benchmark.
#[derive(Debug, Clone)]
pub struct Cache {
    pub name: String,
    pub threads: Vec<usize>,
    pub cache_size_mb: usize,
    pub data_size_mb: usize,
    pub field_cnt: usize,
    pub field_cached_cnt: usize,
    pub probe_len: usize,
    pub operation_m: usize,
    pub distribution: Distribution,
    pub replacement: Replacement,
    pub time: usize,
}

/// The configuration of the transaction micro benchmark.
#[derive(Debug, Clone)]
pub struct Transaction {
    pub name: String,
    pub time: usize,
    pub threads: Vec<usize>,
    pub customer_cache_mb: usize,
    pub customer_data_mb: usize,
    pub item_cache_mb: usize,
    pub item_data_mb: usize,
    pub mem_engine: MemEngine,
}

/// The configuration of the schema micro benchmark.
#[derive(Debug, Clone)]
pub struct Schema {
    pub name: String,
    pub time: usize,
    pub threads: Vec<usize>,
    pub workload: Workload,
    pub schema_cnt: usize,
    pub mem_engine: MemEngine,
}

/// The configuration of the table micro benchmark, but for the probability of caching a
/// read record, which is a fraction (a float) and stays with the caller.
#[derive(Debug, Clone)]
pub struct Table {
    pub name: String,
    pub threads: Vec<usize>,
    pub cache_size_mb: usize,
    pub data_size_mb: usize,
    pub probe_len: usize,
    pub distribution: Distribution,
    pub policy: CachePolicy,
    pub workload: Workload,
    pub time: usize,
    pub mem_engine: MemEngine,
}

} // verus!

use vstd::prelude::*;

pub mod config;
pub mod txn_result;

pub use txn_result::TransactionResult;

use self::config::Workload;
use rand::rngs::ThreadRng;
use rand::Rng;

verus! {

/// The thread's random generator of rand.
#[verifier::external_type_specification]
#[verifier::external_body]
pub struct ExThreadRng(rand::rngs::ThreadRng);

/// A draw from `low..high` with the generator (rand's `gen_range`).
#[verifier::external_body]
pub(crate) fn rng_gen_range_u64(rng: &mut ThreadRng, low: u64, high: u64) -> (r: u64)
    requires
        low < high,
    ensures
        low <= r < high,
{
    rng.gen_range(low..high)
}

/// An operation of a micro benchmark.
#[derive(Debug, Clone, Copy, PartialEq, Eq, Structural)]
pub enum Operation {
    Read,
    Update,
    Insert,
}

impl Operation {
    /// The operation of a workload for a draw: a draw from `0..4` for the read- and
    /// write-heavy mixes, from `0..2` for the balanced one, ignored by the others.
    pub open spec fn spec_from_draw(workload: Workload, draw: u64) -> Operation {
        match workload {
            Workload::ReadOnly => Operation::Read,
            Workload::ReadHeavy => if draw == 0 {
                Operation::Update
            } else {
                Operation::Read
            },
            Workload::Balanced => if draw == 0 {
                Operation::Update
            } else {
                Operation::Read
            },
            Workload::WriteHeavy => if draw == 0 {
                Operation::Read
            } else {
                Operation::Update
            },
            Workload::WriteOnly => Operation::Update,
            Workload::InsertOnly => Operation::Insert,
        }
    }

    pub fn from_draw(workload: Workload, draw: u64) -> (r: Operation)
        ensures
            r == Operation::spec_from_draw(workload, draw),
    {
        match workload {
            Workload::ReadOnly => Operation::Read,
            Workload::ReadHeavy => if draw == 0 {
                Operation::Update
            } else {
                Operation::Read
            },
            Workload::Balanced => if draw == 0 {
                Operation::Update
            } else {
                Operation::Read
            },
            Workload::WriteHeavy => if draw == 0 {
                Operation::Read
            } else {
                Operation::Update
            },
            Workload::WriteOnly => Operation::Update,
            Workload::InsertOnly => Operation::Insert,
        }
    }

    /// An operation of the workload: one in four is an update for the read-heavy mix, one
    /// in two for the balanced one, one in four is a read for the write-heavy one.
    pub fn gen(rng: &mut ThreadRng, workload: Workload) -> (r: Operation)
        ensures
            workload == Workload::ReadOnly ==> r == Operation::Read,
            workload == Workload::WriteOnly ==> r == Operation::Update,
            workload == Workload::InsertOnly ==> r == Operation::Insert,
            r != Operation::Insert <==> workload != Workload::InsertOnly,
            exists|d: u64| d < 4 && r == Operation::spec_from_draw(workload, d),
            workload == Workload::Balanced ==> exists|d: u64|
                d < 2 && r == Operation::spec_from_draw(workload, d),
    {
        match workload {
            Workload::ReadHeavy | Workload::WriteHeavy => {
                let d = rng_gen_range_u64(rng, 0, 4);
                Operation::from_draw(workload, d)
            },
            Workload::Balanced => {
                let d = rng_gen_range_u64(rng, 0, 2);
                Operation::from_draw(workload, d)
            },
            _ => {
                let r = Operation::from_draw(workload, 0);
                assert(Operation::spec_from_draw(workload, 0) == r);
                r
            },
        }
    }
}

/// The mixes have their shares of operations over their draws: under the read-heavy mix
/// exactly one of the four draws from `0..4` gives an update and the other three a read;
/// under the balanced mix one of the two draws from `0..2` gives an update and the other a
/// read; under the write-heavy mix exactly one of the four draws gives a read and the
/// other three an update. The read-only, write-only and insert-only mixes give only reads,
/// updates and inserts.
pub proof fn lemma_mix_shares()
    ensures
        exists|u: u64|
            u < 4 && Operation::spec_from_draw(Workload::ReadHeavy, u) == Operation::Update && (
            forall|d: u64|
                d < 4 && d != u ==> #[trigger] Operation::spec_from_draw(Workload::ReadHeavy, d)
                    == Operation::Read),
        (Operation::spec_from_draw(Workload::Balanced, 0) == Operation::Update
            && Operation::spec_from_draw(Workload::Balanced, 1) == Operation::Read) || (
        Operation::spec_from_draw(Workload::Balanced, 0) == Operation::Read
            && Operation::spec_from_draw(Workload::Balanced, 1) == Operation::Update),
        exists|u: u64|
            u < 4 && Operation::spec_from_draw(Workload::WriteHeavy, u) == Operation::Read && (
            forall|d: u64|
                d < 4 && d != u ==> #[trigger] Operation::spec_from_draw(Workload::WriteHeavy, d)
                    == Operation::Update),
        forall|d: u64| #[trigger] Operation::spec_from_draw(Workload::ReadOnly, d) == Operation::Read,
        forall|d: u64| #[trigger] Operation::spec_from_draw(Workload::WriteOnly, d) == Operation::Update,
        forall|d: u64| #[trigger] Operation::spec_from_draw(Workload::InsertOnly, d) == Operation::Insert,
{
    assert(Operation::spec_from_draw(Workload::ReadHeavy, 0) == Operation::Update);
    assert(Operation::spec_from_draw(Workload::WriteHeavy, 0) == Operation::Read);
}

/// The log record of a write: the key and the new values, cut to 32 bits.
#[derive(Debug, Clone, Copy)]
pub struct WriteLogEntry<const N: usize> {
    key: usize,
    values: [u32; N],
}

impl<const N: usize> WriteLogEntry<N> {
    pub closed spec fn spec_key(&self) -> usize {
        self.key
    }

    pub closed spec fn spec_values(&self) -> Seq<u32> {
        self.values@
    }

    pub fn new() -> (r: Self)
        ensures
            r.spec_key() == 0,
            forall|i: int| 0 <= i < N ==> r.spec_values()[i] == 0,
    {
        Self { key: 0, values: [0u32;N] }
    }

    pub fn create_write(key: usize, values: [usize; N]) -> (r: Self)
        ensures
            r.spec_key() == key,
            r.spec_values().len() == N,
            forall|i: int| 0 <= i < N ==> r.spec_values()[i] == values@[i] as u32,
    {
        let mut compact_values = [0u32;N];
        let mut i: usize = 0;
        while i < N
            invariant
                0 <= i <= N,
                compact_values@.len() == N,
                forall|j: int| 0 <= j < i ==> compact_values@[j] == values@[j] as u32,
            decreases N - i,
        {
            compact_values[i] = values[i] as u32;
            i += 1;
        }
        WriteLogEntry { key, values: compact_values }
    }
}

} // verus!

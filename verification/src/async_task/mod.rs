use vstd::prelude::*;

pub mod prefetcher;
pub mod task_switcher;
pub mod test_utils;

pub use prefetcher::{PrefetchRef, Prefetcher};
pub use task_switcher::DummySwitcher;

verus! {

/// An executor that runs up to `N` tasks side by side; the tasks sit in slots.
pub struct Executor<F, const N: usize> {
    task_queue: Vec<Option<F>>,
}

/// The position of the first free slot among the first `n`.
pub open spec fn first_free<F>(slots: Seq<Option<F>>, n: int) -> Option<int>
    decreases n,
{
    if n <= 0 {
        None
    } else {
        match first_free(slots, n - 1) {
            Some(i) => Some(i),
            None => if slots[n - 1] is None {
                Some(n - 1)
            } else {
                None
            },
        }
    }
}

proof fn lemma_first_free<F>(slots: Seq<Option<F>>, n: int)
    requires
        0 <= n <= slots.len(),
    ensures
        first_free(slots, n) matches Some(i) ==> 0 <= i < n && slots[i] is None && forall|j: int| 0 <= j < i ==> slots[j] is Some,
        first_free(slots, n) is None ==> forall|j: int| 0 <= j < n ==> slots[j] is Some,
    decreases n,
{
    if n > 0 {
        lemma_first_free(slots, n - 1);
    }
}

impl<F, const N: usize> Executor<F, N> {
    pub closed spec fn slots(&self) -> Seq<Option<F>> {
        self.task_queue@
    }

    pub open spec fn wf(&self) -> bool {
        self.slots().len() == N
    }

    pub fn new() -> (r: Self)
        ensures
            r.wf(),
            forall|i: int| 0 <= i < N ==> r.slots()[i] is None,
    {
        let mut task_queue: Vec<Option<F>> = Vec::new();
        let mut i: usize = 0;
        while i < N
            invariant
                0 <= i <= N,
                task_queue@.len() == i,
                forall|j: int| 0 <= j < i ==> task_queue@[j] is None,
            decreases N - i,
        {
            task_queue.push(None);
            i += 1;
        }
        Executor { task_queue }
    }

    /// Puts a task in the first free slot; the executor must have one ("max executor queue
    /// reached" otherwise).
    pub fn spawn(&mut self, task: F)
        requires
            old(self).wf(),
            first_free(old(self).slots(), N as int) is Some,
        ensures
            final(self).wf(),
            final(self).slots() == old(self).slots().update(first_free(old(self).slots(), N as int).unwrap(), Some(task)),
    {
        proof {
            lemma_first_free(self.slots(), N as int);
        }
        let mut i: usize = 0;
        while i < N
            invariant
                0 <= i <= N,
                self.slots() == old(self).slots(),
                self.wf(),
                first_free(self.slots(), N as int) is Some,
                first_free(self.slots(), i as int) is None,
                forall|j: int| 0 <= j < i ==> self.slots()[j] is Some,
            decreases N - i,
        {
            if self.task_queue[i].is_none() {
                proof {
                    assert(first_free(self.slots(), i + 1) == Some(i as int));
                    lemma_first_free_stable(self.slots(), i as int + 1, N as int);
                }
                self.task_queue.set(i, Some(task));
                return;
            }
            i += 1;
        }
        proof {
            assert(false);
        }
    }

    /// The task in a slot, to be polled.
    pub fn task_mut(&mut self, pos: usize) -> (r: Option<&mut F>)
        requires
            old(self).wf(),
            pos < N,
        ensures
            final(self).wf(),
            r is None <==> old(self).slots()[pos as int] is None,
            r matches Some(t) ==> Some(*t) == old(self).slots()[pos as int] && final(self).slots() == old(self).slots().update(pos as int, Some(*final(t))),
            r is None ==> final(self).slots() == old(self).slots(),
    {
        self.task_queue[pos].as_mut()
    }

    /// Frees a slot whose task is done.
    pub fn finish(&mut self, pos: usize)
        requires
            old(self).wf(),
            pos < N,
        ensures
            final(self).wf(),
            final(self).slots() == old(self).slots().update(pos as int, None),
    {
        self.task_queue.set(pos, None);
    }

    /// The slot polled after `pos`, round robin.
    pub fn next_pos(pos: usize) -> (r: usize)
        requires
            pos < N,
        ensures
            r == (pos + 1) % (N as int),
    {
        if pos == N - 1 {
            proof {
                vstd::arithmetic::div_mod::lemma_mod_self_0(N as int);
            }
            0
        } else {
            proof {
                vstd::arithmetic::div_mod::lemma_small_mod((pos + 1) as nat, N as nat);
            }
            pos + 1
        }
    }
}

proof fn lemma_first_free_stable<F>(slots: Seq<Option<F>>, n: int, m: int)
    requires
        0 < n <= m,
        first_free(slots, n) is Some,
    ensures
        first_free(slots, m) == first_free(slots, n),
    decreases m - n,
{
    if m > n {
        lemma_first_free_stable(slots, n, m - 1);
    }
}

} // verus!

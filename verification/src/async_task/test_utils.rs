use vstd::prelude::*;

use rand::seq::SliceRandom;

use super::prefetcher::Prefetcher;
use super::{first_free, Executor};

verus! {

/// Shuffles `v` in place (rand's `shuffle` on the thread's generator): the result is a
/// permutation of `v`.
#[verifier::external_body]
pub(crate) fn shuffle_u64(v: &mut Vec<u64>)
    ensures
        final(v)@.to_multiset() == old(v)@.to_multiset(),
        final(v)@.len() == old(v)@.len(),
{
    v.shuffle(&mut rand::thread_rng());
}

/// A cell of a linked list laid out in an array: the index of the next cell, padded to a
/// cache line.
#[derive(Debug, Clone, Copy)]
pub struct Cell {
    next_index: u64,
    _padding: [u64; 7],
}

impl View for Cell {
    type V = u64;

    closed spec fn view(&self) -> u64 {
        self.next_index
    }
}

impl Cell {
    pub fn new(next_idx: u64) -> (r: Self)
        ensures
            r@ == next_idx,
    {
        Cell { next_index: next_idx, _padding: [0;7] }
    }

    pub fn set(&mut self, value: u64)
        ensures
            final(self)@ == value,
    {
        self.next_index = value;
    }

    pub fn get(&self) -> (r: u64)
        ensures
            r == self@,
    {
        self.next_index
    }
}

/// The index a walk from cell 0 is at after `k` steps.
pub open spec fn walk_pos(links: Seq<u64>, k: nat) -> int
    decreases k,
{
    if k == 0 {
        0
    } else {
        links[walk_pos(links, (k - 1) as nat)] as int
    }
}

/// The sum of the indices a walk from cell 0 reads in `k` steps.
pub open spec fn walk_sum(links: Seq<u64>, k: nat) -> int
    decreases k,
{
    if k == 0 {
        0
    } else {
        walk_sum(links, (k - 1) as nat) + links[walk_pos(links, (k - 1) as nat)]
    }
}

/// Every link points at a cell of the list.
pub open spec fn links_ok(links: Seq<u64>) -> bool {
    forall|j: int| 0 <= j < links.len() ==> #[trigger] links[j] < links.len()
}

proof fn lemma_walk_pos_in(links: Seq<u64>, k: nat)
    requires
        links_ok(links),
        links.len() > 0,
    ensures
        0 <= walk_pos(links, k) < links.len(),
    decreases k,
{
    if k > 0 {
        lemma_walk_pos_in(links, (k - 1) as nat);
    }
}

proof fn lemma_walk_sum_monotone(links: Seq<u64>, i: nat, j: nat)
    requires
        i <= j,
    ensures
        walk_sum(links, i) <= walk_sum(links, j),
    decreases j - i,
{
    if i < j {
        lemma_walk_sum_monotone(links, i, (j - 1) as nat);
    }
}

/// A list of cells to walk.
pub struct ArrayList {
    pub list: Vec<Cell>,
}

impl View for ArrayList {
    type V = Seq<u64>;

    /// The links of the cells.
    open spec fn view(&self) -> Seq<u64> {
        self.list@.map_values(|c: Cell| c@)
    }
}

/// The cell after the `i`-th one along the order (cell 0 first).
pub open spec fn order_next(order: Seq<u64>, i: int) -> u64 {
    if i < order.len() {
        order[i]
    } else {
        0
    }
}

/// The cell at place `i` of the order (cell 0 first).
pub open spec fn order_at(order: Seq<u64>, i: int) -> int {
    if i == 0 {
        0
    } else {
        order[i - 1] as int
    }
}

/// The place of cell `c` in the order (cell 0 first).
pub open spec fn order_pos(order: Seq<u64>, c: int) -> int {
    if c == 0 {
        0
    } else {
        order.index_of(c as u64) + 1
    }
}

/// The cells 1 to `n - 1`, in increasing order.
pub open spec fn cells_from_one(n: int) -> Seq<u64> {
    Seq::new((n - 1) as nat, |i: int| (i + 1) as u64)
}

/// An order of the cells 1 to `n - 1` names each of them once, and places them as
/// `order_pos` says.
proof fn lemma_order(order: Seq<u64>, n: int)
    requires
        1 <= n <= u64::MAX,
        order.len() == n - 1,
        order.to_multiset() == cells_from_one(n).to_multiset(),
    ensures
        order.no_duplicates(),
        forall|j: int| 0 <= j < order.len() ==> 1 <= #[trigger] order[j] < n,
        forall|c: int|
            0 <= c < n ==> 0 <= #[trigger] order_pos(order, c) < n && order_at(
                order,
                order_pos(order, c),
            ) == c,
        forall|j: int| 0 <= j < n ==> #[trigger] order_pos(order, order_at(order, j)) == j,
{
    broadcast use vstd::seq_lib::group_to_multiset_ensures;

    let sorted = cells_from_one(n);
    assert(sorted.no_duplicates());
    sorted.lemma_multiset_has_no_duplicates();
    order.lemma_multiset_has_no_duplicates_conv();
    assert forall|j: int| 0 <= j < order.len() implies 1 <= #[trigger] order[j] < n by {
        assert(order.contains(order[j]));
        assert(order.to_multiset().count(order[j]) > 0);
        assert(sorted.contains(order[j]));
    }
    assert forall|c: int| 0 <= c < n implies 0 <= #[trigger] order_pos(order, c) < n && order_at(
        order,
        order_pos(order, c),
    ) == c by {
        if c > 0 {
            assert(sorted[c - 1] == c as u64);
            assert(sorted.contains(c as u64));
            assert(sorted.to_multiset().count(c as u64) > 0);
            assert(order.contains(c as u64));
        }
    }
    assert forall|j: int| 0 <= j < n implies #[trigger] order_pos(order, order_at(order, j)) == j by {
        if j > 0 {
            let c = order[j - 1];
            assert(order.contains(c));
            let k = order.index_of(c);
            assert(order[k] == c);
        }
    }
}

impl ArrayList {
    /// A list of `array_size` cells that links them all into one cycle, in a random order,
    /// from cell 0 back to cell 0.
    pub fn new(array_size: usize) -> (r: Self)
        requires
            array_size > 0,
        ensures
            r@.len() == array_size,
            links_ok(r@),
            exists|order: Seq<u64>|
                {
                    &&& order.len() == array_size - 1
                    &&& #[trigger] order.to_multiset() == cells_from_one(array_size as int).to_multiset()
                    &&& forall|i: int|
                        0 <= i < array_size ==> r@[#[trigger] order_at(order, i)] == order_next(
                            order,
                            i,
                        )
                },
    {
        let mut list: Vec<Cell> = Vec::new();
        let mut k: usize = 0;
        while k < array_size
            invariant
                0 <= k <= array_size,
                list@.len() == k,
                forall|j: int| 0 <= j < k ==> (#[trigger] list@[j])@ == 0,
            decreases array_size - k,
        {
            list.push(Cell::new(0));
            k += 1;
        }
        let mut temp_values: Vec<u64> = Vec::new();
        let mut i: usize = 1;
        while i < array_size
            invariant
                1 <= i <= array_size,
                temp_values@ == Seq::new((i - 1) as nat, |j: int| (j + 1) as u64),
            decreases array_size - i,
        {
            temp_values.push(i as u64);
            i += 1;
        }
        proof {
            assert(temp_values@ == cells_from_one(array_size as int));
        }
        shuffle_u64(&mut temp_values);
        let ghost order = temp_values@;
        let ghost n = array_size as int;
        proof {
            lemma_order(order, n);
        }
        let mut pre_idx: usize = 0;
        let mut t: usize = 0;
        while t < temp_values.len()
            invariant
                0 <= t <= order.len(),
                n == array_size,
                order.len() == n - 1,
                temp_values@ == order,
                list@.len() == n,
                order.no_duplicates(),
                forall|j: int| 0 <= j < order.len() ==> 1 <= #[trigger] order[j] < n,
                forall|c: int|
                    0 <= c < n ==> 0 <= #[trigger] order_pos(order, c) < n && order_at(
                        order,
                        order_pos(order, c),
                    ) == c,
                forall|j: int| 0 <= j < n ==> #[trigger] order_pos(order, order_at(order, j)) == j,
                pre_idx == order_at(order, t as int),
                forall|c: int|
                    0 <= c < n ==> (#[trigger] list@[c])@ == if order_pos(order, c) < t {
                        order_next(order, order_pos(order, c))
                    } else {
                        0
                    },
            decreases order.len() - t,
        {
            let elem = temp_values[t];
            let mut cell = list[pre_idx];
            cell.set(elem);
            list.set(pre_idx, cell);
            proof {
                assert(order_pos(order, pre_idx as int) == t);
                assert forall|c: int| 0 <= c < n implies (#[trigger] list@[c])@ == if order_pos(
                    order,
                    c,
                ) < t + 1 {
                    order_next(order, order_pos(order, c))
                } else {
                    0
                } by {
                    if c != pre_idx {
                        assert(order_pos(order, c) != t);
                    }
                }
            }
            pre_idx = elem as usize;
            t += 1;
        }
        let r = ArrayList { list };
        proof {
            assert forall|j: int| 0 <= j < r@.len() implies #[trigger] r@[j] < r@.len() by {
                assert(r@[j] == list@[j]@);
                if order_pos(order, j) < t {
                    assert(order_next(order, order_pos(order, j)) < n);
                }
            }
            assert forall|i: int| 0 <= i < array_size implies r@[#[trigger] order_at(order, i)]
                == order_next(order, i) by {
                assert(order_pos(order, order_at(order, i)) == i);
            }
        }
        r
    }

    /// The sum of the cells' indices: `0 + 1 + ... + (len - 1)`.
    pub fn ground_truth_sum(&self) -> (r: u64)
        requires
            self.list@.len() > 0,
            (self.list@.len() - 1) * self.list@.len() <= usize::MAX,
        ensures
            r == ((self.list@.len() - 1) * self.list@.len() / 2) as u64,
    {
        let n = self.list.len();
        ((n - 1) * n / 2) as u64
    }
}

/// The sum of a sequence of indices.
pub open spec fn index_sum(s: Seq<u64>) -> int {
    s.fold_left(0int, |acc: int, x: u64| acc + x)
}

proof fn lemma_index_sum_push(s: Seq<u64>, x: u64)
    ensures
        index_sum(s.push(x)) == index_sum(s) + x,
{
    assert(s.push(x).drop_last() =~= s);
}

proof fn lemma_cells_from_one_sum(n: int)
    requires
        1 <= n <= u64::MAX,
    ensures
        2 * index_sum(cells_from_one(n)) == (n - 1) * n,
    decreases n,
{
    if n == 1 {
        assert(cells_from_one(1) =~= Seq::<u64>::empty());
    } else {
        lemma_cells_from_one_sum(n - 1);
        assert(cells_from_one(n) =~= cells_from_one(n - 1).push((n - 1) as u64));
        lemma_index_sum_push(cells_from_one(n - 1), (n - 1) as u64);
        assert((n - 2) * (n - 1) + 2 * (n - 1) == (n - 1) * n) by (nonlinear_arith);
    }
}

/// Walking the list along the order reads the order's cells, one step each.
proof fn lemma_walk_along_order(links: Seq<u64>, order: Seq<u64>, k: nat)
    requires
        links.len() == order.len() + 1,
        k <= order.len(),
        forall|i: int|
            0 <= i < links.len() ==> links[#[trigger] order_at(order, i)] == order_next(order, i),
    ensures
        walk_pos(links, k) == order_at(order, k as int),
        walk_sum(links, k) == index_sum(order.take(k as int)),
    decreases k,
{
    if k > 0 {
        let j = (k - 1) as nat;
        lemma_walk_along_order(links, order, j);
        assert(links[order_at(order, j as int)] == order_next(order, j as int));
        assert(order.take(k as int) =~= order.take(j as int).push(order[j as int]));
        lemma_index_sum_push(order.take(j as int), order[j as int]);
    }
}

/// Walking a list that `ArrayList::new` made, as many steps as it has cells, reads every
/// cell once: the sum of the indices read is `ground_truth_sum`.
pub proof fn lemma_new_list_walk_sum(links: Seq<u64>, order: Seq<u64>)
    requires
        links.len() > 0,
        links.len() <= u64::MAX,
        order.len() == links.len() - 1,
        order.to_multiset() == cells_from_one(links.len() as int).to_multiset(),
        forall|i: int|
            0 <= i < links.len() ==> links[#[trigger] order_at(order, i)] == order_next(order, i),
    ensures
        walk_sum(links, links.len()) == (links.len() - 1) * links.len() / 2,
{
    let n = links.len() as int;
    let last = order.len();
    lemma_walk_along_order(links, order, last);
    assert(links[order_at(order, last as int)] == order_next(order, last as int));
    assert(order.take(last as int) =~= order);
    let f = |acc: int, x: u64| acc + x;
    assert(vstd::seq_lib::commutative_foldl(f));
    vstd::seq_lib::lemma_fold_left_permutation(order, cells_from_one(n), f, 0int);
    lemma_cells_from_one_sum(n);
    vstd::arithmetic::div_mod::lemma_div_multiples_vanish(walk_sum(links, links.len()), 2);
}

/// The sum of the indices read by walking each list from cell 0, as many steps as it has
/// cells.
pub open spec fn traverse_total(workloads: Seq<Seq<u64>>, n: int) -> int
    decreases n,
{
    if n <= 0 {
        0
    } else {
        traverse_total(workloads, n - 1) + walk_sum(workloads[n - 1], workloads[n - 1].len())
    }
}

proof fn lemma_traverse_total_monotone(workloads: Seq<Seq<u64>>, i: int, j: int)
    requires
        0 <= i <= j,
    ensures
        traverse_total(workloads, i) <= traverse_total(workloads, j),
    decreases j - i,
{
    if i < j {
        lemma_traverse_total_monotone(workloads, i, j - 1);
        assert(walk_sum(workloads[j - 1], workloads[j - 1].len()) >= 0) by {
            lemma_walk_sum_monotone(workloads[j - 1], 0, workloads[j - 1].len());
        }
    }
}

/// Walks each list from cell 0, as many steps as it has cells, and sums the indices read.
pub fn simple_traverse(workloads: &[ArrayList]) -> (r: u64)
    requires
        forall|w: int| 0 <= w < workloads@.len() ==> links_ok(#[trigger] workloads@[w]@),
        traverse_total(workloads@.map_values(|a: ArrayList| a@), workloads@.len() as int)
            <= u64::MAX,
    ensures
        r == traverse_total(workloads@.map_values(|a: ArrayList| a@), workloads@.len() as int),
{
    let ghost ws = workloads@.map_values(|a: ArrayList| a@);
    let mut sum: u64 = 0;
    let mut w: usize = 0;
    while w < workloads.len()
        invariant
            0 <= w <= workloads@.len(),
            ws == workloads@.map_values(|a: ArrayList| a@),
            forall|x: int| 0 <= x < workloads@.len() ==> links_ok(#[trigger] workloads@[x]@),
            traverse_total(ws, workloads@.len() as int) <= u64::MAX,
            sum == traverse_total(ws, w as int),
        decreases workloads@.len() - w,
    {
        let workload = &workloads[w];
        let ghost links = workload@;
        proof {
            assert(ws[w as int] == links);
            lemma_traverse_total_monotone(ws, w + 1, workloads@.len() as int);
        }
        let len = workload.list.len();
        let mut pre_idx: usize = 0;
        let mut i: usize = 0;
        while i < len
            invariant
                0 <= i <= len,
                len == links.len(),
                links == workload@,
                links_ok(links),
                pre_idx == walk_pos(links, i as nat),
                len > 0 ==> pre_idx < len,
                sum == traverse_total(ws, w as int) + walk_sum(links, i as nat),
                traverse_total(ws, w as int) + walk_sum(links, len as nat) <= u64::MAX,
            decreases len - i,
        {
            proof {
                lemma_walk_pos_in(links, i as nat);
                lemma_walk_sum_monotone(links, (i + 1) as nat, len as nat);
            }
            let value = workload.list[pre_idx].get();
            proof {
                assert(value == links[pre_idx as int]);
            }
            pre_idx = value as usize;
            sum = sum + value;
            i += 1;
        }
        w += 1;
    }
    sum
}

/// The number of lists an asynchronous traversal walks side by side.
pub const GROUP_SIZE: usize = 8;

/// The walk of list `list` as a task that yields before it reads each cell, so that the
/// cell can be fetched meanwhile: it has read `done` cells, stands at `pre_idx`, has summed
/// `sum`, and `fetch` is the fetch it waits on.
pub struct TraverseTask {
    list: usize,
    done: usize,
    pre_idx: usize,
    sum: u64,
    fetch: Option<Prefetcher>,
}

impl TraverseTask {
    pub closed spec fn spec_list(&self) -> usize {
        self.list
    }

    /// The task is where a walk of its list stands after `done` cells; between polls it
    /// waits on a fetch that has been polled once, unless it has not been polled yet.
    pub closed spec fn walking(&self, ws: Seq<Seq<u64>>) -> bool {
        let links = ws[self.list as int];
        &&& self.list < ws.len()
        &&& self.done <= links.len()
        &&& self.pre_idx == walk_pos(links, self.done as nat)
        &&& self.sum == walk_sum(links, self.done as nat)
        &&& self.fetch matches Some(p) ==> !p.spec_first_poll() && self.done < links.len()
        &&& self.fetch is None ==> self.done == 0
    }

    /// What is left of the task: two polls for each cell, one more when it has not been
    /// polled yet, and one to end.
    pub closed spec fn work_left(&self, ws: Seq<Seq<u64>>) -> nat {
        let links = ws[self.list as int];
        (2 * (links.len() - self.done) + (if self.fetch is None {
            1int
        } else {
            0int
        }) + 1) as nat
    }

    /// The walk of list `list`, not polled yet.
    pub fn new(list: usize) -> (r: Self)
        ensures
            r.spec_list() == list,
            forall|ws: Seq<Seq<u64>>| list < ws.len() ==> #[trigger] r.walking(ws),
    {
        TraverseTask { list, done: 0, pre_idx: 0, sum: 0, fetch: None }
    }
}

/// Polls the walk `task` over `workloads`: it reads cells, waiting on a fetch before each,
/// until a fetch is pending (`None`), or until it has read as many cells as its list has and
/// comes back with the sum of the indices read.
pub fn poll_traverse(task: &mut TraverseTask, workloads: &[ArrayList]) -> (r: Option<u64>)
    requires
        old(task).walking(workloads@.map_values(|a: ArrayList| a@)),
        links_ok(workloads@[old(task).spec_list() as int]@),
        walk_sum(
            workloads@[old(task).spec_list() as int]@,
            workloads@[old(task).spec_list() as int]@.len(),
        ) <= u64::MAX,
    ensures
        final(task).spec_list() == old(task).spec_list(),
        r matches Some(s) ==> s == walk_sum(
            workloads@[old(task).spec_list() as int]@,
            workloads@[old(task).spec_list() as int]@.len(),
        ),
        r is None ==> final(task).walking(workloads@.map_values(|a: ArrayList| a@))
            && final(task).work_left(workloads@.map_values(|a: ArrayList| a@)) < old(task).work_left(
            workloads@.map_values(|a: ArrayList| a@),
        ),
{
    let ghost ws = workloads@.map_values(|a: ArrayList| a@);
    let ghost links = workloads@[task.list as int]@;
    let ghost start = *task;
    let list = &workloads[task.list].list;
    let len = list.len();
    proof {
        assert(ws[task.list as int] == links);
        lemma_walk_sum_monotone(links, task.done as nat, len as nat);
    }
    let mut pending = false;
    while !pending && task.done < len
        invariant
            ws == workloads@.map_values(|a: ArrayList| a@),
            links == ws[task.list as int],
            list@.map_values(|c: Cell| c@) == links,
            len == links.len(),
            links_ok(links),
            walk_sum(links, len as nat) <= u64::MAX,
            task.list == start.list,
            start.walking(ws),
            task.done <= len,
            task.pre_idx == walk_pos(links, task.done as nat),
            task.sum == walk_sum(links, task.done as nat),
            task.fetch matches Some(p) ==> !p.spec_first_poll() && task.done < len,
            !pending ==> task.done == start.done ==> *task == start,
            pending ==> task.fetch is Some && (task.done > start.done || start.fetch is None),
            task.done >= start.done,
        decreases (len - task.done) * 2 + if pending {
            0int
        } else {
            1int
        },
    {
        proof {
            lemma_walk_pos_in(links, task.done as nat);
            lemma_walk_sum_monotone(links, (task.done + 1) as nat, len as nat);
        }
        let mut fetch = match task.fetch.take() {
            Some(p) => p,
            None => Prefetcher::fetch(&list[task.pre_idx]),
        };
        if !fetch.poll_step() {
            task.fetch = Some(fetch);
            pending = true;
        } else {
            let value = list[task.pre_idx].get();
            proof {
                assert(value == links[task.pre_idx as int]);
            }
            task.pre_idx = value as usize;
            task.sum = task.sum + value;
            task.done = task.done + 1;
        }
    }
    if pending {
        None
    } else {
        Some(task.sum)
    }
}

/// What is left of the tasks in the first `n` slots.
pub open spec fn slots_work_left(slots: Seq<Option<TraverseTask>>, ws: Seq<Seq<u64>>, n: int) -> nat
    decreases n,
{
    if n <= 0 {
        0
    } else {
        slots_work_left(slots, ws, n - 1) + match slots[n - 1] {
            Some(t) => t.work_left(ws),
            None => 0,
        }
    }
}

/// The number of free slots among the first `n`.
pub open spec fn free_slots(slots: Seq<Option<TraverseTask>>, n: int) -> int
    decreases n,
{
    if n <= 0 {
        0
    } else {
        free_slots(slots, n - 1) + if slots[n - 1] is None {
            1int
        } else {
            0int
        }
    }
}

/// Replacing the task of slot `i`, among the first `n`, changes what is left by what is
/// left of the tasks, and frees no slot but when the new one is free.
proof fn lemma_slots_update(
    slots: Seq<Option<TraverseTask>>,
    ws: Seq<Seq<u64>>,
    i: int,
    x: Option<TraverseTask>,
    n: int,
)
    requires
        0 <= i < n <= slots.len(),
    ensures
        slots_work_left(slots.update(i, x), ws, n) + match slots[i] {
            Some(t) => t.work_left(ws),
            None => 0,
        } == slots_work_left(slots, ws, n) + match x {
            Some(t) => t.work_left(ws),
            None => 0,
        },
        free_slots(slots.update(i, x), n) + (if slots[i] is None {
            1int
        } else {
            0int
        }) == free_slots(slots, n) + if x is None {
            1int
        } else {
            0int
        },
    decreases n,
{
    if n - 1 > i {
        lemma_slots_update(slots, ws, i, x, n - 1);
    } else {
        assert(slots.update(i, x).take(i) =~= slots.take(i));
        lemma_slots_prefix(slots, slots.update(i, x), ws, i);
    }
}

/// Slots that agree below `n` leave as much and free as many below `n`.
proof fn lemma_slots_prefix(
    a: Seq<Option<TraverseTask>>,
    b: Seq<Option<TraverseTask>>,
    ws: Seq<Seq<u64>>,
    n: int,
)
    requires
        0 <= n,
        forall|j: int| 0 <= j < n ==> #[trigger] a[j] == b[j],
    ensures
        slots_work_left(a, ws, n) == slots_work_left(b, ws, n),
        free_slots(a, n) == free_slots(b, n),
    decreases n,
{
    if n > 0 {
        lemma_slots_prefix(a, b, ws, n - 1);
    }
}

/// Fewer free slots than slots: some slot holds a task.
proof fn lemma_some_busy(slots: Seq<Option<TraverseTask>>, n: int)
    requires
        0 <= n,
        free_slots(slots, n) < n,
    ensures
        exists|j: int| 0 <= j < n && #[trigger] slots[j] is Some,
    decreases n,
{
    if n > 0 && slots[n - 1] is None {
        lemma_some_busy(slots, n - 1);
    }
}

/// As many free slots as slots: every slot is free.
proof fn lemma_all_free(slots: Seq<Option<TraverseTask>>, n: int)
    requires
        0 <= n,
        free_slots(slots, n) == n,
    ensures
        forall|j: int| 0 <= j < n ==> #[trigger] slots[j] is None,
    decreases n,
{
    if n > 0 {
        lemma_free_slots_bound(slots, n - 1);
        lemma_all_free(slots, n - 1);
    }
}

proof fn lemma_free_slots_bound(slots: Seq<Option<TraverseTask>>, n: int)
    requires
        0 <= n,
    ensures
        0 <= free_slots(slots, n) <= n,
    decreases n,
{
    if n > 0 {
        lemma_free_slots_bound(slots, n - 1);
    }
}

/// Walks the `GROUP_SIZE` lists side by side, each as a task of an executor that yields
/// before every cell it reads (see `poll_traverse`), polled round robin until all are done,
/// and sums what they read; the sum is that of `simple_traverse`.
pub fn async_traverse(workloads: &[ArrayList]) -> (r: u64)
    requires
        workloads@.len() == GROUP_SIZE,
        forall|w: int| 0 <= w < workloads@.len() ==> links_ok(#[trigger] workloads@[w]@),
        traverse_total(workloads@.map_values(|a: ArrayList| a@), workloads@.len() as int)
            <= u64::MAX,
    ensures
        r == traverse_total(workloads@.map_values(|a: ArrayList| a@), workloads@.len() as int),
{
    let ghost ws = workloads@.map_values(|a: ArrayList| a@);
    let mut executor = Executor::<TraverseTask, GROUP_SIZE>::new();
    let mut w: usize = 0;
    while w < GROUP_SIZE
        invariant
            0 <= w <= GROUP_SIZE,
            ws == workloads@.map_values(|a: ArrayList| a@),
            workloads@.len() == GROUP_SIZE,
            executor.wf(),
            forall|j: int|
                0 <= j < w ==> ((#[trigger] executor.slots()[j]) matches Some(t) && t.spec_list() == j
                    && t.walking(ws)),
            forall|j: int| w <= j < GROUP_SIZE ==> (#[trigger] executor.slots()[j]) is None,
        decreases GROUP_SIZE - w,
    {
        proof {
            lemma_first_free_is(executor.slots(), w as int, GROUP_SIZE as int);
        }
        let task = TraverseTask::new(w);
        executor.spawn(task);
        w += 1;
    }
    let mut outputs: Vec<u64> = Vec::new();
    let mut j: usize = 0;
    while j < GROUP_SIZE
        invariant
            0 <= j <= GROUP_SIZE,
            outputs@.len() == j,
        decreases GROUP_SIZE - j,
    {
        outputs.push(0);
        j += 1;
    }
    let mut ready: usize = 0;
    proof {
        lemma_no_free(executor.slots(), GROUP_SIZE as int);
    }
    while ready < GROUP_SIZE
        invariant
            ws == workloads@.map_values(|a: ArrayList| a@),
            workloads@.len() == GROUP_SIZE,
            forall|x: int| 0 <= x < workloads@.len() ==> links_ok(#[trigger] workloads@[x]@),
            traverse_total(ws, GROUP_SIZE as int) <= u64::MAX,
            executor.wf(),
            outputs@.len() == GROUP_SIZE,
            ready == free_slots(executor.slots(), GROUP_SIZE as int),
            forall|x: int|
                0 <= x < GROUP_SIZE ==> match #[trigger] executor.slots()[x] {
                    Some(t) => t.spec_list() == x && t.walking(ws),
                    None => outputs@[x] == walk_sum(ws[x], ws[x].len()),
                },
        decreases slots_work_left(executor.slots(), ws, GROUP_SIZE as int),
    {
        let ghost left0 = slots_work_left(executor.slots(), ws, GROUP_SIZE as int);
        proof {
            lemma_some_busy(executor.slots(), GROUP_SIZE as int);
        }
        let ghost busy = choose|x: int| 0 <= x < GROUP_SIZE && #[trigger] executor.slots()[x] is Some;
        let mut pos: usize = 0;
        while pos < GROUP_SIZE
            invariant
                0 <= pos <= GROUP_SIZE,
                0 <= busy < GROUP_SIZE,
                ws == workloads@.map_values(|a: ArrayList| a@),
                workloads@.len() == GROUP_SIZE,
                forall|x: int| 0 <= x < workloads@.len() ==> links_ok(#[trigger] workloads@[x]@),
                traverse_total(ws, GROUP_SIZE as int) <= u64::MAX,
                executor.wf(),
                outputs@.len() == GROUP_SIZE,
                ready == free_slots(executor.slots(), GROUP_SIZE as int),
                forall|x: int|
                    0 <= x < GROUP_SIZE ==> match #[trigger] executor.slots()[x] {
                        Some(t) => t.spec_list() == x && t.walking(ws),
                        None => outputs@[x] == walk_sum(ws[x], ws[x].len()),
                    },
                slots_work_left(executor.slots(), ws, GROUP_SIZE as int) <= left0,
                pos <= busy ==> executor.slots()[busy] is Some,
                pos > busy ==> slots_work_left(executor.slots(), ws, GROUP_SIZE as int) < left0,
            decreases GROUP_SIZE - pos,
        {
            let ghost before = executor.slots();
            let polled = match executor.task_mut(pos) {
                Some(task) => {
                    proof {
                        assert(ws[pos as int] == workloads@[pos as int]@);
                        lemma_traverse_total_covers(ws, pos as int);
                    }
                    Some(poll_traverse(task, workloads))
                },
                None => None,
            };
            proof {
                if before[pos as int] is Some {
                    lemma_slots_update(before, ws, pos as int, executor.slots()[pos as int], GROUP_SIZE as int);
                }
                assert(forall|x: int| 0 <= x < GROUP_SIZE && x != pos ==> #[trigger] executor.slots()[x] == before[x]);
            }
            if let Some(Some(out)) = polled {
                let ghost mid = executor.slots();
                outputs.set(pos, out);
                executor.finish(pos);
                proof {
                    lemma_slots_update(mid, ws, pos as int, None, GROUP_SIZE as int);
                    lemma_free_slots_bound(executor.slots(), GROUP_SIZE as int);
                }
                ready = ready + 1;
            }
            pos = pos + 1;
        }
    }
    proof {
        lemma_free_slots_bound(executor.slots(), GROUP_SIZE as int);
        lemma_all_free(executor.slots(), GROUP_SIZE as int);
        assert forall|x: int| 0 <= x < GROUP_SIZE implies #[trigger] outputs@[x] == walk_sum(
            ws[x],
            ws[x].len(),
        ) by {
            assert(executor.slots()[x] is None);
        }
    }
    let mut sum: u64 = 0;
    let mut k: usize = 0;
    while k < GROUP_SIZE
        invariant
            0 <= k <= GROUP_SIZE,
            outputs@.len() == GROUP_SIZE,
            traverse_total(ws, GROUP_SIZE as int) <= u64::MAX,
            forall|x: int| 0 <= x < GROUP_SIZE ==> #[trigger] outputs@[x] == walk_sum(ws[x], ws[x].len()),
            sum == traverse_total(ws, k as int),
        decreases GROUP_SIZE - k,
    {
        proof {
            lemma_traverse_total_monotone(ws, k + 1, GROUP_SIZE as int);
        }
        sum = sum + outputs[k];
        k += 1;
    }
    sum
}

/// The first free slot is `w` when the slots below it hold tasks and it is free.
proof fn lemma_first_free_is(slots: Seq<Option<TraverseTask>>, w: int, n: int)
    requires
        0 <= w < n <= slots.len(),
        forall|j: int| 0 <= j < w ==> #[trigger] slots[j] is Some,
        slots[w] is None,
    ensures
        first_free(slots, n) == Some(w),
    decreases n,
{
    if n - 1 > w {
        lemma_first_free_is(slots, w, n - 1);
    } else {
        lemma_first_free_none(slots, w);
    }
}

/// Slots that all hold tasks have no free one.
proof fn lemma_first_free_none(slots: Seq<Option<TraverseTask>>, n: int)
    requires
        0 <= n <= slots.len(),
        forall|j: int| 0 <= j < n ==> #[trigger] slots[j] is Some,
    ensures
        first_free(slots, n) is None,
    decreases n,
{
    if n > 0 {
        lemma_first_free_none(slots, n - 1);
    }
}

/// Slots that all hold tasks count no free one.
proof fn lemma_no_free(slots: Seq<Option<TraverseTask>>, n: int)
    requires
        0 <= n <= slots.len(),
        forall|j: int| 0 <= j < n ==> #[trigger] slots[j] is Some,
    ensures
        free_slots(slots, n) == 0,
    decreases n,
{
    if n > 0 {
        lemma_no_free(slots, n - 1);
    }
}

/// The walk of one list reads no more than all the lists.
proof fn lemma_traverse_total_covers(ws: Seq<Seq<u64>>, i: int)
    requires
        0 <= i < ws.len(),
    ensures
        walk_sum(ws[i], ws[i].len()) <= traverse_total(ws, ws.len() as int),
{
    lemma_traverse_total_monotone(ws, i, i + 1);
    lemma_traverse_total_monotone(ws, i + 1, ws.len() as int);
    lemma_traverse_total_monotone(ws, 0, i);
    assert(traverse_total(ws, 0) == 0);
}

} // verus!

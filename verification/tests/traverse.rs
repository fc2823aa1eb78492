use alchemy::async_task::test_utils::{
    async_traverse, poll_traverse, simple_traverse, ArrayList, Cell, TraverseTask,
};

const GROUP_SIZE: usize = 8;

#[test]
fn simple_traverse_is_correct() {
    let array_size = 1024;
    let workloads: Vec<ArrayList> = [0; GROUP_SIZE]
        .iter()
        .map(|_| ArrayList::new(array_size as usize))
        .collect();

    let workload_sum = {
        let mut total_sum = 0;
        for workload in workloads.iter() {
            total_sum += workload.ground_truth_sum();
        }
        total_sum
    };

    let sum = simple_traverse(&workloads);
    assert_eq!(sum, workload_sum);
}

#[test]
fn async_yield_same_as_simple() {
    let array_size = 1024;
    let workloads: Vec<ArrayList> = [0; GROUP_SIZE]
        .iter()
        .map(|_| ArrayList::new(array_size as usize))
        .collect();

    let sync_sum = simple_traverse(&workloads);

    let async_sum = async_traverse(&workloads);

    assert_eq!(sync_sum, async_sum);
}

#[test]
fn a_walk_yields_before_each_cell() {
    // 0 -> 2 -> 1 -> 0
    let mut c0 = Cell::new(0);
    c0.set(2);
    let lists = vec![ArrayList { list: vec![c0, Cell::new(0), Cell::new(1)] }];
    let mut task = TraverseTask::new(0);
    // The first poll waits on the fetch of cell 0; each next poll reads one cell.
    assert_eq!(poll_traverse(&mut task, &lists), None);
    assert_eq!(poll_traverse(&mut task, &lists), None);
    assert_eq!(poll_traverse(&mut task, &lists), None);
    assert_eq!(poll_traverse(&mut task, &lists), Some(3));
}

#[test]
fn one_cell_list_links_to_itself() {
    let list = ArrayList::new(1);
    assert_eq!(list.list.len(), 1);
    assert_eq!(list.list[0].get(), 0);
    assert_eq!(list.ground_truth_sum(), 0);
    assert_eq!(simple_traverse(&[list]), 0);
}

#[test]
fn list_is_one_cycle() {
    let n = 100;
    let list = ArrayList::new(n);
    let mut seen = vec![false; n];
    let mut pos = 0usize;
    for _ in 0..n {
        assert!(!seen[pos]);
        seen[pos] = true;
        pos = list.list[pos].get() as usize;
    }
    assert_eq!(pos, 0);
    assert!(seen.iter().all(|s| *s));
}

#[test]
fn traverse_follows_links() {
    // 0 -> 2 -> 1 -> 0
    let mut c0 = Cell::new(0);
    c0.set(2);
    let list = ArrayList { list: vec![c0, Cell::new(0), Cell::new(1)] };
    assert_eq!(simple_traverse(&[list]), 3);
}

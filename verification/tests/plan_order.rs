use particle_sim::plan::{StepPlan, Task};

fn drain(count: usize) -> Vec<Task> {
    let mut plan = StepPlan::new(count);
    let mut tasks = Vec::new();
    while let Some(task) = plan.next_task() {
        tasks.push(task);
    }
    tasks
}

#[test]
fn no_bodies_no_tasks() {
    let mut plan = StepPlan::new(0);
    assert_eq!(plan.next_task(), None);
}

#[test]
fn one_body_is_integrated_and_never_resolved() {
    assert_eq!(drain(1), vec![Task::Integrate(0)]);
}

#[test]
fn two_bodies_make_one_pair() {
    assert_eq!(
        drain(2),
        vec![Task::Integrate(0), Task::Integrate(1), Task::Resolve(0, 1)]
    );
}

#[test]
fn three_bodies_in_order() {
    assert_eq!(
        drain(3),
        vec![
            Task::Integrate(0),
            Task::Integrate(1),
            Task::Integrate(2),
            Task::Resolve(0, 1),
            Task::Resolve(0, 2),
            Task::Resolve(1, 2),
        ]
    );
}

#[test]
fn four_bodies_in_order() {
    assert_eq!(
        drain(4),
        vec![
            Task::Integrate(0),
            Task::Integrate(1),
            Task::Integrate(2),
            Task::Integrate(3),
            Task::Resolve(0, 1),
            Task::Resolve(0, 2),
            Task::Resolve(0, 3),
            Task::Resolve(1, 2),
            Task::Resolve(1, 3),
            Task::Resolve(2, 3),
        ]
    );
}

#[test]
fn finished_plan_stays_finished() {
    let mut plan = StepPlan::new(2);
    for _ in 0..3 {
        assert!(plan.next_task().is_some());
    }
    assert_eq!(plan.next_task(), None);
    assert_eq!(plan.next_task(), None);
    assert_eq!(plan.next_task(), None);
}

#[test]
fn task_count_is_bodies_plus_pairs() {
    assert_eq!(drain(9).len(), 9 + 36);
    assert_eq!(drain(10).len(), 10 + 45);
    assert_eq!(drain(50).len(), 50 + 1225);
}

#[test]
fn every_body_is_integrated_once() {
    let count: usize = 7;
    let tasks = drain(count);
    for index in 0..count {
        let times = tasks.iter().filter(|t| **t == Task::Integrate(index)).count();
        assert_eq!(times, 1);
    }
}

#[test]
fn every_pair_is_resolved_once_lower_index_first() {
    let count: usize = 7;
    let tasks = drain(count);
    for first in 0..count {
        for second in 0..count {
            let times = tasks.iter().filter(|t| **t == Task::Resolve(first, second)).count();
            let expected: usize = if first < second { 1 } else { 0 };
            assert_eq!(times, expected);
        }
    }
}

#[test]
fn integration_comes_before_any_resolution() {
    let tasks = drain(6);
    let first_pair = tasks.iter().position(|t| matches!(t, Task::Resolve(_, _))).unwrap();
    assert_eq!(first_pair, 6);
    assert!(tasks[..first_pair].iter().all(|t| matches!(t, Task::Integrate(_))));
    assert!(tasks[first_pair..].iter().all(|t| matches!(t, Task::Resolve(_, _))));
}

#[test]
fn pairs_ascend_by_lower_then_upper_index() {
    let tasks = drain(8);
    let pairs: Vec<(usize, usize)> = tasks
        .iter()
        .filter_map(|t| match t {
            Task::Resolve(first, second) => Some((*first, *second)),
            Task::Integrate(_) => None,
        })
        .collect();
    assert_eq!(pairs.len(), 28);
    for window in pairs.windows(2) {
        assert!(window[0] < window[1]);
    }
}

#[test]
fn integrations_ascend_by_index() {
    let tasks = drain(5);
    for index in 0..5 {
        assert_eq!(tasks[index], Task::Integrate(index));
    }
}

#[test]
fn plans_of_equal_size_agree() {
    assert_eq!(drain(12), drain(12));
}

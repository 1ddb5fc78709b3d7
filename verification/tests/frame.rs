use verlet_solver::{Frame, Task};

fn all_tasks(count: usize, substeps: i32) -> Vec<Task> {
    let mut frame = Frame::new(count, substeps);
    let mut tasks = Vec::new();
    while let Some(task) = frame.next() {
        tasks.push(task);
    }
    tasks
}

fn pairs_of(tasks: &[Task]) -> Vec<(usize, usize)> {
    let mut pairs = Vec::new();
    for task in tasks {
        if let Task::Collide(first, second) = task {
            pairs.push((*first, *second));
        }
    }
    pairs
}

#[test]
fn no_blobs_no_tasks() {
    let mut frame = Frame::new(0, 5);
    assert_eq!(frame.next(), None);
    assert_eq!(all_tasks(0, 1), vec![]);
}

#[test]
fn one_blob_has_nothing_to_collide_with() {
    assert_eq!(
        all_tasks(1, 1),
        vec![Task::Accelerate(0), Task::Constrain(0), Task::Integrate(0)]
    );
}

#[test]
fn two_blobs_one_substep() {
    assert_eq!(
        all_tasks(2, 1),
        vec![
            Task::Accelerate(0),
            Task::Accelerate(1),
            Task::Constrain(0),
            Task::Constrain(1),
            Task::Collide(0, 1),
            Task::Integrate(0),
            Task::Integrate(1),
        ]
    );
}

#[test]
fn three_blobs_two_substeps() {
    let substep = vec![
        Task::Accelerate(0),
        Task::Accelerate(1),
        Task::Accelerate(2),
        Task::Constrain(0),
        Task::Constrain(1),
        Task::Constrain(2),
        Task::Collide(0, 1),
        Task::Collide(0, 2),
        Task::Collide(1, 2),
        Task::Integrate(0),
        Task::Integrate(1),
        Task::Integrate(2),
    ];
    let mut expected = substep.clone();
    expected.extend(substep);
    assert_eq!(all_tasks(3, 2), expected);
}

#[test]
fn four_blobs_collide_in_ascending_order() {
    assert_eq!(
        pairs_of(&all_tasks(4, 1)),
        vec![(0, 1), (0, 2), (0, 3), (1, 2), (1, 3), (2, 3)]
    );
}

#[test]
fn every_pair_collides_once_in_a_substep() {
    let count = 7;
    let pairs = pairs_of(&all_tasks(count, 1));
    assert_eq!(pairs.len(), 21);
    for first in 0..count {
        for second in 0..count {
            let times = pairs.iter().filter(|pair| **pair == (first, second)).count();
            if first < second {
                assert_eq!(times, 1);
            } else {
                assert_eq!(times, 0);
            }
        }
    }
}

#[test]
fn a_frame_has_three_tasks_a_blob_and_one_a_pair_in_every_substep() {
    assert_eq!(all_tasks(5, 3).len(), 3 * (3 * 5 + 10));
    assert_eq!(all_tasks(2, 4).len(), 4 * (3 * 2 + 1));
    assert_eq!(all_tasks(1, 6).len(), 6 * 3);
}

#[test]
fn every_task_fits_the_population() {
    for task in all_tasks(4, 2) {
        match task {
            Task::Accelerate(blob) | Task::Constrain(blob) | Task::Integrate(blob) => {
                assert!(blob < 4)
            }
            Task::Collide(first, second) => assert!(first < second && second < 4),
        }
    }
}

#[test]
fn a_finished_frame_stays_finished() {
    let mut frame = Frame::new(1, 1);
    assert_eq!(frame.next(), Some(Task::Accelerate(0)));
    assert_eq!(frame.next(), Some(Task::Constrain(0)));
    assert_eq!(frame.next(), Some(Task::Integrate(0)));
    assert_eq!(frame.next(), None);
    assert_eq!(frame.next(), None);
}

#[test]
fn a_copy_of_a_frame_goes_its_own_way() {
    let mut frame = Frame::new(2, 1);
    assert_eq!(frame.next(), Some(Task::Accelerate(0)));
    let mut copy = frame;
    assert_eq!(copy.next(), Some(Task::Accelerate(1)));
    assert_eq!(copy.next(), Some(Task::Constrain(0)));
    assert_eq!(frame.next(), Some(Task::Accelerate(1)));
}

#[test]
fn the_largest_numbers_do_not_overflow() {
    let mut frame = Frame::new(usize::MAX, i32::MAX);
    assert_eq!(frame.next(), Some(Task::Accelerate(0)));
    assert_eq!(frame.next(), Some(Task::Accelerate(1)));
    let mut last = Frame::new(1, i32::MAX);
    for _ in 0..10 {
        assert_eq!(last.next(), Some(Task::Accelerate(0)));
        assert_eq!(last.next(), Some(Task::Constrain(0)));
        assert_eq!(last.next(), Some(Task::Integrate(0)));
    }
}

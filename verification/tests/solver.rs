use std::cell::RefCell;

use verlet_solver::{Blob, Constraint, Solver, Task};

type Dot = Blob<i64, i64, char>;

fn dot(position: i64, color: char) -> Dot {
    Blob::new(position, 2, color, 0)
}

fn solver(positions: &[i64], iterations: i32) -> Solver<i64, i64, char> {
    let blobs = positions.iter().map(|position| dot(*position, 'x')).collect();
    Solver::new(blobs, 1, Constraint::new(0, 1000), iterations, 60)
}

fn positions(solver: &Solver<i64, i64, char>) -> Vec<i64> {
    solver.blobs().iter().map(|blob| blob.position_current).collect()
}

/// Runs a frame with functions that change nothing and write down, in
/// order, what they are called with.
fn logged_update(solver: &mut Solver<i64, i64, char>) -> Vec<String> {
    let log = RefCell::new(Vec::new());
    solver.update(
        |time: i64, iterations: i32| {
            log.borrow_mut().push(format!("divide {} by {}", time, iterations));
            time / iterations as i64
        },
        |accumulated: i64, gravity: i64| {
            log.borrow_mut().push(format!("add {}", gravity));
            accumulated
        },
        |position: i64, _size: i64, center: i64, radius: i64| {
            log.borrow_mut().push(format!("contain {} in {} around {}", position, radius, center));
            position
        },
        |first: i64, _first_size: i64, second: i64, _second_size: i64| {
            log.borrow_mut().push(format!("part {} and {}", first, second));
            (first, second)
        },
        |current: i64, _old: i64, _acceleration: i64, time: i64| {
            log.borrow_mut().push(format!("advance {} by {}", current, time));
            current
        },
        0,
    );
    log.into_inner()
}

#[test]
fn new_keeps_what_it_is_given() {
    let solver = Solver::new(vec![dot(10, 'a'), dot(20, 'b')], -9, Constraint::new(3, 300), 8, 16);
    assert_eq!(solver.blobs(), &vec![dot(10, 'a'), dot(20, 'b')]);
    assert_eq!(solver.len(), 2);
    assert_eq!(solver.gravity(), -9);
    assert_eq!(solver.constraint(), &Constraint::new(3, 300));
    assert_eq!(solver.iterations(), 8);
    assert_eq!(solver.time(), 16);
}

#[test]
fn add_blob_appends() {
    let mut solver = solver(&[10, 20], 1);
    solver.add_blob(dot(5, 'n'));
    assert_eq!(solver.blobs(), &vec![dot(10, 'x'), dot(20, 'x'), dot(5, 'n')]);
    assert_eq!(solver.len(), 3);
    assert_eq!(solver.iterations(), 1);
    assert_eq!(solver.gravity(), 1);
}

#[test]
fn add_blob_to_an_empty_solver() {
    let mut solver = solver(&[], 3);
    assert_eq!(solver.len(), 0);
    solver.add_blob(dot(7, 'n'));
    assert_eq!(solver.blobs(), &vec![dot(7, 'n')]);
}

#[test]
fn remove_blob_moves_the_later_blobs_up() {
    let mut solver = solver(&[10, 20, 30, 40], 2);
    solver.remove_blob(1);
    assert_eq!(positions(&solver), vec![10, 30, 40]);
    solver.remove_blob(2);
    assert_eq!(positions(&solver), vec![10, 30]);
    solver.remove_blob(0);
    assert_eq!(positions(&solver), vec![30]);
    assert_eq!(solver.iterations(), 2);
    assert_eq!(solver.time(), 60);
}

#[test]
fn frame_is_made_for_the_population_as_it_is() {
    let mut solver = solver(&[1, 2], 1);
    solver.add_blob(dot(3, 'n'));
    let mut frame = solver.frame();
    let mut tasks = Vec::new();
    while let Some(task) = frame.next() {
        tasks.push(task);
    }
    assert_eq!(tasks.len(), 3 * 3 + 3);
    assert_eq!(tasks[6], Task::Collide(0, 1));
    assert_eq!(tasks[7], Task::Collide(0, 2));
    assert_eq!(tasks[8], Task::Collide(1, 2));
}

#[test]
fn sub_time_step_divides_the_time_by_the_iterations() {
    let solver = solver(&[1], 4);
    assert_eq!(solver.sub_time_step(&|time: i64, iterations: i32| time / iterations as i64), 15);
}

#[test]
fn perform_works_on_the_blobs_that_the_task_names() {
    let sum = |accumulated: i64, gravity: i64| accumulated + gravity;
    let contain = |position: i64, _size: i64, center: i64, radius: i64| {
        position.clamp(center - radius, center + radius)
    };
    let part = |first: i64, _: i64, second: i64, _: i64| (first - 1, second + 1);
    let advance = |current: i64, old: i64, acceleration: i64, time: i64| {
        current + (current - old) + acceleration * time * time
    };
    let mut solver = solver(&[5, 2000, 7], 1);

    solver.perform(Task::Accelerate(1), 3, &sum, &contain, &part, &advance, 0);
    assert_eq!(solver.blobs()[1].acceleration, 1);
    assert_eq!(solver.blobs()[0].acceleration, 0);
    assert_eq!(positions(&solver), vec![5, 2000, 7]);

    solver.perform(Task::Constrain(1), 3, &sum, &contain, &part, &advance, 0);
    assert_eq!(positions(&solver), vec![5, 1000, 7]);
    assert_eq!(solver.blobs()[1].position_old, 2000);

    solver.perform(Task::Collide(0, 2), 3, &sum, &contain, &part, &advance, 0);
    assert_eq!(positions(&solver), vec![4, 1000, 8]);
    assert_eq!(solver.blobs()[0].position_old, 5);
    assert_eq!(solver.blobs()[2].position_old, 7);

    solver.perform(Task::Integrate(1), 3, &sum, &contain, &part, &advance, 0);
    // 1000 + (1000 - 2000) + 1 * 3 * 3
    assert_eq!(positions(&solver), vec![4, 9, 8]);
    assert_eq!(solver.blobs()[1].position_old, 1000);
    assert_eq!(solver.blobs()[1].acceleration, 0);
}

#[test]
fn update_does_the_four_passes_in_order() {
    let mut solver = solver(&[10, 20, 30], 1);
    assert_eq!(
        logged_update(&mut solver),
        vec![
            "divide 60 by 1",
            "add 1",
            "add 1",
            "add 1",
            "contain 10 in 1000 around 0",
            "contain 20 in 1000 around 0",
            "contain 30 in 1000 around 0",
            "part 10 and 20",
            "part 10 and 30",
            "part 20 and 30",
            "advance 10 by 60",
            "advance 20 by 60",
            "advance 30 by 60",
        ]
    );
}

#[test]
fn update_takes_as_many_substeps_as_the_solver_has_iterations() {
    let mut solver = solver(&[10], 3);
    assert_eq!(
        logged_update(&mut solver),
        vec![
            "divide 60 by 3",
            "add 1",
            "contain 10 in 1000 around 0",
            "advance 10 by 20",
            "add 1",
            "contain 10 in 1000 around 0",
            "advance 10 by 20",
            "add 1",
            "contain 10 in 1000 around 0",
            "advance 10 by 20",
        ]
    );
}

#[test]
fn update_keeps_the_setting_and_the_order_of_the_blobs() {
    let mut solver = Solver::new(vec![dot(1, 'a'), dot(2, 'b'), dot(3, 'c')], 5, Constraint::new(0, 9), 2, 8);
    logged_update(&mut solver);
    let colors: Vec<char> = solver.blobs().iter().map(|blob| blob.color).collect();
    assert_eq!(colors, vec!['a', 'b', 'c']);
    assert_eq!(solver.gravity(), 5);
    assert_eq!(solver.constraint(), &Constraint::new(0, 9));
    assert_eq!(solver.iterations(), 2);
    assert_eq!(solver.time(), 8);
}

#[test]
fn update_hands_each_function_what_the_one_before_left() {
    // One blob at 5, gravity 1, sub-steps of length 2. First sub-step:
    // acceleration 1, position 5 + 0 + 1 * 4 = 9. Second: acceleration 1,
    // position 9 + 4 + 4 = 17.
    let mut solver = Solver::new(vec![dot(5, 'a')], 1, Constraint::new(0, 1000), 2, 4);
    solver.update(
        |time: i64, iterations: i32| time / iterations as i64,
        |accumulated: i64, gravity: i64| accumulated + gravity,
        |position: i64, _: i64, _: i64, _: i64| position,
        |first: i64, _: i64, second: i64, _: i64| (first, second),
        |current: i64, old: i64, acceleration: i64, time: i64| {
            current + (current - old) + acceleration * time * time
        },
        0,
    );
    assert_eq!(solver.blobs(), &vec![Blob { position_current: 17, position_old: 9, acceleration: 0, color: 'a', size: 2 }]);
}

#[test]
fn the_outcome_depends_on_the_order_of_the_blobs() {
    fn run(start: &[i64]) -> Vec<i64> {
        let mut solver = solver(start, 1);
        solver.update(
            |time: i64, _: i32| time,
            |accumulated: i64, _: i64| accumulated,
            |position: i64, _: i64, _: i64, _: i64| position,
            |first: i64, _: i64, second: i64, _: i64| (first - second, second * 2),
            |current: i64, _: i64, _: i64, _: i64| current,
            0,
        );
        positions(&solver)
    }
    // (0, 1): [-9, 20, 100]; (0, 2): [-109, 20, 200]; (1, 2): [-109, -180, 400].
    assert_eq!(run(&[1, 10, 100]), vec![-109, -180, 400]);
    // (0, 1): [90, 20, 1]; (0, 2): [89, 20, 2]; (1, 2): [89, 18, 4].
    assert_eq!(run(&[100, 10, 1]), vec![89, 18, 4]);
}

#[test]
fn update_does_what_the_tasks_of_a_frame_do_one_by_one() {
    let divide = |time: i64, iterations: i32| time / iterations as i64;
    let sum = |accumulated: i64, gravity: i64| accumulated + gravity;
    let contain = |position: i64, size: i64, center: i64, radius: i64| {
        position.clamp(center - radius + size, center + radius - size)
    };
    let part = |first: i64, _: i64, second: i64, _: i64| {
        if (first - second).abs() < 4 { (first - 2, second + 2) } else { (first, second) }
    };
    let advance = |current: i64, old: i64, acceleration: i64, time: i64| {
        current + (current - old) + acceleration * time * time
    };
    let mut whole = Solver::new(vec![dot(3, 'a'), dot(4, 'b'), dot(45, 'c'), dot(9, 'd')], -1, Constraint::new(0, 40), 3, 6);
    let mut stepwise = Solver::new(vec![dot(3, 'a'), dot(4, 'b'), dot(45, 'c'), dot(9, 'd')], -1, Constraint::new(0, 40), 3, 6);
    whole.update(divide, sum, contain, part, advance, 0);
    let step = stepwise.sub_time_step(&divide);
    let mut frame = stepwise.frame();
    while let Some(task) = frame.next() {
        stepwise.perform(task, step, &sum, &contain, &part, &advance, 0);
    }
    assert_eq!(whole.blobs(), stepwise.blobs());
    assert_ne!(positions(&whole), vec![3, 4, 45, 9]);
}

#[test]
fn a_frame_ends_with_nothing_accumulated() {
    let mut solver = solver(&[1, 2, 3], 2);
    solver.update(
        |time: i64, iterations: i32| time / iterations as i64,
        |accumulated: i64, gravity: i64| accumulated + gravity + 7,
        |position: i64, _: i64, _: i64, _: i64| position,
        |first: i64, _: i64, second: i64, _: i64| (first, second),
        |current: i64, _: i64, acceleration: i64, _: i64| current + acceleration,
        0,
    );
    for blob in solver.blobs() {
        assert_eq!(blob.acceleration, 0);
        assert_eq!(blob.size, 2);
        assert_eq!(blob.color, 'x');
    }
    // Each of the two sub-steps accumulates 1 + 7 and adds it to the
    // position.
    assert_eq!(positions(&solver), vec![1 + 8 + 8, 2 + 8 + 8, 3 + 8 + 8]);
}

#[test]
fn update_of_an_empty_solver_does_nothing() {
    let mut solver = solver(&[], 4);
    let log = logged_update(&mut solver);
    assert_eq!(log, vec!["divide 60 by 4"]);
    assert_eq!(solver.len(), 0);
}

#[test]
fn a_removed_blob_takes_no_part_in_the_next_frame() {
    let mut solver = solver(&[10, 20, 30], 1);
    solver.remove_blob(1);
    let log = logged_update(&mut solver);
    assert_eq!(
        log,
        vec![
            "divide 60 by 1",
            "add 1",
            "add 1",
            "contain 10 in 1000 around 0",
            "contain 30 in 1000 around 0",
            "part 10 and 30",
            "advance 10 by 60",
            "advance 30 by 60",
        ]
    );
}

//! Frames with real arithmetic: the library decides the order of work and
//! where the results go, the functions below compute them.

use verlet_solver::{Blob, Constraint, Solver, Task};

type Point = (f32, f32);
type Ball = Blob<Point, f32, u8>;
type World = Solver<Point, f32, u8>;

const REST: Point = (0.0, 0.0);

fn at_rest(x: f32, y: f32, radius: f32) -> Ball {
    Blob::new((x, y), 2.0 * radius, 0, REST)
}

fn length(v: Point) -> f32 {
    (v.0 * v.0 + v.1 * v.1).sqrt()
}

fn divide(time: f32, iterations: i32) -> f32 {
    time / iterations as f32
}

fn sum(accumulated: Point, acceleration: Point) -> Point {
    (accumulated.0 + acceleration.0, accumulated.1 + acceleration.1)
}

fn contain(position: Point, size: f32, center: Point, radius: f32) -> Point {
    let out = (position.0 - center.0, position.1 - center.1);
    let most = radius - size / 2.0;
    let distance = length(out);
    if distance > most {
        (center.0 + out.0 / distance * most, center.1 + out.1 / distance * most)
    } else {
        position
    }
}

fn part(first: Point, first_size: f32, second: Point, second_size: f32) -> (Point, Point) {
    let axis = (first.0 - second.0, first.1 - second.1);
    let distance = length(axis);
    let least = first_size / 2.0 + second_size / 2.0;
    if distance > 0.0 && distance < least {
        let half = 0.5 * (least - distance);
        let normal = (axis.0 / distance, axis.1 / distance);
        (
            (first.0 + half * normal.0, first.1 + half * normal.1),
            (second.0 - half * normal.0, second.1 - half * normal.1),
        )
    } else {
        (first, second)
    }
}

fn advance(current: Point, old: Point, acceleration: Point, time: f32) -> Point {
    let velocity = (current.0 - old.0, current.1 - old.1);
    (
        current.0 + velocity.0 + acceleration.0 * time * time,
        current.1 + velocity.1 + acceleration.1 * time * time,
    )
}

fn open_space(blobs: Vec<Ball>, gravity: Point, iterations: i32, time: f32) -> World {
    Solver::new(blobs, gravity, Constraint::new((0.0, 0.0), 1.0e6), iterations, time)
}

fn update(world: &mut World) {
    world.update(divide, sum, contain, part, advance, REST);
}

fn perform(world: &mut World, task: Task) {
    let step = world.sub_time_step(&divide);
    world.perform(task, step, &sum, &contain, &part, &advance, REST);
}

#[test]
fn two_overlapping_blobs_are_parted_before_they_are_integrated() {
    let mut world =
        open_space(vec![at_rest(0.0, 0.0, 1.0), at_rest(1.5, 0.0, 1.0)], (0.0, 0.0), 1, 1.0);
    let mut frame = world.frame();
    let mut collided = false;
    while let Some(task) = frame.next() {
        if task == Task::Integrate(0) {
            assert!(collided);
            assert_eq!(world.blobs()[0].position_current, (-0.25, 0.0));
            assert_eq!(world.blobs()[1].position_current, (1.75, 0.0));
            assert_eq!(world.blobs()[0].position_old, (0.0, 0.0));
            assert_eq!(world.blobs()[1].position_old, (1.5, 0.0));
        }
        if task == Task::Collide(0, 1) {
            collided = true;
        }
        perform(&mut world, task);
    }
    assert!(collided);
}

#[test]
fn a_blob_at_rest_without_forces_stays_where_it_is() {
    let start = at_rest(3.0, -4.0, 2.0);
    let mut world = open_space(vec![start], (0.0, 0.0), 10, 0.01);
    for _ in 0..25 {
        update(&mut world);
    }
    assert_eq!(world.blobs(), &vec![start]);
}

#[test]
fn a_falling_blob_follows_the_verlet_recurrence() {
    // With a sub-step of 0.5 and a gravity of -8 every sub-step adds -2 to
    // the velocity: the blob has fallen by 2, 6, 12 and 20 after one, two,
    // three and four sub-steps.
    let mut one = open_space(vec![at_rest(1.0, 100.0, 1.0)], (0.0, -8.0), 1, 0.5);
    update(&mut one);
    assert_eq!(one.blobs()[0].position_current, (1.0, 98.0));
    update(&mut one);
    assert_eq!(one.blobs()[0].position_current, (1.0, 94.0));
    update(&mut one);
    assert_eq!(one.blobs()[0].position_current, (1.0, 88.0));

    let mut four = open_space(vec![at_rest(1.0, 100.0, 1.0)], (0.0, -8.0), 4, 2.0);
    update(&mut four);
    assert_eq!(four.blobs()[0].position_current, (1.0, 80.0));
    assert_eq!(four.blobs()[0].position_old, (1.0, 88.0));
}

#[test]
fn a_blob_outside_the_boundary_is_moved_to_its_rim() {
    let mut world = Solver::new(
        vec![at_rest(1.0, 11.0, 1.0), at_rest(2.0, 2.0, 0.5)],
        (0.0, 0.0),
        Constraint::new((1.0, 1.0), 5.0),
        1,
        1.0,
    );
    perform(&mut world, Task::Constrain(0));
    perform(&mut world, Task::Constrain(1));
    let moved = world.blobs()[0].position_current;
    let distance = length((moved.0 - 1.0, moved.1 - 1.0));
    assert!((distance - 4.0).abs() < 1.0e-5);
    assert_eq!(world.blobs()[1].position_current, (2.0, 2.0));
}

#[test]
fn two_colliding_blobs_end_up_touching() {
    let mut world =
        open_space(vec![at_rest(0.0, 0.0, 2.0), at_rest(3.0, 4.0, 4.0)], (0.0, 0.0), 1, 1.0);
    perform(&mut world, Task::Collide(0, 1));
    let first = world.blobs()[0].position_current;
    let second = world.blobs()[1].position_current;
    let distance = length((first.0 - second.0, first.1 - second.1));
    assert!((distance - 6.0).abs() < 1.0e-5);
    // Each has moved by half of the overlap of 1, away from the other.
    assert!((length(first) - 0.5).abs() < 1.0e-5);
    assert!((length((second.0 - 3.0, second.1 - 4.0)) - 0.5).abs() < 1.0e-5);
}

#[test]
fn two_blobs_in_one_place_are_left_alone() {
    let blob = at_rest(2.0, 2.0, 1.0);
    let mut world = open_space(vec![blob, blob], (0.0, 0.0), 1, 1.0);
    perform(&mut world, Task::Collide(0, 1));
    assert_eq!(world.blobs(), &vec![blob, blob]);
    update(&mut world);
    assert_eq!(world.blobs(), &vec![blob, blob]);
}

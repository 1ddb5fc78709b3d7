//! The solver: the owner of the population and of the numbers that a frame
//! needs.

use vstd::prelude::*;
use crate::blob::{Blob, Constraint};
use crate::frame::Frame;
use crate::kernel::Kernel;
use crate::passes::law_frame_is_substeps;
use crate::plan::frame_plan;
use crate::task::Task;

verus! {

/// The number of sub-steps of a frame: at least one.
#[derive(Clone, Copy, Debug)]
struct Substeps {
    count: i32,
}

impl Substeps {
    #[verifier::type_invariant]
    spec fn positive(self) -> bool {
        self.count > 0
    }
}

/// The physics solver.
///
/// The solver keeps its blobs in the order in which they were added. That
/// order decides the order of work in a frame, and with it the outcome of a
/// frame in which more than two blobs overlap.
pub struct Solver<Vector, Scalar, Color> {
    blobs: Vec<Blob<Vector, Scalar, Color>>,
    gravity: Vector,
    constraint: Constraint<Vector, Scalar>,
    iterations: Substeps,
    time: Scalar,
}

/// What a solver holds.
pub struct SolverView<Vector, Scalar, Color> {
    /// The population, in the solver's order.
    pub blobs: Seq<Blob<Vector, Scalar, Color>>,
    /// The acceleration that every blob gets in every sub-step.
    pub gravity: Vector,
    /// The boundary that holds the blobs.
    pub constraint: Constraint<Vector, Scalar>,
    /// The number of sub-steps that a frame takes: at least one.
    pub iterations: i32,
    /// The time that a frame takes.
    pub time: Scalar,
}

impl<Vector, Scalar, Color> SolverView<Vector, Scalar, Color> {
    /// Whether `self` and `other` differ in their populations at most.
    pub open spec fn same_setting(self, other: Self) -> bool {
        &&& self.gravity == other.gravity
        &&& self.constraint == other.constraint
        &&& self.iterations == other.iterations
        &&& self.time == other.time
    }
}

impl<Vector, Scalar, Color> View for Solver<Vector, Scalar, Color> {
    type V = SolverView<Vector, Scalar, Color>;

    closed spec fn view(&self) -> SolverView<Vector, Scalar, Color> {
        SolverView {
            blobs: self.blobs@,
            gravity: self.gravity,
            constraint: self.constraint,
            iterations: self.iterations.count,
            time: self.time,
        }
    }
}

/// Whether each of the caller's functions can be called on all vectors and
/// scalars.
pub open spec fn always_callable<Vector, Scalar, Sum, Contain, Part, Advance>(
    sum: Sum,
    contain: Contain,
    part: Part,
    advance: Advance,
) -> bool where
    Sum: Fn(Vector, Vector) -> Vector,
    Contain: Fn(Vector, Scalar, Vector, Scalar) -> Vector,
    Part: Fn(Vector, Scalar, Vector, Scalar) -> (Vector, Vector),
    Advance: Fn(Vector, Vector, Vector, Scalar) -> Vector,
{
    &&& forall|accumulated: Vector, acceleration: Vector|
        call_requires(sum, (accumulated, acceleration))
    &&& forall|position: Vector, size: Scalar, center: Vector, radius: Scalar|
        call_requires(contain, (position, size, center, radius))
    &&& forall|first: Vector, first_size: Scalar, second: Vector, second_size: Scalar|
        call_requires(part, (first, first_size, second, second_size))
    &&& forall|current: Vector, old: Vector, acceleration: Vector, time: Scalar|
        call_requires(advance, (current, old, acceleration, time))
}

/// The four operations of a sub-step as the caller's functions and the
/// solver's setting make them up: `sum` adds `gravity`, `contain` holds the
/// blob in `constraint`, `part` resolves a collision, and `advance`
/// integrates over a sub-step of length `step`, after which the accumulated
/// acceleration is `rest`.
pub open spec fn kernel_of<Vector: Copy, Scalar: Copy, Color, Sum, Contain, Part, Advance>(
    sum: Sum,
    contain: Contain,
    part: Part,
    advance: Advance,
    rest: Vector,
    gravity: Vector,
    constraint: Constraint<Vector, Scalar>,
    step: Scalar,
) -> Kernel<Blob<Vector, Scalar, Color>> where
    Sum: Fn(Vector, Vector) -> Vector,
    Contain: Fn(Vector, Scalar, Vector, Scalar) -> Vector,
    Part: Fn(Vector, Scalar, Vector, Scalar) -> (Vector, Vector),
    Advance: Fn(Vector, Vector, Vector, Scalar) -> Vector,
{
    Kernel {
        accelerate: |before: Blob<Vector, Scalar, Color>, after: Blob<Vector, Scalar, Color>|
            Blob::accelerated(sum, gravity, before, after),
        constrain: |before: Blob<Vector, Scalar, Color>, after: Blob<Vector, Scalar, Color>|
            Blob::constrained(contain, constraint, before, after),
        collide: |
            first: Blob<Vector, Scalar, Color>,
            second: Blob<Vector, Scalar, Color>,
            first_after: Blob<Vector, Scalar, Color>,
            second_after: Blob<Vector, Scalar, Color>,
        |
            Blob::collided(part, first, second, first_after, second_after),
        integrate: |before: Blob<Vector, Scalar, Color>, after: Blob<Vector, Scalar, Color>|
            Blob::integrated(advance, step, rest, before, after),
    }
}

/// Whether `after` is what a frame may make of `before`: the setting is the
/// same, and for a length `step` of the sub-steps that `divide` allows for
/// the solver's time and iterations, `after` holds what the frame's plan
/// turns the population of `before` into. That is as many sub-steps as the
/// solver has iterations, each of them four passes over the population as
/// the sub-step finds it: gravity for every blob, containment for every
/// blob, the collision of every pair of blobs in ascending order,
/// integration for every blob.
pub open spec fn a_frame_later<Vector: Copy, Scalar: Copy, Color, Divide, Sum, Contain, Part, Advance>(
    divide: Divide,
    sum: Sum,
    contain: Contain,
    part: Part,
    advance: Advance,
    rest: Vector,
    before: SolverView<Vector, Scalar, Color>,
    after: SolverView<Vector, Scalar, Color>,
) -> bool where
    Divide: Fn(Scalar, i32) -> Scalar,
    Sum: Fn(Vector, Vector) -> Vector,
    Contain: Fn(Vector, Scalar, Vector, Scalar) -> Vector,
    Part: Fn(Vector, Scalar, Vector, Scalar) -> (Vector, Vector),
    Advance: Fn(Vector, Vector, Vector, Scalar) -> Vector,
{
    &&& after.same_setting(before)
    &&& exists|step: Scalar| #[trigger]
        call_ensures(divide, (before.time, before.iterations), step) && {
            let kernel = kernel_of::<Vector, Scalar, Color, Sum, Contain, Part, Advance>(
                sum,
                contain,
                part,
                advance,
                rest,
                before.gravity,
                before.constraint,
                step,
            );
            &&& kernel.carries_out_all(
                frame_plan(before.blobs.len() as usize, before.iterations as nat),
                before.blobs,
                after.blobs,
            )
            &&& kernel.substeps(before.iterations as nat, before.blobs, after.blobs)
        }
}

/// The blobs at `first` and `second`, to work on together.
fn pair_mut<B>(blobs: &mut Vec<B>, first: usize, second: usize) -> (pair: (&mut B, &mut B))
    requires
        first < second < old(blobs)@.len(),
    ensures
        *pair.0 == old(blobs)@[first as int],
        *pair.1 == old(blobs)@[second as int],
        final(blobs)@ == old(blobs)@.update(first as int, *final(pair.0)).update(
            second as int,
            *final(pair.1),
        ),
{
    let (head, tail) = blobs.as_mut_slice().split_at_mut(second);
    let (_, middle) = head.split_at_mut(first);
    (middle.first_mut().unwrap(), tail.first_mut().unwrap())
}

impl<Vector: Copy, Scalar: Copy, Color> Solver<Vector, Scalar, Color> {
    /// Makes a solver that owns `blobs`. A frame lasts `time` and takes
    /// `iterations` sub-steps.
    pub fn new(
        blobs: Vec<Blob<Vector, Scalar, Color>>,
        gravity: Vector,
        constraint: Constraint<Vector, Scalar>,
        iterations: i32,
        time: Scalar,
    ) -> (solver: Self)
        requires
            iterations > 0,
        ensures
            solver@ == (SolverView { blobs: blobs@, gravity, constraint, iterations, time }),
    {
        Solver { blobs, gravity, constraint, iterations: Substeps { count: iterations }, time }
    }

    /// Adds a blob behind all the others.
    pub fn add_blob(&mut self, blob: Blob<Vector, Scalar, Color>)
        ensures
            final(self)@.blobs == old(self)@.blobs.push(blob),
            final(self)@.same_setting(old(self)@),
    {
        self.blobs.push(blob);
    }

    /// Removes the blob at `index`. The blobs behind it move up by one.
    pub fn remove_blob(&mut self, index: usize)
        requires
            index < old(self)@.blobs.len(),
        ensures
            final(self)@.blobs == old(self)@.blobs.remove(index as int),
            final(self)@.same_setting(old(self)@),
    {
        self.blobs.remove(index);
    }

    /// The number of blobs.
    pub fn len(&self) -> (count: usize)
        ensures
            count == self@.blobs.len(),
    {
        self.blobs.len()
    }

    /// The population, to read.
    pub fn blobs(&self) -> (blobs: &Vec<Blob<Vector, Scalar, Color>>)
        ensures
            blobs@ == self@.blobs,
    {
        &self.blobs
    }

    /// The acceleration that every blob gets in every sub-step.
    pub fn gravity(&self) -> (gravity: Vector)
        ensures
            gravity == self@.gravity,
    {
        self.gravity
    }

    /// The boundary that holds the blobs.
    pub fn constraint(&self) -> (constraint: &Constraint<Vector, Scalar>)
        ensures
            *constraint == self@.constraint,
    {
        &self.constraint
    }

    /// The number of sub-steps that a frame takes.
    pub fn iterations(&self) -> (iterations: i32)
        ensures
            iterations > 0,
            iterations == self@.iterations,
    {
        proof {
            use_type_invariant(self.iterations);
        }
        self.iterations.count
    }

    /// The time that a frame takes.
    pub fn time(&self) -> (time: Scalar)
        ensures
            time == self@.time,
    {
        self.time
    }

    /// Starts a frame on the population as it is now.
    pub fn frame(&self) -> (frame: Frame)
        ensures
            frame.count() == self@.blobs.len(),
            frame.remaining() == frame_plan(self@.blobs.len() as usize, self@.iterations as nat),
    {
        Frame::new(self.blobs.len(), self.iterations())
    }

    /// The length of a sub-step: what `divide` makes of the time of a frame
    /// and the number of its sub-steps.
    pub fn sub_time_step<Divide: Fn(Scalar, i32) -> Scalar>(&self, divide: &Divide) -> (step:
        Scalar)
        requires
            call_requires(*divide, (self@.time, self@.iterations)),
        ensures
            call_ensures(*divide, (self@.time, self@.iterations), step),
    {
        divide(self.time, self.iterations.count)
    }

    /// Carries out one task of a sub-step of length `step`: the blobs that
    /// the task names are updated with the caller's function for the task.
    pub fn perform<Sum, Contain, Part, Advance>(
        &mut self,
        task: Task,
        step: Scalar,
        sum: &Sum,
        contain: &Contain,
        part: &Part,
        advance: &Advance,
        rest: Vector,
    ) where
        Sum: Fn(Vector, Vector) -> Vector,
        Contain: Fn(Vector, Scalar, Vector, Scalar) -> Vector,
        Part: Fn(Vector, Scalar, Vector, Scalar) -> (Vector, Vector),
        Advance: Fn(Vector, Vector, Vector, Scalar) -> Vector,

        requires
            task.fits(old(self)@.blobs.len() as usize),
            always_callable(*sum, *contain, *part, *advance),
        ensures
            final(self)@.same_setting(old(self)@),
            final(self)@.blobs.len() == old(self)@.blobs.len(),
            kernel_of(
                *sum,
                *contain,
                *part,
                *advance,
                rest,
                old(self)@.gravity,
                old(self)@.constraint,
                step,
            ).carries_out(task, old(self)@.blobs, final(self)@.blobs),
    {
        match task {
            Task::Accelerate(blob) => {
                self.blobs[blob].update_acceleration(sum, self.gravity);
            },
            Task::Constrain(blob) => {
                self.blobs[blob].update_constraint(
                    contain,
                    self.constraint.position,
                    self.constraint.radius,
                );
            },
            Task::Collide(first, second) => {
                let (first, second) = pair_mut(&mut self.blobs, first, second);
                first.update_collision(second, part);
            },
            Task::Integrate(blob) => {
                self.blobs[blob].update_position(advance, step, rest);
            },
        }
    }

    /// Advances all blobs by one frame, with the caller's arithmetic:
    /// `divide` for the length of a sub-step, `sum` to add the gravity,
    /// `contain` to hold a blob in the boundary, `part` to resolve a
    /// collision, `advance` to integrate a position, and `rest` for an
    /// accumulated acceleration of nothing.
    pub fn update<Divide, Sum, Contain, Part, Advance>(
        &mut self,
        divide: Divide,
        sum: Sum,
        contain: Contain,
        part: Part,
        advance: Advance,
        rest: Vector,
    ) where
        Divide: Fn(Scalar, i32) -> Scalar,
        Sum: Fn(Vector, Vector) -> Vector,
        Contain: Fn(Vector, Scalar, Vector, Scalar) -> Vector,
        Part: Fn(Vector, Scalar, Vector, Scalar) -> (Vector, Vector),
        Advance: Fn(Vector, Vector, Vector, Scalar) -> Vector,

        requires
            call_requires(divide, (old(self)@.time, old(self)@.iterations)),
            always_callable(sum, contain, part, advance),
        ensures
            final(self)@.blobs.len() == old(self)@.blobs.len(),
            a_frame_later(divide, sum, contain, part, advance, rest, old(self)@, final(self)@),
    {
        let sub_time_step = self.sub_time_step(&divide);
        let mut frame = self.frame();
        let ghost kernel = kernel_of::<Vector, Scalar, Color, Sum, Contain, Part, Advance>(
            sum,
            contain,
            part,
            advance,
            rest,
            self@.gravity,
            self@.constraint,
            sub_time_step,
        );
        let ghost start = self@;
        let ghost plan = frame.remaining();
        let ghost mut done = Seq::<Task>::empty();
        loop
            invariant
                always_callable(sum, contain, part, advance),
                kernel == kernel_of::<Vector, Scalar, Color, Sum, Contain, Part, Advance>(
                    sum,
                    contain,
                    part,
                    advance,
                    rest,
                    self@.gravity,
                    self@.constraint,
                    sub_time_step,
                ),
                self@.same_setting(start),
                self@.blobs.len() == frame.count(),
                done + frame.remaining() == plan,
                kernel.carries_out_all(done, start.blobs, self@.blobs),
            ensures
                self@.same_setting(start),
                kernel.carries_out_all(plan, start.blobs, self@.blobs),
            decreases frame.remaining().len(),
        {
            let ghost before = self@.blobs;
            match frame.next() {
                None => {
                    break ;
                },
                Some(task) => {
                    self.perform(task, sub_time_step, &sum, &contain, &part, &advance, rest);
                    proof {
                        kernel.lemma_one_more(done, task, start.blobs, before, self@.blobs);
                        done = done.push(task);
                    }
                },
            }
        }
        proof {
            kernel.law_population_kept(plan, start.blobs, self@.blobs);
            law_frame_is_substeps(kernel, start.iterations as nat, start.blobs, self@.blobs);
            assert(call_ensures(divide, (start.time, start.iterations), sub_time_step));
        }
    }
}

} // verus!

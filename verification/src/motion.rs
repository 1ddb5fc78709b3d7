//! What holds of the blobs whatever the caller's arithmetic computes: which
//! of their fields a run of tasks can change, and when a population stays as
//! it is.

use vstd::prelude::*;
use crate::blob::{Blob, Constraint};
use crate::kernel::Kernel;
use crate::plan::{collisions, frame_plan};
use crate::solver::{a_frame_later, kernel_of, SolverView};
use crate::task::Task;

verus! {

/// Whether each operation of the kernel writes the fields of a blob that it
/// is there to write, and no others: gravity the accumulated acceleration;
/// containment and collision the position; integration the position, the
/// old position, which becomes the position that the blob had, and the
/// accumulated acceleration, which becomes `rest`.
pub open spec fn keeps_to_its_fields<Vector, Scalar, Color>(
    kernel: Kernel<Blob<Vector, Scalar, Color>>,
    rest: Vector,
) -> bool {
    &&& forall|before: Blob<Vector, Scalar, Color>, after: Blob<Vector, Scalar, Color>| #[trigger]
        (kernel.accelerate)(before, after) ==> after == (Blob {
            acceleration: after.acceleration,
            ..before
        })
    &&& forall|before: Blob<Vector, Scalar, Color>, after: Blob<Vector, Scalar, Color>| #[trigger]
        (kernel.constrain)(before, after) ==> after == (Blob {
            position_current: after.position_current,
            ..before
        })
    &&& forall|
        first: Blob<Vector, Scalar, Color>,
        second: Blob<Vector, Scalar, Color>,
        first_after: Blob<Vector, Scalar, Color>,
        second_after: Blob<Vector, Scalar, Color>,
    | #[trigger]
        (kernel.collide)(first, second, first_after, second_after) ==> first_after == (Blob {
            position_current: first_after.position_current,
            ..first
        }) && second_after == (Blob { position_current: second_after.position_current, ..second })
    &&& forall|before: Blob<Vector, Scalar, Color>, after: Blob<Vector, Scalar, Color>| #[trigger]
        (kernel.integrate)(before, after) ==> after == (Blob {
            position_current: after.position_current,
            position_old: before.position_current,
            acceleration: rest,
            ..before
        })
}

/// The kernel that the solver makes of the caller's functions keeps to its
/// fields, whatever the functions compute.
pub proof fn law_kernel_keeps_to_its_fields<Vector: Copy, Scalar: Copy, Color, Sum, Contain, Part, Advance>(
    sum: Sum,
    contain: Contain,
    part: Part,
    advance: Advance,
    rest: Vector,
    gravity: Vector,
    constraint: Constraint<Vector, Scalar>,
    step: Scalar,
) where
    Sum: Fn(Vector, Vector) -> Vector,
    Contain: Fn(Vector, Scalar, Vector, Scalar) -> Vector,
    Part: Fn(Vector, Scalar, Vector, Scalar) -> (Vector, Vector),
    Advance: Fn(Vector, Vector, Vector, Scalar) -> Vector,

    ensures
        keeps_to_its_fields(
            kernel_of::<Vector, Scalar, Color, Sum, Contain, Part, Advance>(
                sum,
                contain,
                part,
                advance,
                rest,
                gravity,
                constraint,
                step,
            ),
            rest,
        ),
{
}

/// Whether `to` has as many blobs as `from`, and in each place a blob of
/// which `project` shows what it shows of the blob in `from`.
spec fn shows_the_same<B, T>(project: spec_fn(B) -> T, from: Seq<B>, to: Seq<B>) -> bool {
    &&& to.len() == from.len()
    &&& forall|i: int| 0 <= i < from.len() ==> project(#[trigger] to[i]) == project(from[i])
}

/// Whether carrying out `task` never changes what `project` shows of a blob.
spec fn task_keeps<B, T>(kernel: Kernel<B>, project: spec_fn(B) -> T, task: Task) -> bool {
    forall|from: Seq<B>, to: Seq<B>| #[trigger]
        kernel.carries_out(task, from, to) ==> shows_the_same(project, from, to)
}

/// What no task of a run changes, the run does not change.
proof fn lemma_run_keeps<B, T>(
    kernel: Kernel<B>,
    project: spec_fn(B) -> T,
    tasks: Seq<Task>,
    before: Seq<B>,
    after: Seq<B>,
)
    requires
        kernel.carries_out_all(tasks, before, after),
        forall|k: int| 0 <= k < tasks.len() ==> task_keeps(kernel, project, #[trigger] tasks[k]),
    ensures
        shows_the_same(project, before, after),
    decreases tasks.len(),
{
    if tasks.len() > 0 {
        let between = choose|between: Seq<B>|
            kernel.carries_out_all(tasks.drop_last(), before, between) && kernel.carries_out(
                tasks.last(),
                between,
                after,
            );
        assert forall|k: int| 0 <= k < tasks.drop_last().len() implies task_keeps(
            kernel,
            project,
            #[trigger] tasks.drop_last()[k],
        ) by {
            assert(tasks.drop_last()[k] == tasks[k]);
        }
        lemma_run_keeps(kernel, project, tasks.drop_last(), before, between);
        assert(task_keeps(kernel, project, tasks[tasks.len() - 1]));
        assert(shows_the_same(project, between, after));
    }
}

/// No task changes the size or the colour of a blob.
pub proof fn law_sizes_and_colors_are_kept<Vector, Scalar, Color>(
    kernel: Kernel<Blob<Vector, Scalar, Color>>,
    rest: Vector,
    tasks: Seq<Task>,
    before: Seq<Blob<Vector, Scalar, Color>>,
    after: Seq<Blob<Vector, Scalar, Color>>,
)
    requires
        keeps_to_its_fields(kernel, rest),
        kernel.carries_out_all(tasks, before, after),
    ensures
        after.len() == before.len(),
        forall|i: int|
            0 <= i < before.len() ==> (#[trigger] after[i]).size == before[i].size && after[i].color
                == before[i].color,
{
    let project = |blob: Blob<Vector, Scalar, Color>| (blob.size, blob.color);
    lemma_run_keeps(kernel, project, tasks, before, after);
    assert forall|i: int| 0 <= i < before.len() implies (#[trigger] after[i]).size
        == before[i].size && after[i].color == before[i].color by {
        assert(project(after[i]) == project(before[i]));
    }
}

/// The old position of a blob is written by integration alone: a run of
/// tasks without an integration leaves every old position as it was.
pub proof fn law_old_positions_wait_for_integration<Vector, Scalar, Color>(
    kernel: Kernel<Blob<Vector, Scalar, Color>>,
    rest: Vector,
    tasks: Seq<Task>,
    before: Seq<Blob<Vector, Scalar, Color>>,
    after: Seq<Blob<Vector, Scalar, Color>>,
)
    requires
        keeps_to_its_fields(kernel, rest),
        kernel.carries_out_all(tasks, before, after),
        forall|k: int| 0 <= k < tasks.len() ==> !((#[trigger] tasks[k]) is Integrate),
    ensures
        after.len() == before.len(),
        forall|i: int|
            0 <= i < before.len() ==> (#[trigger] after[i]).position_old == before[i].position_old,
{
    let project = |blob: Blob<Vector, Scalar, Color>| blob.position_old;
    lemma_run_keeps(kernel, project, tasks, before, after);
    assert forall|i: int| 0 <= i < before.len() implies (#[trigger] after[i]).position_old
        == before[i].position_old by {
        assert(project(after[i]) == project(before[i]));
    }
}

/// The accumulated acceleration of a blob is written by the gravity pass and
/// by integration alone: containment and collisions leave every
/// acceleration as it was.
pub proof fn law_moves_keep_accelerations<Vector, Scalar, Color>(
    kernel: Kernel<Blob<Vector, Scalar, Color>>,
    rest: Vector,
    tasks: Seq<Task>,
    before: Seq<Blob<Vector, Scalar, Color>>,
    after: Seq<Blob<Vector, Scalar, Color>>,
)
    requires
        keeps_to_its_fields(kernel, rest),
        kernel.carries_out_all(tasks, before, after),
        forall|k: int|
            0 <= k < tasks.len() ==> (#[trigger] tasks[k]) is Constrain || tasks[k] is Collide,
    ensures
        after.len() == before.len(),
        forall|i: int|
            0 <= i < before.len() ==> (#[trigger] after[i]).acceleration == before[i].acceleration,
{
    let project = |blob: Blob<Vector, Scalar, Color>| blob.acceleration;
    lemma_run_keeps(kernel, project, tasks, before, after);
    assert forall|i: int| 0 <= i < before.len() implies (#[trigger] after[i]).acceleration
        == before[i].acceleration by {
        assert(project(after[i]) == project(before[i]));
    }
}

/// A frame ends with nothing accumulated: after one sub-step or more, the
/// accumulated acceleration of every blob is `rest`.
pub proof fn law_substeps_end_at_rest<Vector, Scalar, Color>(
    kernel: Kernel<Blob<Vector, Scalar, Color>>,
    rest: Vector,
    count: nat,
    before: Seq<Blob<Vector, Scalar, Color>>,
    after: Seq<Blob<Vector, Scalar, Color>>,
)
    requires
        keeps_to_its_fields(kernel, rest),
        count > 0,
        kernel.substeps(count, before, after),
    ensures
        forall|i: int| 0 <= i < after.len() ==> (#[trigger] after[i]).acceleration == rest,
    decreases count,
{
    let between = choose|between: Seq<Blob<Vector, Scalar, Color>>| #[trigger]
        kernel.substep(before, between) && kernel.substeps((count - 1) as nat, between, after);
    if count == 1 {
        let (accelerated, constrained, collided) = choose|
            accelerated: Seq<Blob<Vector, Scalar, Color>>,
            constrained: Seq<Blob<Vector, Scalar, Color>>,
            collided: Seq<Blob<Vector, Scalar, Color>>,
        | #[trigger]
            kernel.four_passes(before, accelerated, constrained, collided, between);
        assert forall|i: int| 0 <= i < after.len() implies (#[trigger] after[i]).acceleration
            == rest by {
            assert((kernel.integrate)(collided[i], between[i]));
        }
    } else {
        law_substeps_end_at_rest(kernel, rest, (count - 1) as nat, between, after);
    }
}

/// A blob on its own follows the Verlet recurrence. Where the gravity adds up
/// to `pulled` in a blob with nothing accumulated, and `contain` leaves the
/// blob where it is, a sub-step puts the blob where `advance` puts it for its
/// position, its old position and `pulled`; the position that it had becomes
/// its old position, and nothing is accumulated any more.
pub proof fn law_lone_blob_follows_the_recurrence<Vector: Copy, Scalar: Copy, Color, Sum, Contain, Part, Advance>(
    sum: Sum,
    contain: Contain,
    part: Part,
    advance: Advance,
    rest: Vector,
    gravity: Vector,
    constraint: Constraint<Vector, Scalar>,
    step: Scalar,
    pulled: Vector,
    before: Blob<Vector, Scalar, Color>,
    after: Seq<Blob<Vector, Scalar, Color>>,
) where
    Sum: Fn(Vector, Vector) -> Vector,
    Contain: Fn(Vector, Scalar, Vector, Scalar) -> Vector,
    Part: Fn(Vector, Scalar, Vector, Scalar) -> (Vector, Vector),
    Advance: Fn(Vector, Vector, Vector, Scalar) -> Vector,

    requires
        before.acceleration == rest,
        forall|accumulated: Vector| #[trigger]
            call_ensures(sum, (rest, gravity), accumulated) ==> accumulated == pulled,
        forall|position: Vector| #[trigger]
            call_ensures(
                contain,
                (before.position_current, before.size, constraint.position, constraint.radius),
                position,
            ) ==> position == before.position_current,
        kernel_of::<Vector, Scalar, Color, Sum, Contain, Part, Advance>(
            sum,
            contain,
            part,
            advance,
            rest,
            gravity,
            constraint,
            step,
        ).substep(seq![before], after),
    ensures
        after.len() == 1,
        call_ensures(
            advance,
            (before.position_current, before.position_old, pulled, step),
            after[0].position_current,
        ),
        after[0].position_old == before.position_current,
        after[0].acceleration == rest,
        after[0].size == before.size,
        after[0].color == before.color,
{
    let kernel = kernel_of::<Vector, Scalar, Color, Sum, Contain, Part, Advance>(
        sum,
        contain,
        part,
        advance,
        rest,
        gravity,
        constraint,
        step,
    );
    let (accelerated, constrained, collided) = choose|
        accelerated: Seq<Blob<Vector, Scalar, Color>>,
        constrained: Seq<Blob<Vector, Scalar, Color>>,
        collided: Seq<Blob<Vector, Scalar, Color>>,
    | #[trigger]
        kernel.four_passes(seq![before], accelerated, constrained, collided, after);
    assert(collisions(1, 1) =~= Seq::<Task>::empty());
    assert(collisions(0, 1) =~= Seq::<Task>::empty());
    assert((kernel.accelerate)(seq![before][0], accelerated[0]));
    assert((kernel.constrain)(accelerated[0], constrained[0]));
    assert((kernel.integrate)(collided[0], after[0]));
}

/// Whether the caller's arithmetic moves nothing in the population of
/// `solver`: every blob is at rest, with nothing accumulated; adding the
/// gravity to nothing gives nothing; `contain` leaves every blob where it is
/// and `part` every pair of blobs; and `advance` leaves a blob that has no
/// velocity and no acceleration where it is, whatever the length of the
/// sub-step.
pub open spec fn nothing_moves<Vector, Scalar, Color, Sum, Contain, Part, Advance>(
    sum: Sum,
    contain: Contain,
    part: Part,
    advance: Advance,
    rest: Vector,
    solver: SolverView<Vector, Scalar, Color>,
) -> bool where
    Sum: Fn(Vector, Vector) -> Vector,
    Contain: Fn(Vector, Scalar, Vector, Scalar) -> Vector,
    Part: Fn(Vector, Scalar, Vector, Scalar) -> (Vector, Vector),
    Advance: Fn(Vector, Vector, Vector, Scalar) -> Vector,
{
    &&& forall|i: int|
        0 <= i < solver.blobs.len() ==> (#[trigger] solver.blobs[i]).position_old
            == solver.blobs[i].position_current && solver.blobs[i].acceleration == rest
    &&& forall|accumulated: Vector| #[trigger]
        call_ensures(sum, (rest, solver.gravity), accumulated) ==> accumulated == rest
    &&& forall|i: int, position: Vector|
        0 <= i < solver.blobs.len() && #[trigger] call_ensures(
            contain,
            (
                solver.blobs[i].position_current,
                solver.blobs[i].size,
                solver.constraint.position,
                solver.constraint.radius,
            ),
            position,
        ) ==> position == solver.blobs[i].position_current
    &&& forall|i: int, j: int, positions: (Vector, Vector)|
        0 <= i < j < solver.blobs.len() && #[trigger] call_ensures(
            part,
            (
                solver.blobs[i].position_current,
                solver.blobs[i].size,
                solver.blobs[j].position_current,
                solver.blobs[j].size,
            ),
            positions,
        ) ==> positions == (solver.blobs[i].position_current, solver.blobs[j].position_current)
    &&& forall|i: int, step: Scalar, position: Vector|
        0 <= i < solver.blobs.len() && #[trigger] call_ensures(
            advance,
            (
                solver.blobs[i].position_current,
                solver.blobs[i].position_current,
                rest,
                step,
            ),
            position,
        ) ==> position == solver.blobs[i].position_current
}

/// Where nothing moves, a frame changes nothing. A single blob at rest
/// inside the boundary, without gravity, is the plainest case: it has no
/// other blob to collide with, and it stays where it is frame after frame.
pub proof fn law_nothing_moves_nothing_changes<Vector: Copy, Scalar: Copy, Color, Divide, Sum, Contain, Part, Advance>(
    divide: Divide,
    sum: Sum,
    contain: Contain,
    part: Part,
    advance: Advance,
    rest: Vector,
    before: SolverView<Vector, Scalar, Color>,
    after: SolverView<Vector, Scalar, Color>,
) where
    Divide: Fn(Scalar, i32) -> Scalar,
    Sum: Fn(Vector, Vector) -> Vector,
    Contain: Fn(Vector, Scalar, Vector, Scalar) -> Vector,
    Part: Fn(Vector, Scalar, Vector, Scalar) -> (Vector, Vector),
    Advance: Fn(Vector, Vector, Vector, Scalar) -> Vector,

    requires
        nothing_moves(sum, contain, part, advance, rest, before),
        a_frame_later(divide, sum, contain, part, advance, rest, before, after),
    ensures
        after == before,
{
    let step = choose|step: Scalar| #[trigger]
        call_ensures(divide, (before.time, before.iterations), step) && {
            let kernel = kernel_of::<Vector, Scalar, Color, Sum, Contain, Part, Advance>(
                sum,
                contain,
                part,
                advance,
                rest,
                before.gravity,
                before.constraint,
                step,
            );
            &&& kernel.carries_out_all(
                frame_plan(before.blobs.len() as usize, before.iterations as nat),
                before.blobs,
                after.blobs,
            )
            &&& kernel.substeps(before.iterations as nat, before.blobs, after.blobs)
        };
    let kernel = kernel_of::<Vector, Scalar, Color, Sum, Contain, Part, Advance>(
        sum,
        contain,
        part,
        advance,
        rest,
        before.gravity,
        before.constraint,
        step,
    );
    assert(kernel.at_rest(before.blobs));
    kernel.law_rest_is_kept(
        frame_plan(before.blobs.len() as usize, before.iterations as nat),
        before.blobs,
        after.blobs,
    );
}

} // verus!

//! The order of work in a frame, as sequences of tasks.
//!
//! Nothing here runs: the sequences say what a frame is, and
//! [`crate::frame::Frame`] hands their tasks out one by one.

use vstd::prelude::*;
use crate::task::Task;

verus! {

/// The gravity pass from blob `from` on: one `Accelerate` for each of the
/// blobs `from`, `from + 1`, ..., `count - 1`, in that order.
pub open spec fn accelerations(from: usize, count: usize) -> Seq<Task> {
    if from <= count {
        Seq::new((count - from) as nat, |k: int| Task::Accelerate((from + k) as usize))
    } else {
        Seq::empty()
    }
}

/// The containment pass from blob `from` on: one `Constrain` for each of the
/// blobs `from`, `from + 1`, ..., `count - 1`, in that order.
pub open spec fn constraints(from: usize, count: usize) -> Seq<Task> {
    if from <= count {
        Seq::new((count - from) as nat, |k: int| Task::Constrain((from + k) as usize))
    } else {
        Seq::empty()
    }
}

/// The integration pass from blob `from` on: one `Integrate` for each of the
/// blobs `from`, `from + 1`, ..., `count - 1`, in that order.
pub open spec fn integrations(from: usize, count: usize) -> Seq<Task> {
    if from <= count {
        Seq::new((count - from) as nat, |k: int| Task::Integrate((from + k) as usize))
    } else {
        Seq::empty()
    }
}

/// The collisions that blob `first` resolves with the blobs `from`,
/// `from + 1`, ..., `count - 1`, in that order.
pub open spec fn collisions_of(first: usize, from: usize, count: usize) -> Seq<Task> {
    if from <= count {
        Seq::new((count - from) as nat, |k: int| Task::Collide(first, (from + k) as usize))
    } else {
        Seq::empty()
    }
}

/// The collision pass from blob `first` on: blob `first` collides with every
/// blob behind it, then blob `first + 1` with every blob behind that one, and
/// so on to the end of the population.
pub open spec fn collisions(first: usize, count: usize) -> Seq<Task>
    decreases count - first,
{
    if first < count {
        collisions_of(first, (first + 1) as usize, count) + collisions((first + 1) as usize, count)
    } else {
        Seq::empty()
    }
}

/// One sub-step on a population of `count` blobs: the gravity pass, the
/// containment pass, the collision pass and the integration pass, each over
/// the whole population.
pub open spec fn substep_plan(count: usize) -> Seq<Task> {
    accelerations(0, count) + constraints(0, count) + collisions(0, count) + integrations(
        0,
        count,
    )
}

/// A frame of `substeps` sub-steps on a population of `count` blobs: the same
/// sub-step, over and over.
pub open spec fn frame_plan(count: usize, substeps: nat) -> Seq<Task>
    decreases substeps,
{
    if substeps == 0 {
        Seq::empty()
    } else {
        substep_plan(count) + frame_plan(count, (substeps - 1) as nat)
    }
}

/// Without blobs there is no work, however many sub-steps the frame has.
pub proof fn lemma_frame_plan_of_nothing(substeps: nat)
    ensures
        frame_plan(0, substeps) == Seq::<Task>::empty(),
    decreases substeps,
{
    if substeps > 0 {
        lemma_frame_plan_of_nothing((substeps - 1) as nat);
    }
}

/// A pass that has not reached the end of the population starts with the task
/// for its first blob and goes on with the pass from the next blob.
pub proof fn lemma_pass_unfold(from: usize, count: usize)
    requires
        from < count,
    ensures
        accelerations(from, count) == seq![Task::Accelerate(from)] + accelerations(
            (from + 1) as usize,
            count,
        ),
        constraints(from, count) == seq![Task::Constrain(from)] + constraints(
            (from + 1) as usize,
            count,
        ),
        integrations(from, count) == seq![Task::Integrate(from)] + integrations(
            (from + 1) as usize,
            count,
        ),
{
    assert(accelerations(from, count) =~= seq![Task::Accelerate(from)] + accelerations(
        (from + 1) as usize,
        count,
    ));
    assert(constraints(from, count) =~= seq![Task::Constrain(from)] + constraints(
        (from + 1) as usize,
        count,
    ));
    assert(integrations(from, count) =~= seq![Task::Integrate(from)] + integrations(
        (from + 1) as usize,
        count,
    ));
}

/// The collisions of one blob start with the nearest partner and go on with
/// the partners behind it.
pub proof fn lemma_collisions_of_unfold(first: usize, from: usize, count: usize)
    requires
        from < count,
    ensures
        collisions_of(first, from, count) == seq![Task::Collide(first, from)] + collisions_of(
            first,
            (from + 1) as usize,
            count,
        ),
{
    assert(collisions_of(first, from, count) =~= seq![Task::Collide(first, from)] + collisions_of(
        first,
        (from + 1) as usize,
        count,
    ));
}

} // verus!

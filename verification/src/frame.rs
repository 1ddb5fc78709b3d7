//! A frame in progress: the state from which the next task is decided.

use vstd::prelude::*;
use crate::plan::{
    accelerations, collisions, collisions_of, constraints, frame_plan, integrations,
    lemma_collisions_of_unfold, lemma_frame_plan_of_nothing, lemma_pass_unfold, substep_plan,
};
use crate::task::Task;

verus! {

/// The four passes of a sub-step, in the order in which they run.
#[derive(Clone, Copy, Debug, PartialEq, Eq, Structural)]
enum Pass {
    Gravity,
    Containment,
    Collision,
    Integration,
}

/// What is left of the pass `pass` when its next task is the one for blob
/// `first` (and, in the collision pass, for the pair `first`, `second`).
spec fn rest_of_pass(pass: Pass, first: usize, second: usize, count: usize) -> Seq<Task> {
    match pass {
        Pass::Gravity => accelerations(first, count),
        Pass::Containment => constraints(first, count),
        Pass::Collision => collisions_of(first, second, count) + collisions(
            (first + 1) as usize,
            count,
        ),
        Pass::Integration => integrations(first, count),
    }
}

/// What follows the pass `pass` in a frame that has `left` sub-steps to go,
/// the current one included.
spec fn following(pass: Pass, count: usize, left: int) -> Seq<Task> {
    match pass {
        Pass::Gravity => constraints(0, count) + (collisions(0, count) + (integrations(0, count)
            + frame_plan(count, (left - 1) as nat))),
        Pass::Containment => collisions(0, count) + (integrations(0, count) + frame_plan(
            count,
            (left - 1) as nat,
        )),
        Pass::Collision => integrations(0, count) + frame_plan(count, (left - 1) as nat),
        Pass::Integration => frame_plan(count, (left - 1) as nat),
    }
}

/// The tasks that a frame in the given state has still to hand out.
spec fn upcoming(count: usize, left: int, pass: Pass, first: usize, second: usize) -> Seq<Task> {
    if count == 0 || left <= 0 {
        Seq::empty()
    } else {
        rest_of_pass(pass, first, second, count) + following(pass, count, left)
    }
}

/// Dropping the first task of a sequence that another one follows drops it
/// from the first of the two.
proof fn lemma_skip_head(head: Seq<Task>, tail: Seq<Task>)
    requires
        head.len() > 0,
    ensures
        (head + tail).len() > 0,
        (head + tail)[0] == head[0],
        (head + tail).skip(1) == head.skip(1) + tail,
{
    assert((head + tail).skip(1) =~= head.skip(1) + tail);
}

/// A sequence behind a single task is what is left when the task is dropped.
proof fn lemma_skip_single(task: Task, rest: Seq<Task>)
    ensures
        (seq![task] + rest).len() > 0,
        (seq![task] + rest)[0] == task,
        (seq![task] + rest).skip(1) == rest,
{
}

/// Nothing in front of a sequence leaves the sequence as it is.
proof fn lemma_empty_head(tail: Seq<Task>)
    ensures
        Seq::<Task>::empty() + tail == tail,
{
}

/// A frame with sub-steps to go starts with a whole sub-step.
proof fn lemma_frame_plan_unfold(count: usize, left: int)
    requires
        left > 0,
    ensures
        frame_plan(count, left as nat) == accelerations(0, count) + following(
            Pass::Gravity,
            count,
            left,
        ),
{
    let later = frame_plan(count, (left - 1) as nat);
    assert(substep_plan(count) + later =~= accelerations(0, count) + (constraints(0, count) + (
    collisions(0, count) + (integrations(0, count) + later))));
}

/// In the gravity pass the next task is the acceleration of blob `first`;
/// after it the pass goes on, or the containment pass begins.
proof fn lemma_gravity_step(count: usize, left: int, first: usize, second: usize)
    requires
        left > 0,
        first < count,
    ensures
        upcoming(count, left, Pass::Gravity, first, second).len() > 0,
        upcoming(count, left, Pass::Gravity, first, second)[0] == Task::Accelerate(first),
        first + 1 < count ==> upcoming(count, left, Pass::Gravity, first, second).skip(1)
            == upcoming(count, left, Pass::Gravity, (first + 1) as usize, second),
        first + 1 >= count ==> upcoming(count, left, Pass::Gravity, first, second).skip(1)
            == upcoming(count, left, Pass::Containment, 0, second),
{
    let next = accelerations((first + 1) as usize, count);
    let tail = following(Pass::Gravity, count, left);
    lemma_pass_unfold(first, count);
    lemma_skip_head(seq![Task::Accelerate(first)] + next, tail);
    lemma_skip_single(Task::Accelerate(first), next);
    if first + 1 >= count {
        lemma_empty_head(tail);
    }
}

/// In the containment pass the next task is the constraint of blob `first`;
/// after it the pass goes on, or the collision pass begins, or, where there
/// is no pair to collide, the integration pass.
proof fn lemma_containment_step(count: usize, left: int, first: usize, second: usize)
    requires
        left > 0,
        first < count,
    ensures
        upcoming(count, left, Pass::Containment, first, second).len() > 0,
        upcoming(count, left, Pass::Containment, first, second)[0] == Task::Constrain(first),
        first + 1 < count ==> upcoming(count, left, Pass::Containment, first, second).skip(1)
            == upcoming(count, left, Pass::Containment, (first + 1) as usize, second),
        first + 1 >= count && count >= 2 ==> upcoming(
            count,
            left,
            Pass::Containment,
            first,
            second,
        ).skip(1) == upcoming(count, left, Pass::Collision, 0, 1),
        first + 1 >= count && count < 2 ==> upcoming(
            count,
            left,
            Pass::Containment,
            first,
            second,
        ).skip(1) == upcoming(count, left, Pass::Integration, 0, second),
{
    let next = constraints((first + 1) as usize, count);
    let tail = following(Pass::Containment, count, left);
    lemma_pass_unfold(first, count);
    lemma_skip_head(seq![Task::Constrain(first)] + next, tail);
    lemma_skip_single(Task::Constrain(first), next);
    if first + 1 >= count {
        lemma_empty_head(tail);
        if count < 2 {
            lemma_empty_head(following(Pass::Collision, count, left));
        }
    }
}

/// In the collision pass the next task is the collision of `first` with
/// `second`; after it comes the next partner of `first`, or the next blob
/// with its first partner, or the integration pass.
proof fn lemma_collision_step(count: usize, left: int, first: usize, second: usize)
    requires
        left > 0,
        first < second < count,
    ensures
        upcoming(count, left, Pass::Collision, first, second).len() > 0,
        upcoming(count, left, Pass::Collision, first, second)[0] == Task::Collide(first, second),
        second + 1 < count ==> upcoming(count, left, Pass::Collision, first, second).skip(1)
            == upcoming(count, left, Pass::Collision, first, (second + 1) as usize),
        second + 1 >= count && first + 2 < count ==> upcoming(
            count,
            left,
            Pass::Collision,
            first,
            second,
        ).skip(1) == upcoming(
            count,
            left,
            Pass::Collision,
            (first + 1) as usize,
            (first + 2) as usize,
        ),
        second + 1 >= count && first + 2 >= count ==> upcoming(
            count,
            left,
            Pass::Collision,
            first,
            second,
        ).skip(1) == upcoming(count, left, Pass::Integration, 0, second),
{
    let task = Task::Collide(first, second);
    let next = collisions_of(first, (second + 1) as usize, count);
    let others = collisions((first + 1) as usize, count);
    let tail = following(Pass::Collision, count, left);
    lemma_collisions_of_unfold(first, second, count);
    lemma_skip_single(task, next);
    lemma_skip_head(seq![task] + next, others);
    lemma_skip_head(seq![task] + next + others, tail);
    if second + 1 >= count {
        lemma_empty_head(others);
        if first + 2 >= count {
            assert(collisions(count, count) =~= Seq::<Task>::empty());
            assert(collisions_of((first + 1) as usize, (first + 2) as usize, count)
                =~= Seq::<Task>::empty());
            lemma_empty_head(tail);
        }
    }
}

/// In the integration pass the next task is the integration of blob
/// `first`; after it the pass goes on, or the next sub-step begins.
proof fn lemma_integration_step(count: usize, left: int, first: usize, second: usize)
    requires
        left > 0,
        first < count,
    ensures
        upcoming(count, left, Pass::Integration, first, second).len() > 0,
        upcoming(count, left, Pass::Integration, first, second)[0] == Task::Integrate(first),
        first + 1 < count ==> upcoming(count, left, Pass::Integration, first, second).skip(1)
            == upcoming(count, left, Pass::Integration, (first + 1) as usize, second),
        first + 1 >= count ==> upcoming(count, left, Pass::Integration, first, second).skip(1)
            == upcoming(count, left - 1, Pass::Gravity, 0, second),
{
    let next = integrations((first + 1) as usize, count);
    let tail = following(Pass::Integration, count, left);
    lemma_pass_unfold(first, count);
    lemma_skip_head(seq![Task::Integrate(first)] + next, tail);
    lemma_skip_single(Task::Integrate(first), next);
    if first + 1 >= count {
        lemma_empty_head(tail);
        if left - 1 > 0 {
            lemma_frame_plan_unfold(count, left - 1);
        }
    }
}

/// The work of one frame that is still to be done.
///
/// A frame is made for a population of a given size and a number of
/// sub-steps. [`Frame::next`] hands out its tasks one by one, in the order of
/// [`frame_plan`]; the caller carries each task out before it asks for the
/// next one.
#[derive(Clone, Copy, Debug)]
pub struct Frame {
    count: usize,
    left: i32,
    pass: Pass,
    first: usize,
    second: usize,
}

impl Frame {
    /// While work is left, the position names a task of the current pass.
    #[verifier::type_invariant]
    spec fn well_formed(self) -> bool {
        &&& self.left >= 0
        &&& (self.count > 0 && self.left > 0) ==> match self.pass {
            Pass::Collision => self.first < self.second < self.count,
            _ => self.first < self.count,
        }
    }

    /// The size of the population that the frame was made for.
    pub closed spec fn count(&self) -> usize {
        self.count
    }

    /// The tasks that have not been handed out yet, the next one first.
    pub closed spec fn remaining(&self) -> Seq<Task> {
        upcoming(self.count, self.left as int, self.pass, self.first, self.second)
    }

    /// Starts a frame of `substeps` sub-steps on a population of `count`
    /// blobs. Nothing has been handed out yet.
    pub fn new(count: usize, substeps: i32) -> (frame: Frame)
        requires
            substeps > 0,
        ensures
            frame.count() == count,
            frame.remaining() == frame_plan(count, substeps as nat),
    {
        proof {
            lemma_frame_plan_of_nothing(substeps as nat);
            lemma_frame_plan_unfold(count, substeps as int);
        }
        Frame { count, left: substeps, pass: Pass::Gravity, first: 0, second: 0 }
    }

    /// Hands out the next task of the frame, or `None` once the frame is
    /// done. The task handed out always fits the population that the frame
    /// was made for.
    pub fn next(&mut self) -> (task: Option<Task>)
        ensures
            final(self).count() == old(self).count(),
            old(self).remaining().len() == 0 ==> task is None && final(self).remaining() == old(
                self,
            ).remaining(),
            old(self).remaining().len() > 0 ==> task == Some(old(self).remaining()[0])
                && old(self).remaining()[0].fits(old(self).count()) && final(self).remaining()
                == old(self).remaining().skip(1),
    {
        proof {
            use_type_invariant(&*self);
        }
        if self.count == 0 || self.left == 0 {
            return None;
        }
        let count = self.count;
        let left = self.left;
        let first = self.first;
        let second = self.second;
        match self.pass {
            Pass::Gravity => {
                proof {
                    lemma_gravity_step(count, left as int, first, second);
                }
                if first + 1 < count {
                    *self = Frame { count, left, pass: Pass::Gravity, first: first + 1, second };
                } else {
                    *self = Frame { count, left, pass: Pass::Containment, first: 0, second };
                }
                Some(Task::Accelerate(first))
            },
            Pass::Containment => {
                proof {
                    lemma_containment_step(count, left as int, first, second);
                }
                if first + 1 < count {
                    *self = Frame { count, left, pass: Pass::Containment, first: first + 1, second };
                } else if count >= 2 {
                    *self = Frame { count, left, pass: Pass::Collision, first: 0, second: 1 };
                } else {
                    *self = Frame { count, left, pass: Pass::Integration, first: 0, second };
                }
                Some(Task::Constrain(first))
            },
            Pass::Collision => {
                proof {
                    lemma_collision_step(count, left as int, first, second);
                }
                if second + 1 < count {
                    *self = Frame { count, left, pass: Pass::Collision, first, second: second + 1 };
                } else if first + 2 < count {
                    *self = Frame {
                        count,
                        left,
                        pass: Pass::Collision,
                        first: first + 1,
                        second: first + 2,
                    };
                } else {
                    *self = Frame { count, left, pass: Pass::Integration, first: 0, second };
                }
                Some(Task::Collide(first, second))
            },
            Pass::Integration => {
                proof {
                    lemma_integration_step(count, left as int, first, second);
                }
                if first + 1 < count {
                    *self = Frame { count, left, pass: Pass::Integration, first: first + 1, second };
                } else {
                    *self = Frame { count, left: left - 1, pass: Pass::Gravity, first: 0, second };
                }
                Some(Task::Integrate(first))
            },
        }
    }
}

} // verus!

//! A sub-step as four passes, and a frame as sub-steps: what a run through
//! the plan comes to, pass by pass.

use vstd::prelude::*;
use crate::kernel::Kernel;
use crate::plan::{accelerations, collisions, constraints, frame_plan, integrations, substep_plan};
use crate::task::Task;

verus! {

/// Whether `after` has, in each place, a blob that `relation` allows for the
/// blob that `before` has there.
pub open spec fn sweeps<B>(relation: spec_fn(B, B) -> bool, before: Seq<B>, after: Seq<B>) -> bool {
    &&& after.len() == before.len()
    &&& forall|i: int| 0 <= i < before.len() ==> relation(before[i], #[trigger] after[i])
}

impl<B> Kernel<B> {
    /// Whether the four passes of a sub-step may take the population from
    /// `before` through `accelerated`, `constrained` and `collided` to
    /// `after`: gravity for every blob, containment for every blob, the
    /// collisions of all pairs one after the other, integration for every
    /// blob.
    pub open spec fn four_passes(
        self,
        before: Seq<B>,
        accelerated: Seq<B>,
        constrained: Seq<B>,
        collided: Seq<B>,
        after: Seq<B>,
    ) -> bool {
        &&& sweeps(self.accelerate, before, accelerated)
        &&& sweeps(self.constrain, accelerated, constrained)
        &&& self.carries_out_all(collisions(0, before.len() as usize), constrained, collided)
        &&& sweeps(self.integrate, collided, after)
    }

    /// Whether one sub-step may turn the population `before` into `after`.
    pub open spec fn substep(self, before: Seq<B>, after: Seq<B>) -> bool {
        exists|accelerated: Seq<B>, constrained: Seq<B>, collided: Seq<B>| #[trigger]
            self.four_passes(before, accelerated, constrained, collided, after)
    }

    /// Whether `count` sub-steps, one after the other, may turn the
    /// population `before` into `after`.
    pub open spec fn substeps(self, count: nat, before: Seq<B>, after: Seq<B>) -> bool
        decreases count,
    {
        if count == 0 {
            after == before
        } else {
            exists|between: Seq<B>| #[trigger]
                self.substep(before, between) && self.substeps(
                    (count - 1) as nat,
                    between,
                    after,
                )
        }
    }
}

/// Whether `after` is `before` with each of the first `done` blobs replaced
/// by a blob that `relation` allows for it, and the other blobs as they were.
spec fn swept<B>(relation: spec_fn(B, B) -> bool, done: int, before: Seq<B>, after: Seq<B>) -> bool {
    &&& after.len() == before.len()
    &&& forall|i: int| 0 <= i < done ==> relation(before[i], #[trigger] after[i])
    &&& forall|i: int| done <= i < before.len() ==> #[trigger] after[i] == before[i]
}

/// Whether task number `k` of `tasks` works on blob `k` alone, by
/// `relation`, for every `k`.
spec fn one_by_one<B>(kernel: Kernel<B>, relation: spec_fn(B, B) -> bool, tasks: Seq<Task>) -> bool {
    forall|k: int, from: Seq<B>, to: Seq<B>|
        0 <= k < tasks.len() ==> (#[trigger] kernel.carries_out(tasks[k], from, to) <==> {
            &&& k < from.len()
            &&& to.len() == from.len()
            &&& relation(from[k], to[k])
            &&& to == from.update(k, to[k])
        })
}

/// A pass whose tasks work on the blobs one by one sweeps the population.
proof fn lemma_sweep<B>(
    kernel: Kernel<B>,
    relation: spec_fn(B, B) -> bool,
    tasks: Seq<Task>,
    before: Seq<B>,
    after: Seq<B>,
)
    requires
        tasks.len() <= before.len(),
        one_by_one(kernel, relation, tasks),
    ensures
        kernel.carries_out_all(tasks, before, after) <==> swept(
            relation,
            tasks.len() as int,
            before,
            after,
        ),
    decreases tasks.len(),
{
    if tasks.len() == 0 {
        if swept(relation, 0, before, after) {
            assert(after =~= before);
        }
    } else {
        let last = tasks.len() - 1;
        let earlier = tasks.drop_last();
        assert(one_by_one(kernel, relation, earlier));
        if kernel.carries_out_all(tasks, before, after) {
            let between = choose|between: Seq<B>|
                kernel.carries_out_all(tasks.drop_last(), before, between) && kernel.carries_out(
                    tasks.last(),
                    between,
                    after,
                );
            lemma_sweep(kernel, relation, earlier, before, between);
        }
        if swept(relation, tasks.len() as int, before, after) {
            let between = after.update(last, before[last]);
            assert(swept(relation, last, before, between));
            lemma_sweep(kernel, relation, earlier, before, between);
            assert(after =~= between.update(last, after[last]));
            assert(kernel.carries_out_all(tasks.drop_last(), before, between)
                && kernel.carries_out(tasks.last(), between, after));
        }
    }
}

/// The gravity pass treats every blob on its own: it may turn `before` into
/// `after` exactly if `after` has, in each place, a blob that the kernel's
/// `accelerate` allows for the blob that `before` has there.
pub proof fn law_gravity_pass<B>(kernel: Kernel<B>, before: Seq<B>, after: Seq<B>)
    requires
        before.len() <= usize::MAX,
    ensures
        kernel.carries_out_all(accelerations(0, before.len() as usize), before, after) <==> sweeps(
            kernel.accelerate,
            before,
            after,
        ),
{
    let tasks = accelerations(0, before.len() as usize);
    lemma_sweep(kernel, kernel.accelerate, tasks, before, after);
}

/// The containment pass treats every blob on its own: it may turn `before`
/// into `after` exactly if `after` has, in each place, a blob that the
/// kernel's `constrain` allows for the blob that `before` has there.
pub proof fn law_containment_pass<B>(kernel: Kernel<B>, before: Seq<B>, after: Seq<B>)
    requires
        before.len() <= usize::MAX,
    ensures
        kernel.carries_out_all(constraints(0, before.len() as usize), before, after) <==> sweeps(
            kernel.constrain,
            before,
            after,
        ),
{
    let tasks = constraints(0, before.len() as usize);
    lemma_sweep(kernel, kernel.constrain, tasks, before, after);
}

/// The integration pass treats every blob on its own: it may turn `before`
/// into `after` exactly if `after` has, in each place, a blob that the
/// kernel's `integrate` allows for the blob that `before` has there.
pub proof fn law_integration_pass<B>(kernel: Kernel<B>, before: Seq<B>, after: Seq<B>)
    requires
        before.len() <= usize::MAX,
    ensures
        kernel.carries_out_all(integrations(0, before.len() as usize), before, after) <==> sweeps(
            kernel.integrate,
            before,
            after,
        ),
{
    let tasks = integrations(0, before.len() as usize);
    lemma_sweep(kernel, kernel.integrate, tasks, before, after);
}

/// Two blobs collide once in a sub-step: the collision pass of a population
/// of two puts them where the kernel's `collide` puts them,
/// and leaves it at that, whether or not they still overlap.
pub proof fn law_two_blobs_collide_once<B>(
    kernel: Kernel<B>,
    first: B,
    second: B,
    after: Seq<B>,
)
    ensures
        collisions(0, 2) == seq![Task::Collide(0, 1)],
        kernel.carries_out_all(collisions(0, 2), seq![first, second], after) <==> after.len() == 2
            && (kernel.collide)(first, second, after[0], after[1]),
{
    reveal_with_fuel(collisions, 3);
    assert(collisions(0, 2) =~= seq![Task::Collide(0, 1)]);
    let tasks = seq![Task::Collide(0, 1)];
    let before = seq![first, second];
    assert(tasks.drop_last() =~= Seq::<Task>::empty());
    if kernel.carries_out_all(tasks, before, after) {
        let between = choose|between: Seq<B>|
            kernel.carries_out_all(tasks.drop_last(), before, between) && kernel.carries_out(
                tasks.last(),
                between,
                after,
            );
        assert(between == before);
    }
    if after.len() == 2 && (kernel.collide)(first, second, after[0], after[1]) {
        assert(after =~= before.update(0, after[0]).update(1, after[1]));
        assert(kernel.carries_out_all(tasks.drop_last(), before, before) && kernel.carries_out(
            tasks.last(),
            before,
            after,
        ));
    }
}

/// A sub-step is its four passes: the tasks of a sub-step may turn `before`
/// into `after` exactly if the gravity pass, the containment pass, the
/// collision pass and the integration pass, in this order, may do so.
pub proof fn law_substep_is_four_passes<B>(kernel: Kernel<B>, before: Seq<B>, after: Seq<B>)
    requires
        before.len() <= usize::MAX,
    ensures
        kernel.carries_out_all(substep_plan(before.len() as usize), before, after)
            <==> kernel.substep(before, after),
{
    let count = before.len() as usize;
    let a = accelerations(0, count);
    let c = constraints(0, count);
    let k = collisions(0, count);
    let i = integrations(0, count);
    if kernel.carries_out_all(substep_plan(count), before, after) {
        let collided = kernel.law_run_splits(a + c + k, i, before, after);
        let constrained = kernel.law_run_splits(a + c, k, before, collided);
        let accelerated = kernel.law_run_splits(a, c, before, constrained);
        kernel.law_population_kept(a, before, accelerated);
        kernel.law_population_kept(c, accelerated, constrained);
        kernel.law_population_kept(k, constrained, collided);
        law_gravity_pass(kernel, before, accelerated);
        law_containment_pass(kernel, accelerated, constrained);
        law_integration_pass(kernel, collided, after);
        assert(kernel.four_passes(before, accelerated, constrained, collided, after));
    }
    if kernel.substep(before, after) {
        let (accelerated, constrained, collided) = choose|
            accelerated: Seq<B>,
            constrained: Seq<B>,
            collided: Seq<B>,
        | #[trigger]
            kernel.four_passes(before, accelerated, constrained, collided, after);
        kernel.law_population_kept(k, constrained, collided);
        law_gravity_pass(kernel, before, accelerated);
        law_containment_pass(kernel, accelerated, constrained);
        law_integration_pass(kernel, collided, after);
        kernel.law_runs_join(a, c, before, accelerated, constrained);
        kernel.law_runs_join(a + c, k, before, constrained, collided);
        kernel.law_runs_join(a + c + k, i, before, collided, after);
    }
}

/// A frame is its sub-steps: the tasks of a frame of `count` sub-steps may
/// turn `before` into `after` exactly if `count` sub-steps, one after the
/// other, may do so.
pub proof fn law_frame_is_substeps<B>(
    kernel: Kernel<B>,
    count: nat,
    before: Seq<B>,
    after: Seq<B>,
)
    requires
        before.len() <= usize::MAX,
    ensures
        kernel.carries_out_all(frame_plan(before.len() as usize, count), before, after)
            <==> kernel.substeps(count, before, after),
    decreases count,
{
    if count > 0 {
        let size = before.len() as usize;
        let first = substep_plan(size);
        let others = frame_plan(size, (count - 1) as nat);
        if kernel.carries_out_all(frame_plan(size, count), before, after) {
            let between = kernel.law_run_splits(first, others, before, after);
            kernel.law_population_kept(first, before, between);
            law_substep_is_four_passes(kernel, before, between);
            law_frame_is_substeps(kernel, (count - 1) as nat, between, after);
            assert(kernel.substep(before, between) && kernel.substeps(
                (count - 1) as nat,
                between,
                after,
            ));
        }
        if kernel.substeps(count, before, after) {
            let between = choose|between: Seq<B>| #[trigger]
                kernel.substep(before, between) && kernel.substeps(
                    (count - 1) as nat,
                    between,
                    after,
                );
            law_substep_is_four_passes(kernel, before, between);
            kernel.law_population_kept(first, before, between);
            law_frame_is_substeps(kernel, (count - 1) as nat, between, after);
            kernel.law_runs_join(first, others, before, between, after);
        }
    }
}

} // verus!

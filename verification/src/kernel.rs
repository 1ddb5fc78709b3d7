//! What the caller's arithmetic does to the blobs, as far as a frame needs to
//! know it.

use vstd::prelude::*;
use crate::task::Task;

verus! {

/// The four operations of a sub-step, each as a relation between the blobs
/// that go in and the blobs that may come out.
#[verifier::reject_recursive_types(B)]
pub struct Kernel<B> {
    /// `accelerate(before, after)`: adding the gravity to `before` may give
    /// `after`.
    pub accelerate: spec_fn(B, B) -> bool,
    /// `constrain(before, after)`: pulling `before` back into the boundary
    /// may give `after`.
    pub constrain: spec_fn(B, B) -> bool,
    /// `collide(first, second, first_after, second_after)`: resolving the
    /// collision of `first` with `second` may give the two blobs after it.
    pub collide: spec_fn(B, B, B, B) -> bool,
    /// `integrate(before, after)`: advancing `before` by one sub-step may
    /// give `after`.
    pub integrate: spec_fn(B, B) -> bool,
}

impl<B> Kernel<B> {
    /// Whether carrying out `task` on the population `before` may give the
    /// population `after`: the task fits the population, the blobs that it
    /// names are related as the kernel says, and every other blob is as it
    /// was.
    pub open spec fn carries_out(self, task: Task, before: Seq<B>, after: Seq<B>) -> bool {
        match task {
            Task::Accelerate(blob) => {
                &&& blob < before.len()
                &&& (self.accelerate)(before[blob as int], after[blob as int])
                &&& after == before.update(blob as int, after[blob as int])
            },
            Task::Constrain(blob) => {
                &&& blob < before.len()
                &&& (self.constrain)(before[blob as int], after[blob as int])
                &&& after == before.update(blob as int, after[blob as int])
            },
            Task::Collide(first, second) => {
                &&& first < second < before.len()
                &&& (self.collide)(
                    before[first as int],
                    before[second as int],
                    after[first as int],
                    after[second as int],
                )
                &&& after == before.update(first as int, after[first as int]).update(
                    second as int,
                    after[second as int],
                )
            },
            Task::Integrate(blob) => {
                &&& blob < before.len()
                &&& (self.integrate)(before[blob as int], after[blob as int])
                &&& after == before.update(blob as int, after[blob as int])
            },
        }
    }

    /// Whether carrying out `tasks` one after the other, each on what the one
    /// before it left, may turn the population `before` into `after`.
    pub open spec fn carries_out_all(self, tasks: Seq<Task>, before: Seq<B>, after: Seq<B>) -> bool
        decreases tasks.len(),
    {
        if tasks.len() == 0 {
            after == before
        } else {
            exists|between: Seq<B>|
                self.carries_out_all(tasks.drop_last(), before, between) && self.carries_out(
                    tasks.last(),
                    between,
                    after,
                )
        }
    }

    /// Whether the kernel leaves every blob of `population`, and every pair
    /// of its blobs, as it is.
    pub open spec fn at_rest(self, population: Seq<B>) -> bool {
        &&& forall|i: int, after: B|
            0 <= i < population.len() && #[trigger] (self.accelerate)(population[i], after)
                ==> after == population[i]
        &&& forall|i: int, after: B|
            0 <= i < population.len() && #[trigger] (self.constrain)(population[i], after)
                ==> after == population[i]
        &&& forall|i: int, j: int, first_after: B, second_after: B|
            0 <= i < j < population.len() && #[trigger] (self.collide)(
                population[i],
                population[j],
                first_after,
                second_after,
            ) ==> first_after == population[i] && second_after == population[j]
        &&& forall|i: int, after: B|
            0 <= i < population.len() && #[trigger] (self.integrate)(population[i], after)
                ==> after == population[i]
    }

    /// Whether each of the kernel's operations allows one result at most for
    /// what goes into it.
    pub open spec fn is_deterministic(self) -> bool {
        &&& forall|before: B, after: B, other: B|
            #[trigger] (self.accelerate)(before, after) && #[trigger] (self.accelerate)(
                before,
                other,
            ) ==> after == other
        &&& forall|before: B, after: B, other: B|
            #[trigger] (self.constrain)(before, after) && #[trigger] (self.constrain)(
                before,
                other,
            ) ==> after == other
        &&& forall|
            first: B,
            second: B,
            first_after: B,
            second_after: B,
            first_other: B,
            second_other: B,
        |
            #[trigger] (self.collide)(first, second, first_after, second_after)
                && #[trigger] (self.collide)(first, second, first_other, second_other)
                ==> first_after == first_other && second_after == second_other
        &&& forall|before: B, after: B, other: B|
            #[trigger] (self.integrate)(before, after) && #[trigger] (self.integrate)(
                before,
                other,
            ) ==> after == other
    }

    /// A run of tasks goes on by one task: if `tasks` may turn `before` into
    /// `between`, and `task` may turn `between` into `after`, then `tasks`
    /// followed by `task` may turn `before` into `after`.
    pub proof fn lemma_one_more(
        self,
        tasks: Seq<Task>,
        task: Task,
        before: Seq<B>,
        between: Seq<B>,
        after: Seq<B>,
    )
        requires
            self.carries_out_all(tasks, before, between),
            self.carries_out(task, between, after),
        ensures
            self.carries_out_all(tasks.push(task), before, after),
    {
        assert(tasks.push(task).drop_last() =~= tasks);
        assert(tasks.push(task).last() == task);
    }

    /// Carrying out tasks neither adds a blob to the population nor takes
    /// one away.
    pub proof fn law_population_kept(self, tasks: Seq<Task>, before: Seq<B>, after: Seq<B>)
        requires
            self.carries_out_all(tasks, before, after),
        ensures
            after.len() == before.len(),
        decreases tasks.len(),
    {
        if tasks.len() > 0 {
            let between = choose|between: Seq<B>|
                self.carries_out_all(tasks.drop_last(), before, between) && self.carries_out(
                    tasks.last(),
                    between,
                    after,
                );
            self.law_population_kept(tasks.drop_last(), before, between);
        }
    }

    /// A population that the kernel leaves alone comes out of every run of
    /// tasks as it went in: the order of work adds nothing of its own.
    pub proof fn law_rest_is_kept(self, tasks: Seq<Task>, before: Seq<B>, after: Seq<B>)
        requires
            self.at_rest(before),
            self.carries_out_all(tasks, before, after),
        ensures
            after == before,
        decreases tasks.len(),
    {
        if tasks.len() > 0 {
            let between = choose|between: Seq<B>|
                self.carries_out_all(tasks.drop_last(), before, between) && self.carries_out(
                    tasks.last(),
                    between,
                    after,
                );
            self.law_rest_is_kept(tasks.drop_last(), before, between);
        }
    }

    /// With operations that allow one result each, a run of tasks allows one
    /// outcome: what a frame makes of a population depends on the order of
    /// the blobs, and on nothing else.
    pub proof fn law_one_outcome(
        self,
        tasks: Seq<Task>,
        before: Seq<B>,
        after: Seq<B>,
        other: Seq<B>,
    )
        requires
            self.is_deterministic(),
            self.carries_out_all(tasks, before, after),
            self.carries_out_all(tasks, before, other),
        ensures
            after == other,
        decreases tasks.len(),
    {
        if tasks.len() > 0 {
            let between = choose|between: Seq<B>|
                self.carries_out_all(tasks.drop_last(), before, between) && self.carries_out(
                    tasks.last(),
                    between,
                    after,
                );
            let between_other = choose|between: Seq<B>|
                self.carries_out_all(tasks.drop_last(), before, between) && self.carries_out(
                    tasks.last(),
                    between,
                    other,
                );
            self.law_one_outcome(tasks.drop_last(), before, between, between_other);
        }
    }

    /// A run of tasks can be cut anywhere: if `head` followed by `tail` may
    /// turn `before` into `after`, there is a population in between that
    /// `head` may turn `before` into and that `tail` may turn into `after`.
    pub proof fn law_run_splits(
        self,
        head: Seq<Task>,
        tail: Seq<Task>,
        before: Seq<B>,
        after: Seq<B>,
    ) -> (middle: Seq<B>)
        requires
            self.carries_out_all(head + tail, before, after),
        ensures
            self.carries_out_all(head, before, middle),
            self.carries_out_all(tail, middle, after),
        decreases tail.len(),
    {
        if tail.len() == 0 {
            after
        } else {
            assert((head + tail).drop_last() =~= head + tail.drop_last());
            assert((head + tail).last() == tail.last());
            let between = choose|between: Seq<B>|
                self.carries_out_all((head + tail).drop_last(), before, between)
                    && self.carries_out((head + tail).last(), between, after);
            let middle = self.law_run_splits(head, tail.drop_last(), before, between);
            middle
        }
    }

    /// Two runs can be joined: if `head` may turn `before` into `middle` and
    /// `tail` may turn `middle` into `after`, then `head` followed by `tail`
    /// may turn `before` into `after`.
    pub proof fn law_runs_join(
        self,
        head: Seq<Task>,
        tail: Seq<Task>,
        before: Seq<B>,
        middle: Seq<B>,
        after: Seq<B>,
    )
        requires
            self.carries_out_all(head, before, middle),
            self.carries_out_all(tail, middle, after),
        ensures
            self.carries_out_all(head + tail, before, after),
        decreases tail.len(),
    {
        if tail.len() > 0 {
            let between = choose|between: Seq<B>|
                self.carries_out_all(tail.drop_last(), middle, between) && self.carries_out(
                    tail.last(),
                    between,
                    after,
                );
            self.law_runs_join(head, tail.drop_last(), before, middle, between);
            assert((head + tail).drop_last() =~= head + tail.drop_last());
            assert((head + tail).last() == tail.last());
        }
    }
}

} // verus!

//! What holds of the order of work in every frame, proved from the
//! definitions in [`crate::plan`].

use vstd::prelude::*;
use crate::plan::{collisions, collisions_of, frame_plan, substep_plan};
use crate::task::Task;

verus! {

/// Whether `earlier` and `later` are collisions, and the pair of `earlier`
/// comes before the pair of `later` when pairs are ordered by their first
/// blob and then by their second.
pub open spec fn pair_before(earlier: Task, later: Task) -> bool {
    &&& earlier matches Task::Collide(first, second)
    &&& later matches Task::Collide(other_first, other_second)
    &&& (first < other_first || (first == other_first && second < other_second))
}

/// The number of unordered pairs among `count` blobs.
pub open spec fn pair_count(count: nat) -> nat {
    (count * (count - 1) / 2) as nat
}

/// Every task of the collision pass from blob `first` on is a collision
/// between a blob at `first` or behind it and a blob further behind: the
/// blob with the lower index is always the one named first.
pub proof fn law_collisions_are_ascending_pairs(first: usize, count: usize)
    ensures
        forall|k: int|
            0 <= k < collisions(first, count).len() ==> {
                &&& (#[trigger] collisions(first, count)[k]) matches Task::Collide(i, j)
                &&& first <= i < j < count
            },
    decreases count - first,
{
    if first < count {
        law_collisions_are_ascending_pairs((first + 1) as usize, count);
    }
}

/// The collision pass from blob `first` on resolves every pair of blobs
/// whose lower index is `first` or more.
pub proof fn law_collisions_cover_every_pair(first: usize, count: usize, i: usize, j: usize)
    requires
        first <= i < j < count,
    ensures
        collisions(first, count).contains(Task::Collide(i, j)),
    decreases i - first,
{
    let row = collisions_of(first, (first + 1) as usize, count);
    let rest = collisions((first + 1) as usize, count);
    if i == first {
        assert(collisions(first, count)[j - first - 1] == Task::Collide(i, j));
    } else {
        law_collisions_cover_every_pair((first + 1) as usize, count, i, j);
        let k = choose|k: int| 0 <= k < rest.len() && rest[k] == Task::Collide(i, j);
        assert(collisions(first, count)[row.len() + k] == Task::Collide(i, j));
    }
}

/// The collision pass goes through the pairs in ascending order: by the
/// first blob, and for one first blob by the second.
pub proof fn law_collisions_in_order(first: usize, count: usize)
    ensures
        forall|k: int, l: int|
            0 <= k < l < collisions(first, count).len() ==> pair_before(
                #[trigger] collisions(first, count)[k],
                #[trigger] collisions(first, count)[l],
            ),
    decreases count - first,
{
    if first < count {
        law_collisions_in_order((first + 1) as usize, count);
        law_collisions_are_ascending_pairs((first + 1) as usize, count);
    }
}

/// No pair is resolved twice in one collision pass.
pub proof fn law_collisions_once_each(first: usize, count: usize)
    ensures
        collisions(first, count).no_duplicates(),
{
    law_collisions_in_order(first, count);
}

/// The collision pass has one task for each unordered pair of the blobs
/// that it goes through.
pub proof fn law_collisions_len(first: usize, count: usize)
    requires
        first <= count,
    ensures
        collisions(first, count).len() == pair_count((count - first) as nat),
    decreases count - first,
{
    let n = (count - first) as int;
    if first < count {
        law_collisions_len((first + 1) as usize, count);
        assert((n - 1) + ((n - 1) * (n - 2)) / 2 == (n * (n - 1)) / 2 && (n - 1) * (n - 2) >= 0
            && n * (n - 1) >= 0) by (nonlinear_arith)
            requires
                n >= 1,
        ;
    } else {
        assert(n * (n - 1) == 0) by (nonlinear_arith)
            requires
                n == 0,
        ;
    }
}

/// A sub-step has three tasks for every blob and one for every pair of
/// blobs.
pub proof fn law_substep_len(count: usize)
    ensures
        substep_plan(count).len() == 3 * count + pair_count(count as nat),
{
    law_collisions_len(0, count);
}

/// A frame has as many tasks as its sub-steps have together.
pub proof fn law_frame_len(count: usize, substeps: nat)
    ensures
        frame_plan(count, substeps).len() == substeps * substep_plan(count).len(),
    decreases substeps,
{
    if substeps > 0 {
        law_frame_len(count, (substeps - 1) as nat);
        let each = substep_plan(count).len() as int;
        assert(each + (substeps - 1) * each == substeps * each) by (nonlinear_arith);
    } else {
        assert(0 * substep_plan(count).len() == 0) by (nonlinear_arith);
    }
}

/// Every task of a sub-step fits the population that the sub-step was
/// planned for.
pub proof fn law_substep_fits(count: usize)
    ensures
        forall|k: int|
            0 <= k < substep_plan(count).len() ==> (#[trigger] substep_plan(count)[k]).fits(count),
{
    law_collisions_are_ascending_pairs(0, count);
}

/// Every task of a frame fits the population that the frame was planned
/// for.
pub proof fn law_frame_fits(count: usize, substeps: nat)
    ensures
        forall|k: int|
            0 <= k < frame_plan(count, substeps).len() ==> (#[trigger] frame_plan(
                count,
                substeps,
            )[k]).fits(count),
    decreases substeps,
{
    if substeps > 0 {
        law_frame_fits(count, (substeps - 1) as nat);
        law_substep_fits(count);
        let head = substep_plan(count);
        let tail = frame_plan(count, (substeps - 1) as nat);
        assert forall|k: int| 0 <= k < frame_plan(count, substeps).len() implies (
        #[trigger] frame_plan(count, substeps)[k]).fits(count) by {
            if k < head.len() {
                assert(frame_plan(count, substeps)[k] == head[k]);
            } else {
                assert(frame_plan(count, substeps)[k] == tail[k - head.len()]);
            }
        }
    }
}

} // verus!

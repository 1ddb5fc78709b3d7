//! The units of work that make up a frame.

use vstd::prelude::*;

verus! {

/// One unit of work: what is to be done, and to which blob or pair of blobs.
///
/// Blobs are named by their index in the solver's population.
#[derive(Clone, Copy, Debug, PartialEq, Eq, Structural)]
pub enum Task {
    /// Add the gravity to the acceleration that the blob has accumulated.
    Accelerate(usize),
    /// Move the blob back inside the boundary if it has left it.
    Constrain(usize),
    /// Push the two blobs apart if they overlap. The first index names the
    /// blob that resolves the collision, the second the blob it collides with.
    Collide(usize, usize),
    /// Advance the blob's position by one sub-step and clear its acceleration.
    Integrate(usize),
}

impl Task {
    /// Whether the task can be carried out on a population of `count` blobs:
    /// every index names a blob, and a collision names two different blobs,
    /// the one with the lower index first.
    pub open spec fn fits(self, count: usize) -> bool {
        match self {
            Task::Accelerate(blob) => blob < count,
            Task::Constrain(blob) => blob < count,
            Task::Collide(first, second) => first < second < count,
            Task::Integrate(blob) => blob < count,
        }
    }
}

} // verus!

//! A two-dimensional Verlet particle solver, verified up to its arithmetic.
//!
//! A frame of the simulation is a fixed number of sub-steps, and every
//! sub-step sweeps four times over the population of blobs: gravity is added,
//! the blobs are pulled back into the boundary, overlapping pairs are pushed
//! apart, and the positions are integrated.
//!
//! The library owns the blobs and everything around the arithmetic: the
//! order of work in a frame, which values a computation is given, where its
//! result goes, and what stays as it was. It computes no vector itself.
//! Vectors, scalars and colours are the caller's types, and wherever a new
//! vector is needed the caller's function for it is called.

pub mod blob;
pub mod frame;
pub mod kernel;
pub mod laws;
pub mod motion;
pub mod passes;
pub mod plan;
pub mod solver;
pub mod task;

pub use blob::{Blob, Constraint};
pub use frame::Frame;
pub use kernel::Kernel;
pub use solver::{Solver, SolverView};
pub use task::Task;

//! The blobs and the boundary: what they hold, and which of it each
//! operation of a sub-step reads and writes.
//!
//! The library does no arithmetic on positions. Vectors, scalars and colours
//! are the caller's types, and wherever a new vector has to be computed the
//! caller's function for it is called. What the library fixes is everything
//! around the arithmetic: which values a function is given, where its result
//! goes, and what stays as it was.

use vstd::prelude::*;

verus! {

/// A physics object that can be moved around.
#[derive(Clone, Copy, Debug, PartialEq)]
pub struct Blob<Vector, Scalar, Color> {
    /// Where the blob is.
    pub position_current: Vector,
    /// Where the blob was when its position was last integrated. The
    /// difference to `position_current` is the blob's velocity.
    pub position_old: Vector,
    /// The acceleration that the blob has accumulated since its position was
    /// last integrated.
    pub acceleration: Vector,
    /// How the blob is drawn.
    pub color: Color,
    /// The diameter by which the blob collides and is contained.
    pub size: Scalar,
}

/// The circle that holds the blobs.
#[derive(Clone, Copy, Debug, PartialEq)]
pub struct Constraint<Vector, Scalar> {
    /// The centre of the circle.
    pub position: Vector,
    /// The radius of the circle.
    pub radius: Scalar,
}

impl<Vector, Scalar> Constraint<Vector, Scalar> {
    /// The circle around `position` with the given radius.
    pub fn new(position: Vector, radius: Scalar) -> (constraint: Self)
        ensures
            constraint.position == position,
            constraint.radius == radius,
    {
        Constraint { position, radius }
    }
}

impl<Vector: Copy, Scalar: Copy, Color> Blob<Vector, Scalar, Color> {
    /// Whether `after` is `before` with `sum` of the accumulated acceleration
    /// and `acceleration` as the new accumulated acceleration.
    pub open spec fn accelerated<Sum: Fn(Vector, Vector) -> Vector>(
        sum: Sum,
        acceleration: Vector,
        before: Self,
        after: Self,
    ) -> bool {
        &&& call_ensures(sum, (before.acceleration, acceleration), after.acceleration)
        &&& after.position_current == before.position_current
        &&& after.position_old == before.position_old
        &&& after.color == before.color
        &&& after.size == before.size
    }

    /// Whether `after` is `before` moved to where `contain` puts a blob of
    /// its position and size with respect to the boundary.
    pub open spec fn constrained<Contain: Fn(Vector, Scalar, Vector, Scalar) -> Vector>(
        contain: Contain,
        boundary: Constraint<Vector, Scalar>,
        before: Self,
        after: Self,
    ) -> bool {
        &&& call_ensures(
            contain,
            (before.position_current, before.size, boundary.position, boundary.radius),
            after.position_current,
        )
        &&& after.position_old == before.position_old
        &&& after.acceleration == before.acceleration
        &&& after.color == before.color
        &&& after.size == before.size
    }

    /// Whether `first_after` and `second_after` are `first` and `second`
    /// moved to where `part` puts two blobs of their positions and sizes.
    pub open spec fn collided<Part: Fn(Vector, Scalar, Vector, Scalar) -> (Vector, Vector)>(
        part: Part,
        first: Self,
        second: Self,
        first_after: Self,
        second_after: Self,
    ) -> bool {
        &&& call_ensures(
            part,
            (first.position_current, first.size, second.position_current, second.size),
            (first_after.position_current, second_after.position_current),
        )
        &&& first_after.position_old == first.position_old
        &&& first_after.acceleration == first.acceleration
        &&& first_after.color == first.color
        &&& first_after.size == first.size
        &&& second_after.position_old == second.position_old
        &&& second_after.acceleration == second.acceleration
        &&& second_after.color == second.color
        &&& second_after.size == second.size
    }

    /// Whether `after` is `before` one sub-step of length `time` later: it is
    /// where `advance` puts a blob of the position, old position and
    /// acceleration of `before`, its old position is the position of
    /// `before`, and its accumulated acceleration is `rest`.
    pub open spec fn integrated<Advance: Fn(Vector, Vector, Vector, Scalar) -> Vector>(
        advance: Advance,
        time: Scalar,
        rest: Vector,
        before: Self,
        after: Self,
    ) -> bool {
        &&& call_ensures(
            advance,
            (before.position_current, before.position_old, before.acceleration, time),
            after.position_current,
        )
        &&& after.position_old == before.position_current
        &&& after.acceleration == rest
        &&& after.color == before.color
        &&& after.size == before.size
    }

    /// A blob at rest at `position_current`: it has not moved, and its
    /// accumulated acceleration is `rest`, the caller's zero vector.
    pub fn new(position_current: Vector, size: Scalar, color: Color, rest: Vector) -> (blob: Self)
        ensures
            blob.position_current == position_current,
            blob.position_old == position_current,
            blob.acceleration == rest,
            blob.color == color,
            blob.size == size,
    {
        Blob { position_current, position_old: position_current, acceleration: rest, color, size }
    }

    /// Advances the position by one sub-step of length `time` and sets the
    /// accumulated acceleration back to `rest`. `advance` is given the
    /// position, the old position and the acceleration as they were before
    /// any of them is overwritten.
    pub fn update_position<Advance: Fn(Vector, Vector, Vector, Scalar) -> Vector>(
        &mut self,
        advance: &Advance,
        time: Scalar,
        rest: Vector,
    )
        requires
            call_requires(
                *advance,
                (old(self).position_current, old(self).position_old, old(self).acceleration, time),
            ),
        ensures
            Self::integrated(*advance, time, rest, *old(self), *final(self)),
    {
        let moved = advance(self.position_current, self.position_old, self.acceleration, time);
        self.position_old = self.position_current;
        self.position_current = moved;
        self.acceleration = rest;
    }

    /// Adds `acceleration` to what the blob has accumulated. Nothing else
    /// changes.
    pub fn update_acceleration<Sum: Fn(Vector, Vector) -> Vector>(
        &mut self,
        sum: &Sum,
        acceleration: Vector,
    )
        requires
            call_requires(*sum, (old(self).acceleration, acceleration)),
        ensures
            Self::accelerated(*sum, acceleration, *old(self), *final(self)),
    {
        self.acceleration = sum(self.acceleration, acceleration);
    }

    /// Moves the blob to where `contain` puts it with respect to the
    /// boundary. Nothing else changes.
    pub fn update_constraint<Contain: Fn(Vector, Scalar, Vector, Scalar) -> Vector>(
        &mut self,
        contain: &Contain,
        constraints_position: Vector,
        constraints_radius: Scalar,
    )
        requires
            call_requires(
                *contain,
                (old(self).position_current, old(self).size, constraints_position, constraints_radius),
            ),
        ensures
            Self::constrained(
                *contain,
                (Constraint { position: constraints_position, radius: constraints_radius }),
                *old(self),
                *final(self),
            ),
    {
        self.position_current =
        contain(self.position_current, self.size, constraints_position, constraints_radius);
    }

    /// Moves the blob and `other` to where `part` puts the two. Nothing else
    /// changes.
    pub fn update_collision<Part: Fn(Vector, Scalar, Vector, Scalar) -> (Vector, Vector)>(
        &mut self,
        other: &mut Self,
        part: &Part,
    )
        requires
            call_requires(
                *part,
                (
                    old(self).position_current,
                    old(self).size,
                    old(other).position_current,
                    old(other).size,
                ),
            ),
        ensures
            Self::collided(*part, *old(self), *old(other), *final(self), *final(other)),
    {
        let (first, second) = part(
            self.position_current,
            self.size,
            other.position_current,
            other.size,
        );
        self.position_current = first;
        other.position_current = second;
    }
}

} // verus!

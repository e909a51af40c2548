use vstd::prelude::*;
use crate::vec::{Vec3, add_spec, scale_spec, lemma_scale_bound};

verus! {

/// Every ray origin (and every hit point fed back as one) stays within this
/// many raw units per axis.
pub const ORIGIN_MAX: i64 = 0x8000000;

/// Every ray direction stays within this many raw units per axis. Directions
/// are not normalized; the intersection formulas account for their length.
pub const DIR_MAX: i64 = 0x40000000;

/// Ray parameters handed to intersection queries stay within this bound; it
/// also serves as the stand-in for an unbounded upper range.
pub const T_LIMIT: i64 = 0x80000000;

/// A half-line: origin plus a scalar multiple of the direction.
#[derive(Clone, Copy, Debug, PartialEq, Eq, Structural)]
pub struct Ray {
    pub origin: Vec3,
    pub direction: Vec3,
}

/// The point the ray reaches at parameter `t`.
pub open spec fn at_spec(r: Ray, t: int) -> Vec3 {
    add_spec(r.origin_spec(), scale_spec(r.direction_spec(), t))
}

impl Ray {
    pub open spec fn origin_spec(self) -> Vec3 {
        self.origin
    }

    pub open spec fn direction_spec(self) -> Vec3 {
        self.direction
    }

    /// A ray the intersection queries accept: origin and direction in range.
    pub open spec fn wf(self) -> bool {
        &&& self.origin.bounded(ORIGIN_MAX as int)
        &&& self.direction.bounded(DIR_MAX as int)
    }

    pub fn new(origin: Vec3, direction: Vec3) -> (r: Ray)
        ensures
            r.origin_spec() == origin,
            r.direction_spec() == direction,
    {
        Ray { origin, direction }
    }

    pub fn origin(&self) -> (r: Vec3)
        ensures
            r == self.origin_spec(),
    {
        self.origin
    }

    pub fn direction(&self) -> (r: Vec3)
        ensures
            r == self.direction_spec(),
    {
        self.direction
    }

    pub fn at(&self, t: i64) -> (r: Vec3)
        requires
            self.wf(),
            -T_LIMIT <= t <= T_LIMIT,
        ensures
            r == at_spec(*self, t as int),
            r.bounded(0x300000000000),
    {
        proof {
            lemma_scale_bound(self.direction, t as int, DIR_MAX as int, T_LIMIT as int);
        }
        self.origin.add(self.direction.scale(t))
    }
}

} // verus!

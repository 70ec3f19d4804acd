//! Grid positions.

use vstd::prelude::*;
use vstd::std_specs::ops::AddSpecImpl;
use crate::direction::Direction;

verus! {

/// A grid position, or an offset between two grid positions.
#[derive(Clone, Copy, Debug, PartialEq, Eq, Hash, Structural)]
pub struct Vec3 {
    pub x: i32,
    pub y: i32,
    pub z: i32,
}

impl Vec3 {
    pub fn new(x: i32, y: i32, z: i32) -> (v: Vec3)
        ensures
            v == (Vec3 { x, y, z }),
    {
        Vec3 { x, y, z }
    }

    /// Whether the step in direction `dir` stays within the range of `i32`.
    pub open spec fn can_step(self, dir: Direction) -> bool {
        &&& i32::MIN <= self.x + dir.dx() <= i32::MAX
        &&& i32::MIN <= self.y + dir.dy() <= i32::MAX
        &&& i32::MIN <= self.z + dir.dz() <= i32::MAX
    }

    /// The neighbour of `self` in direction `dir`.
    pub open spec fn step(self, dir: Direction) -> Vec3 {
        Vec3 {
            x: (self.x + dir.dx()) as i32,
            y: (self.y + dir.dy()) as i32,
            z: (self.z + dir.dz()) as i32,
        }
    }
}

impl core::ops::Add<Direction> for Vec3 {
    type Output = Vec3;

    fn add(self, rhs: Direction) -> (out: Vec3) {
        let d = rhs.to_vec3();
        Vec3 { x: self.x + d.x, y: self.y + d.y, z: self.z + d.z }
    }
}

impl AddSpecImpl<Direction> for Vec3 {
    open spec fn obeys_add_spec() -> bool {
        true
    }

    open spec fn add_req(self, rhs: Direction) -> bool {
        self.can_step(rhs)
    }

    open spec fn add_spec(self, rhs: Direction) -> Vec3 {
        self.step(rhs)
    }
}

} // verus!

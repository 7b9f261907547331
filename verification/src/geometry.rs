//! Integer grid positions.
use vstd::prelude::*;

verus! {

/// A position on the integer voxel grid.
#[derive(Clone, Copy, Debug, PartialEq, Eq, Hash, Structural)]
pub struct IVec3 {
    pub x: i32,
    pub y: i32,
    pub z: i32,
}

impl IVec3 {
    pub fn new(x: i32, y: i32, z: i32) -> (v: Self)
        ensures
            v.x == x,
            v.y == y,
            v.z == z,
    {
        IVec3 { x, y, z }
    }

    /// Component-wise sum.
    pub fn offset(self, d: IVec3) -> (v: Self)
        requires
            i32::MIN <= self.x + d.x <= i32::MAX,
            i32::MIN <= self.y + d.y <= i32::MAX,
            i32::MIN <= self.z + d.z <= i32::MAX,
        ensures
            v.x == self.x + d.x,
            v.y == self.y + d.y,
            v.z == self.z + d.z,
    {
        IVec3 { x: self.x + d.x, y: self.y + d.y, z: self.z + d.z }
    }
}

} // verus!

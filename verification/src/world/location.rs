use vstd::prelude::*;

verus! {

/// The position of a block in the world.
#[derive(Clone, Copy, PartialEq, Eq, Structural, Hash, Debug)]
pub struct BlockPosition {
    pub x: i32,
    pub y: i16,
    pub z: i32,
}

/// A pair of horizontal coordinates, such as those of a chunk.
#[derive(Clone, Copy, PartialEq, Eq, Structural, Hash, Debug)]
pub struct CoordinatePair {
    pub x: i32,
    pub z: i32,
}

impl CoordinatePair {
    /// Both coordinates multiplied by `factor`.
    pub fn scaled_up(&self, factor: i32) -> (r: Self)
        requires
            i32::MIN <= self.x * factor <= i32::MAX,
            i32::MIN <= self.z * factor <= i32::MAX,
        ensures
            r.x == self.x * factor,
            r.z == self.z * factor,
    {
        CoordinatePair { x: self.x * factor, z: self.z * factor }
    }
}

} // verus!

use vstd::prelude::*;

verus! {

/// A corner of the unit cube that each voxel is drawn from.
#[derive(Clone, Copy, Debug)]
pub struct Vertex {
    pub position: [i32; 3],
}

impl Vertex {
    pub fn new(x: i32, y: i32, z: i32) -> (v: Self)
        ensures
            v.position@ == seq![x, y, z],
    {
        Self { position: [x, y, z] }
    }
}

} // verus!

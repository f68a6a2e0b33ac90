use vstd::prelude::*;

verus! {

/// A corner of the unit face quad that every face instance is drawn from.
#[derive(Clone, Copy, Debug)]
pub struct Vertex {
    pub v_pos: [i32; 3],
}

/// One face instance: its packed `InstanceData`.
#[derive(Clone, Copy, Debug, PartialEq, Eq, Structural)]
pub struct Instance {
    pub data: u32,
}

impl Vertex {
    pub fn new(v_pos: [i32; 3]) -> (v: Self)
        ensures
            v.v_pos == v_pos,
    {
        Self { v_pos }
    }
}

} // verus!

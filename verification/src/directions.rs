use vstd::prelude::*;

verus! {

/// One of the three axes of the voxel grid.
#[derive(Clone, Copy, Debug, PartialEq, Eq, Structural)]
pub enum Axis {
    X,
    Y,
    Z,
}

/// One of the six face directions of a voxel.
#[derive(Clone, Copy, Debug, PartialEq, Eq, Structural)]
pub enum Dir {
    Left,
    Right,
    Up,
    Down,
    Forward,
    Backward,
}

/// The index of an axis: X is 0, Y is 1, Z is 2.
pub open spec fn axis_index(axis: Axis) -> nat {
    match axis {
        Axis::X => 0,
        Axis::Y => 1,
        Axis::Z => 2,
    }
}

/// The index of a direction, in the order Left, Right, Up, Down, Forward, Backward.
pub open spec fn dir_index(dir: Dir) -> nat {
    match dir {
        Dir::Left => 0,
        Dir::Right => 1,
        Dir::Up => 2,
        Dir::Down => 3,
        Dir::Forward => 4,
        Dir::Backward => 5,
    }
}

/// The direction with the given index; meaningful for indices below six.
pub open spec fn dir_of_index(i: nat) -> Dir {
    if i == 0 {
        Dir::Left
    } else if i == 1 {
        Dir::Right
    } else if i == 2 {
        Dir::Up
    } else if i == 3 {
        Dir::Down
    } else if i == 4 {
        Dir::Forward
    } else {
        Dir::Backward
    }
}

/// The axis a direction points along.
pub open spec fn dir_axis(dir: Dir) -> Axis {
    match dir {
        Dir::Forward | Dir::Backward => Axis::Z,
        Dir::Left | Dir::Right => Axis::X,
        Dir::Up | Dir::Down => Axis::Y,
    }
}

impl Axis {
    /// All three axes, in index order.
    pub fn all() -> (axes: [Axis; 3])
        ensures
            forall|i: int| 0 <= i < 3 ==> axis_index(#[trigger] axes@[i]) == i,
    {
        [Axis::X, Axis::Y, Axis::Z]
    }

    /// The index of this axis.
    pub fn index(self) -> (i: usize)
        ensures
            i == axis_index(self),
    {
        match self {
            Axis::X => 0,
            Axis::Y => 1,
            Axis::Z => 2,
        }
    }

    /// The axis that a direction lies along.
    pub fn from_dir(dir: Dir) -> (axis: Axis)
        ensures
            axis == dir_axis(dir),
    {
        match dir {
            Dir::Forward | Dir::Backward => Axis::Z,
            Dir::Left | Dir::Right => Axis::X,
            Dir::Up | Dir::Down => Axis::Y,
        }
    }
}

impl Dir {
    /// All six directions, in index order.
    pub fn all() -> (dirs: [Dir; 6])
        ensures
            forall|i: int| 0 <= i < 6 ==> dir_index(#[trigger] dirs@[i]) == i,
    {
        [Dir::Left, Dir::Right, Dir::Up, Dir::Down, Dir::Forward, Dir::Backward]
    }

    /// The index of this direction.
    pub fn index(self) -> (i: usize)
        ensures
            i == dir_index(self),
    {
        match self {
            Dir::Left => 0,
            Dir::Right => 1,
            Dir::Up => 2,
            Dir::Down => 3,
            Dir::Forward => 4,
            Dir::Backward => 5,
        }
    }

    /// The direction with index `i`.
    pub fn from_index(i: usize) -> (dir: Dir)
        requires
            i < 6,
        ensures
            dir == dir_of_index(i as nat),
            dir_index(dir) == i,
    {
        match i {
            0 => Dir::Left,
            1 => Dir::Right,
            2 => Dir::Up,
            3 => Dir::Down,
            4 => Dir::Forward,
            _ => Dir::Backward,
        }
    }
}

/// Indexing the directions and reading an index back are inverse to one another.
pub proof fn lemma_dir_index_roundtrip(dir: Dir, i: nat)
    ensures
        dir_of_index(dir_index(dir)) == dir,
        i < 6 ==> dir_index(dir_of_index(i)) == i,
{
}

impl From<Dir> for Axis {
    fn from(dir: Dir) -> (axis: Axis) {
        Axis::from_dir(dir)
    }
}

impl vstd::std_specs::convert::FromSpecImpl<Dir> for Axis {
    open spec fn obeys_from_spec() -> bool {
        true
    }

    open spec fn from_spec(dir: Dir) -> Axis {
        dir_axis(dir)
    }
}

impl From<Dir> for usize {
    fn from(dir: Dir) -> (i: usize) {
        dir.index()
    }
}

impl vstd::std_specs::convert::FromSpecImpl<Dir> for usize {
    open spec fn obeys_from_spec() -> bool {
        true
    }

    open spec fn from_spec(dir: Dir) -> usize {
        dir_index(dir) as usize
    }
}

impl From<Axis> for usize {
    fn from(axis: Axis) -> (i: usize) {
        axis.index()
    }
}

impl vstd::std_specs::convert::FromSpecImpl<Axis> for usize {
    open spec fn obeys_from_spec() -> bool {
        true
    }

    open spec fn from_spec(axis: Axis) -> usize {
        axis_index(axis) as usize
    }
}

} // verus!

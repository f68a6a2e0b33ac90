use vstd::prelude::*;

verus! {

/// A point of the integer voxel grid.
#[derive(Clone, Copy, Debug, PartialEq, Eq, Hash, Structural)]
pub struct IVec3 {
    pub x: i32,
    pub y: i32,
    pub z: i32,
}

impl IVec3 {
    pub fn new(x: i32, y: i32, z: i32) -> (v: IVec3)
        ensures
            v == (IVec3 { x, y, z }),
    {
        IVec3 { x, y, z }
    }
}

/// The chunk coordinate of a global coordinate: the quotient by 30, rounded towards zero,
/// one lower for negative coordinates.
pub open spec fn chunk_coord(v: int) -> int {
    if v >= 0 {
        v / 30
    } else {
        -((-v) / 30) - 1
    }
}

/// The coordinate inside its chunk of a global coordinate: the remainder by 30, mirrored
/// (counted from 29 down) for negative coordinates.
pub open spec fn in_chunk_coord(v: int) -> int {
    if v >= 0 {
        v % 30
    } else {
        29 - (-v) % 30
    }
}

/// The global coordinate of a chunk coordinate and a coordinate inside it: negative chunks
/// are laid out one voxel further up, as the mirrored inner coordinate asks.
pub open spec fn global_coord(chunk: int, inner: int) -> int {
    if chunk >= 0 {
        chunk * 30 + inner
    } else {
        chunk * 30 + inner + 1
    }
}

fn separate(v: i32) -> (r: (i32, i32))
    requires
        v > i32::MIN,
    ensures
        r.0 == chunk_coord(v as int),
        r.1 == in_chunk_coord(v as int),
        0 <= r.1 < 30,
        global_coord(r.0 as int, r.1 as int) == v,
{
    if v >= 0 {
        (v / 30, v % 30)
    } else {
        let a = -v;
        let q = a / 30;
        let rem = a % 30;
        (-q - 1, 29 - rem)
    }
}

/// Splits a global position into the position of its chunk and its position inside the
/// chunk, axis by axis (see `chunk_coord` and `in_chunk_coord`). The inner position is
/// inside the chunk, and the two give the global position back (`global_coord`).
pub fn seperate_global_pos(pos: &IVec3) -> (r: (IVec3, IVec3))
    requires
        pos.x > i32::MIN,
        pos.y > i32::MIN,
        pos.z > i32::MIN,
    ensures
        r.0.x == chunk_coord(pos.x as int),
        r.0.y == chunk_coord(pos.y as int),
        r.0.z == chunk_coord(pos.z as int),
        r.1.x == in_chunk_coord(pos.x as int),
        r.1.y == in_chunk_coord(pos.y as int),
        r.1.z == in_chunk_coord(pos.z as int),
        0 <= r.1.x < 30 && 0 <= r.1.y < 30 && 0 <= r.1.z < 30,
        global_coord(r.0.x as int, r.1.x as int) == pos.x,
        global_coord(r.0.y as int, r.1.y as int) == pos.y,
        global_coord(r.0.z as int, r.1.z as int) == pos.z,
{
    let (cx, ix) = separate(pos.x);
    let (cy, iy) = separate(pos.y);
    let (cz, iz) = separate(pos.z);
    (IVec3 { x: cx, y: cy, z: cz }, IVec3 { x: ix, y: iy, z: iz })
}

/// Two global coordinates with the same chunk and inner coordinates are the same: a global
/// coordinate belongs to exactly one place of one chunk.
pub proof fn lemma_separation_injective(a: int, b: int)
    requires
        chunk_coord(a) == chunk_coord(b),
        in_chunk_coord(a) == in_chunk_coord(b),
    ensures
        a == b,
{
}

/// Placing an inner coordinate in its chunk and separating it again gives them back,
/// wherever the pair is one that separation yields (for negative chunks the inner coordinate
/// 29 of chunk -1 is not: it is where 0 would lie).
pub proof fn lemma_separation_roundtrip(chunk: int, inner: int)
    requires
        0 <= inner < 30,
        !(chunk == -1 && inner == 29),
    ensures
        chunk_coord(global_coord(chunk, inner)) == chunk,
        in_chunk_coord(global_coord(chunk, inner)) == inner,
{
    let g = global_coord(chunk, inner);
    if chunk >= 0 {
        assert((chunk * 30 + inner) / 30 == chunk) by (nonlinear_arith)
            requires
                0 <= inner < 30,
                chunk >= 0,
        ;
        assert((chunk * 30 + inner) % 30 == inner) by (nonlinear_arith)
            requires
                0 <= inner < 30,
                chunk >= 0,
        ;
    } else {
        let n = -chunk - 1;
        assert(-g == n * 30 + (29 - inner)) by (nonlinear_arith)
            requires
                n == -chunk - 1,
                g == chunk * 30 + inner + 1,
        ;
        assert((n * 30 + (29 - inner)) / 30 == n) by (nonlinear_arith)
            requires
                0 <= inner < 30,
                n >= 0,
        ;
        assert((n * 30 + (29 - inner)) % 30 == 29 - inner) by (nonlinear_arith)
            requires
                0 <= inner < 30,
                n >= 0,
        ;
    }
}

} // verus!

use vstd::prelude::*;

use crate::block::{block_code, block_of_code, BlockType};
use crate::directions::{dir_index, dir_of_index, Dir};

verus! {

/// The side length of a chunk, in voxels.
pub const CHUNK_SIZE_U8: u8 = 30;

/// One face of a mesh, packed into a single integer: position (5 bits per coordinate),
/// direction (3 bits), width and height less one (5 bits each) and block type (4 bits).
#[derive(Clone, Copy, Debug, PartialEq, Eq, Structural)]
pub struct InstanceData(pub u32);

/// The bits of `v` from `shift` upwards, under `mask`.
pub open spec fn bits(v: u32, shift: u32, mask: u32) -> u32 {
    (v >> shift) & mask
}

/// The packed form of a face, as `InstanceData::new` lays it out.
pub open spec fn pack(x: u32, y: u32, z: u32, d: u32, w: u32, h: u32, b: u32) -> u32 {
    ((x & 31) << 10) | ((y & 31) << 5) | (z & 31) | ((d & 7) << 15) | ((w & 31) << 18) | ((h
        & 31) << 23) | (b << 28)
}

impl InstanceData {
    /// The x coordinate field.
    pub open spec fn x_of(self) -> u32 {
        bits(self.0, 10, 31)
    }

    /// The y coordinate field.
    pub open spec fn y_of(self) -> u32 {
        bits(self.0, 5, 31)
    }

    /// The z coordinate field.
    pub open spec fn z_of(self) -> u32 {
        bits(self.0, 0, 31)
    }

    /// The direction field.
    pub open spec fn dir_of(self) -> u32 {
        bits(self.0, 15, 7)
    }

    /// The width field (the width less one).
    pub open spec fn width_of(self) -> u32 {
        bits(self.0, 18, 31)
    }

    /// The height field (the height less one).
    pub open spec fn height_of(self) -> u32 {
        bits(self.0, 23, 31)
    }

    /// The block type field.
    pub open spec fn block_of(self) -> u32 {
        self.0 >> 28
    }

    /// Whether every field of the face holds a value that `new` accepts and that the
    /// getters can decode.
    pub open spec fn is_valid(self) -> bool {
        &&& self.x_of() < 30
        &&& self.y_of() < 30
        &&& self.z_of() < 30
        &&& self.dir_of() < 6
        &&& self.width_of() < 30
        &&& self.height_of() < 30
        &&& self.block_of() < 4
    }

    /// Packs a face. Every coordinate and the width and height must be below the chunk size.
    pub fn new(
        x: u8,
        y: u8,
        z: u8,
        direction: Dir,
        width: u8,
        height: u8,
        block_type: BlockType,
    ) -> (r: Self)
        requires
            x < 30,
            y < 30,
            z < 30,
            width < 30,
            height < 30,
        ensures
            r.0 == pack(
                x as u32,
                y as u32,
                z as u32,
                dir_index(direction) as u32,
                width as u32,
                height as u32,
                block_code(block_type),
            ),
            r.x_of() == x,
            r.y_of() == y,
            r.z_of() == z,
            r.dir_of() == dir_index(direction),
            r.width_of() == width,
            r.height_of() == height,
            r.block_of() == block_code(block_type) & 15,
            block_type != BlockType::Invalid ==> r.is_valid(),
    {
        let x = x as u32;
        let y = y as u32;
        let z = z as u32;
        let d = direction.index() as u32;
        let width = width as u32;
        let height = height as u32;

        let x_mask = (x & 0b11111) << 10;
        let y_mask = (y & 0b11111) << 5;
        let z_mask = z & 0b11111;
        let d_mask = (d & 0b111) << 15;
        let w_mask = (width & 0b11111) << 18;
        let h_mask = (height & 0b11111) << 23;

        let block_type: u32 = block_type.code();
        let block_type_mask = block_type << 28;

        let v = x_mask | y_mask | z_mask | d_mask | w_mask | h_mask | block_type_mask;
        proof {
            lemma_pack_fields(x, y, z, d, width, height, block_type);
            if block_type < 4 {
                assert(block_type & 15 == block_type) by (bit_vector)
                    requires
                        block_type < 4,
                ;
            }
        }
        Self(v)
    }

    /// The packed integer.
    pub fn as_int(&self) -> (r: u32)
        ensures
            r == self.0,
    {
        self.0
    }

    pub fn x(&self) -> (r: u8)
        ensures
            r == self.x_of(),
    {
        proof {
            lemma_field_bound(self.0, 10, 31);
        }
        ((self.0 >> 10) & 0b11111) as u8
    }

    pub fn y(&self) -> (r: u8)
        ensures
            r == self.y_of(),
    {
        proof {
            lemma_field_bound(self.0, 5, 31);
        }
        ((self.0 >> 5) & 0b11111) as u8
    }

    pub fn z(&self) -> (r: u8)
        ensures
            r == self.z_of(),
    {
        proof {
            lemma_field_bound(self.0, 0, 31);
            let u = self.0;
            assert(u >> 0 == u) by (bit_vector);
        }
        (self.0 & 0b11111) as u8
    }

    /// The direction; the direction field must name one of the six directions.
    pub fn dir(&self) -> (r: Dir)
        requires
            self.dir_of() < 6,
        ensures
            r == dir_of_index(self.dir_of() as nat),
            dir_index(r) == self.dir_of(),
    {
        Dir::from_index(((self.0 >> 15) & 0b111) as usize)
    }

    pub fn width(&self) -> (r: u8)
        ensures
            r == self.width_of(),
    {
        proof {
            lemma_field_bound(self.0, 18, 31);
        }
        ((self.0 >> 18) & 0b11111) as u8
    }

    pub fn height(&self) -> (r: u8)
        ensures
            r == self.height_of(),
    {
        proof {
            lemma_field_bound(self.0, 23, 31);
        }
        ((self.0 >> 23) & 0b11111) as u8
    }

    /// The block type; the block field must encode one (the invalid marker does not fit in
    /// four bits, so it never decodes).
    pub fn block_type(&self) -> (r: BlockType)
        requires
            self.block_of() < 4,
        ensures
            Some(r) == block_of_code(self.block_of()),
    {
        match BlockType::from_code(self.0 >> 28) {
            Ok(b) => b,
            Err(_) => BlockType::Air,
        }
    }

    /// Swaps the coordinates so that the face's depth axis lands on the z field: up and
    /// down swap y and z, left and right swap x and z, forward and backward keep them.
    pub fn rotate_on_dir(&self) -> (r: Self)
        requires
            self.is_valid(),
        ensures
            r == rotated(*self),
            r.is_valid(),
    {
        let x = self.x();
        let y = self.y();
        let z = self.z();
        let dir = self.dir();
        let width = self.width();
        let height = self.height();
        let block_type = self.block_type();
        proof {
            lemma_block_field(self.block_of(), block_type);
            lemma_rotate_involution(*self);
        }
        match dir {
            Dir::Up | Dir::Down => Self::new(x, z, y, dir, width, height, block_type),
            Dir::Forward | Dir::Backward => Self::new(x, y, z, dir, width, height, block_type),
            Dir::Left | Dir::Right => Self::new(z, y, x, dir, width, height, block_type),
        }
    }
}

impl From<u32> for InstanceData {
    fn from(data: u32) -> (r: Self) {
        Self(data)
    }
}

impl vstd::std_specs::convert::FromSpecImpl<u32> for InstanceData {
    open spec fn obeys_from_spec() -> bool {
        true
    }

    open spec fn from_spec(v: u32) -> InstanceData {
        InstanceData(v)
    }
}

impl From<InstanceData> for u32 {
    fn from(data: InstanceData) -> (r: u32) {
        data.0
    }
}

impl vstd::std_specs::convert::FromSpecImpl<InstanceData> for u32 {
    open spec fn obeys_from_spec() -> bool {
        true
    }

    open spec fn from_spec(v: InstanceData) -> u32 {
        v.0
    }
}

proof fn lemma_field_bound(v: u32, shift: u32, mask: u32)
    requires
        shift < 32,
        mask == 31 || mask == 7,
    ensures
        (v >> shift) & mask <= mask,
{
    assert((v >> shift) & mask <= mask) by (bit_vector);
}

proof fn lemma_block_field(f: u32, b: BlockType)
    requires
        f < 4,
        Some(b) == block_of_code(f),
    ensures
        b != BlockType::Invalid,
        block_code(b) & 15 == f,
{
    assert(f & 15 == f) by (bit_vector)
        requires
            f < 4,
    ;
}

/// Every field that `pack` writes is read back unchanged.
pub proof fn lemma_pack_fields(x: u32, y: u32, z: u32, d: u32, w: u32, h: u32, b: u32)
    by (bit_vector)
    requires
        x < 32,
        y < 32,
        z < 32,
        d < 8,
        w < 32,
        h < 32,
    ensures
        bits(pack(x, y, z, d, w, h, b), 10, 31) == x,
        bits(pack(x, y, z, d, w, h, b), 5, 31) == y,
        bits(pack(x, y, z, d, w, h, b), 0, 31) == z,
        bits(pack(x, y, z, d, w, h, b), 15, 7) == d,
        bits(pack(x, y, z, d, w, h, b), 18, 31) == w,
        bits(pack(x, y, z, d, w, h, b), 23, 31) == h,
        pack(x, y, z, d, w, h, b) >> 28 == b & 15,
{
}

/// Reading the fields of a packed face and packing them again gives the same face.
pub proof fn lemma_unpack_pack(v: InstanceData)
    ensures
        pack(v.x_of(), v.y_of(), v.z_of(), v.dir_of(), v.width_of(), v.height_of(), v.block_of())
            == v.0,
{
    let u = v.0;
    assert((((((u >> 10) & 31) & 31) << 10) | ((((u >> 5) & 31) & 31) << 5) | (((u >> 0) & 31)
        & 31) | ((((u >> 15) & 7) & 7) << 15) | ((((u >> 18) & 31) & 31) << 18) | ((((u >> 23)
        & 31) & 31) << 23) | ((u >> 28) << 28)) == u) by (bit_vector);
}

/// A valid face, rotated as `rotate_on_dir` rotates it.
pub open spec fn rotated(v: InstanceData) -> InstanceData {
    let (x, y, z) = if v.dir_of() == 2 || v.dir_of() == 3 {
        (v.x_of(), v.z_of(), v.y_of())
    } else if v.dir_of() == 0 || v.dir_of() == 1 {
        (v.z_of(), v.y_of(), v.x_of())
    } else {
        (v.x_of(), v.y_of(), v.z_of())
    };
    InstanceData(pack(x, y, z, v.dir_of(), v.width_of(), v.height_of(), v.block_of()))
}

/// Rotating a valid face twice gives the face back: a rotation swaps two coordinates, or
/// none, by the direction, and keeps the direction.
pub proof fn lemma_rotate_involution(v: InstanceData)
    requires
        v.is_valid(),
    ensures
        rotated(v).is_valid(),
        rotated(rotated(v)) == v,
{
    let r = rotated(v);
    lemma_pack_fields(v.x_of(), v.z_of(), v.y_of(), v.dir_of(), v.width_of(), v.height_of(), v.block_of());
    lemma_pack_fields(v.z_of(), v.y_of(), v.x_of(), v.dir_of(), v.width_of(), v.height_of(), v.block_of());
    lemma_pack_fields(v.x_of(), v.y_of(), v.z_of(), v.dir_of(), v.width_of(), v.height_of(), v.block_of());
    lemma_small_mask(v.block_of());
    lemma_unpack_pack(v);
}

proof fn lemma_small_mask(b: u32)
    requires
        b < 4,
    ensures
        b & 15 == b,
{
    assert(b & 15 == b) by (bit_vector)
        requires
            b < 4,
    ;
}

} // verus!

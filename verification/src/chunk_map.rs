use vstd::prelude::*;

use dashmap::DashMap;
use std::collections::hash_map::RandomState;

use crate::block::{BasicVoxel, BlockType};
use crate::chunk::{chunk_after_set, chunk_updated, neighbour_edits, neighbours_in_range, update_fits, Chunk};
use crate::position::{chunk_coord, in_chunk_coord, lemma_separation_injective, seperate_global_pos, IVec3};
use crate::svt64_tree::{voxel_get, voxel_keys, voxel_map};
use crate::voxel_data::{data_after_set, in_chunk, mask_after_set, with_bit};
use crate::bits::{bit_set, lemma_bit_clear, lemma_bit_or};
use crate::block::block_is_solid;
use crate::meshing::{voxel_type, AxisDepths, VoxelArray};

verus! {

/// The chunks that a chunk map holds, by chunk position. The map can be written through a
/// shared reference, so what is said of it holds while no other thread writes it; the library
/// writes it only through `&mut`.
pub uninterp spec fn chunk_map(m: DashMap<(i32, i32, i32), Chunk, RandomState>) -> Map<(i32, i32, i32), Chunk>;

/// `DashMap::get`, copying out the voxels of the chunk at `p`, if there is one.
#[verifier::external_body]
fn chunk_voxels(chunks: &DashMap<(i32, i32, i32), Chunk, RandomState>, p: (i32, i32, i32)) -> (r: Option<Box<VoxelArray>>)
    ensures
        r == (if chunk_map(*chunks).dom().contains(p) {
            Some(chunk_map(*chunks)[p].voxels.voxels)
        } else {
            None
        }),
{
    match chunks.get(&p) {
        Some(c) => Some(c.voxels.voxels.clone()),
        None => None,
    }
}

/// `DashMap::view` with `Chunk::get`: the block type at `(x, y, z)` of the chunk at `p`, if
/// there is one.
#[verifier::external_body]
fn chunk_block(chunks: &DashMap<(i32, i32, i32), Chunk, RandomState>, p: (i32, i32, i32), x: usize, y: usize, z: usize) -> (r: Option<BlockType>)
    requires
        x < 30,
        y < 30,
        z < 30,
    ensures
        r == (if chunk_map(*chunks).dom().contains(p) {
            Some(voxel_type(*chunk_map(*chunks)[p].voxels.voxels, x as int, y as int, z as int))
        } else {
            None
        }),
{
    chunks.view(&p, |_, c| c.get(x, y, z))
}

/// `DashMap::iter`, keeping the keys: every chunk position of the map once, in the order the
/// map is walked. That order rests on the map's hasher and is not stated.
#[verifier::external_body]
fn chunk_keys(chunks: &DashMap<(i32, i32, i32), Chunk, RandomState>) -> (r: Vec<(i32, i32, i32)>)
    ensures
        r@.to_set() == chunk_map(*chunks).dom(),
        r@.no_duplicates(),
{
    chunks.iter().map(|e| *e.key()).collect()
}

/// `DashMap::remove`, keeping the value: takes the chunk at `p` out of the map, if there is
/// one.
#[verifier::external_body]
fn chunk_take(chunks: &mut DashMap<(i32, i32, i32), Chunk, RandomState>, p: (i32, i32, i32)) -> (r: Option<Chunk>)
    ensures
        r == (if chunk_map(*old(chunks)).dom().contains(p) {
            Some(chunk_map(*old(chunks))[p])
        } else {
            None
        }),
        chunk_map(*final(chunks)) == chunk_map(*old(chunks)).remove(p),
{
    chunks.remove(&p).map(|(_, c)| c)
}

/// `DashMap::insert`: puts chunk `c` at `p`, in place of any chunk there.
#[verifier::external_body]
fn chunk_put(chunks: &mut DashMap<(i32, i32, i32), Chunk, RandomState>, p: (i32, i32, i32), c: Chunk)
    ensures
        chunk_map(*final(chunks)) == chunk_map(*old(chunks)).insert(p, c),
{
    let _ = chunks.insert(p, c);
}

/// Every voxel of `v` is air.
pub open spec fn all_air(v: VoxelArray) -> bool {
    forall|x: int, y: int, z: int|
        0 <= x < 30 && 0 <= y < 30 && 0 <= z < 30 ==> #[trigger] v@[x]@[y]@[z] == (BasicVoxel { block_type: BlockType::Air })
}

/// The array of air voxels.
pub open spec fn air_voxels() -> VoxelArray {
    choose|v: VoxelArray| all_air(v)
}

proof fn lemma_air_unique(a: VoxelArray, b: VoxelArray)
    requires
        all_air(a),
        all_air(b),
    ensures
        a == b,
{
    assert forall|x: int| 0 <= x < 30 implies a[x] == b[x] by {
        assert forall|y: int| 0 <= y < 30 implies a[x][y] == b[x][y] by {
            assert(a[x][y] =~= b[x][y]);
        }
        assert(a[x] =~= b[x]);
    }
    assert(a =~= b);
}

fn air_array() -> (v: Box<VoxelArray>)
    ensures
        *v == air_voxels(),
{
    let v = crate::chunk::filled_array(BlockType::Air);
    proof {
        assert(all_air(*v));
        lemma_air_unique(*v, air_voxels());
    }
    v
}

/// The voxels beside a chunk on the side at chunk position `p`: those of the chunk there,
/// or air where there is none.
pub open spec fn side_voxels(m: Map<(i32, i32, i32), Chunk>, p: (i32, i32, i32)) -> VoxelArray {
    if m.dom().contains(p) {
        *m[p].voxels.voxels
    } else {
        air_voxels()
    }
}

/// The voxels of the six chunks beside a chunk, one per side.
pub struct Neighbours {
    pub x_pos: Box<VoxelArray>,
    pub y_pos: Box<VoxelArray>,
    pub z_pos: Box<VoxelArray>,
    pub x_neg: Box<VoxelArray>,
    pub y_neg: Box<VoxelArray>,
    pub z_neg: Box<VoxelArray>,
}

/// A chunk position whose six neighbours' positions are all `i32`s.
pub open spec fn inner_key(p: (i32, i32, i32)) -> bool {
    &&& i32::MIN < p.0 < i32::MAX
    &&& i32::MIN < p.1 < i32::MAX
    &&& i32::MIN < p.2 < i32::MAX
}

/// `n` holds, on each side of the chunk at `p`, the voxels that `m` has there.
pub open spec fn neighbours_of(m: Map<(i32, i32, i32), Chunk>, p: (i32, i32, i32), n: Neighbours) -> bool {
    &&& *n.x_pos == side_voxels(m, ((p.0 + 1) as i32, p.1, p.2))
    &&& *n.y_pos == side_voxels(m, (p.0, (p.1 + 1) as i32, p.2))
    &&& *n.z_pos == side_voxels(m, (p.0, p.1, (p.2 + 1) as i32))
    &&& *n.x_neg == side_voxels(m, ((p.0 - 1) as i32, p.1, p.2))
    &&& *n.y_neg == side_voxels(m, (p.0, (p.1 - 1) as i32, p.2))
    &&& *n.z_neg == side_voxels(m, (p.0, p.1, (p.2 - 1) as i32))
}

fn side(chunks: &DashMap<(i32, i32, i32), Chunk, RandomState>, p: (i32, i32, i32)) -> (v: Box<VoxelArray>)
    ensures
        *v == side_voxels(chunk_map(*chunks), p),
{
    match chunk_voxels(chunks, p) {
        Some(v) => v,
        None => air_array(),
    }
}

/// The voxels of the six chunks beside the chunk at `pos`, air where a chunk is missing.
pub fn neighbours(chunks: &DashMap<(i32, i32, i32), Chunk, RandomState>, pos: (i32, i32, i32)) -> (n: Neighbours)
    requires
        inner_key(pos),
    ensures
        neighbours_of(chunk_map(*chunks), pos, n),
{
    let (x, y, z) = pos;
    Neighbours {
        x_pos: side(chunks, (x + 1, y, z)),
        y_pos: side(chunks, (x, y + 1, z)),
        z_pos: side(chunks, (x, y, z + 1)),
        x_neg: side(chunks, (x - 1, y, z)),
        y_neg: side(chunks, (x, y - 1, z)),
        z_neg: side(chunks, (x, y, z - 1)),
    }
}

/// The chunk position one step from `p`.
pub open spec fn step(p: (i32, i32, i32), dx: int, dy: int, dz: int) -> (i32, i32, i32) {
    ((p.0 + dx) as i32, (p.1 + dy) as i32, (p.2 + dz) as i32)
}

/// Every chunk of `m` lies inside the `i32` range with its neighbours, and `update` can mesh
/// it with them.
pub open spec fn map_can_mesh(m: Map<(i32, i32, i32), Chunk>) -> bool {
    forall|p: (i32, i32, i32)| #[trigger] m.dom().contains(p) ==> inner_key(p) && update_fits(
        m[p],
        &side_voxels(m, step(p, 1, 0, 0)),
        &side_voxels(m, step(p, 0, 1, 0)),
        &side_voxels(m, step(p, 0, 0, 1)),
        &side_voxels(m, step(p, -1, 0, 0)),
        &side_voxels(m, step(p, 0, -1, 0)),
        &side_voxels(m, step(p, 0, 0, -1)),
    )
}

/// Chunk `c` is the chunk at `p` of `m` after `update` with its neighbours in `m`.
pub open spec fn meshed_in(m: Map<(i32, i32, i32), Chunk>, p: (i32, i32, i32), c: Chunk) -> bool {
    chunk_updated(
        m[p],
        c,
        &side_voxels(m, step(p, 1, 0, 0)),
        &side_voxels(m, step(p, 0, 1, 0)),
        &side_voxels(m, step(p, 0, 0, 1)),
        &side_voxels(m, step(p, -1, 0, 0)),
        &side_voxels(m, step(p, 0, -1, 0)),
        &side_voxels(m, step(p, 0, 0, -1)),
    )
}

/// Map `b` is map `a` with every chunk updated against its neighbours in `a`.
pub open spec fn map_meshed(a: Map<(i32, i32, i32), Chunk>, b: Map<(i32, i32, i32), Chunk>) -> bool {
    &&& b.dom() == a.dom()
    &&& forall|p: (i32, i32, i32)| #[trigger] a.dom().contains(p) ==> meshed_in(a, p, b[p])
}

/// Meshes again every chunk of the map that must be, each against the voxels of its six
/// neighbours (air where one is missing); gives whether any chunk was meshed.
pub fn mesh_chunks(chunks: &mut DashMap<(i32, i32, i32), Chunk, RandomState>) -> (any: bool)
    requires
        map_can_mesh(chunk_map(*old(chunks))),
    ensures
        map_meshed(chunk_map(*old(chunks)), chunk_map(*final(chunks))),
        any == exists|p: (i32, i32, i32)| #[trigger] chunk_map(*old(chunks)).dom().contains(p) && chunk_map(*old(chunks))[p].needs_update,
{
    let ghost a = chunk_map(*chunks);
    let keys = chunk_keys(chunks);
    let n = keys.len();
    let mut any = false;
    let mut i: usize = 0;
    while i < n
        invariant
            n == keys@.len(),
            i <= n,
            keys@.to_set() == a.dom(),
            keys@.no_duplicates(),
            map_can_mesh(a),
            chunk_map(*chunks).dom() == a.dom(),
            forall|p: (i32, i32, i32)| #[trigger] a.dom().contains(p) ==> chunk_map(*chunks)[p].voxels.voxels == a[p].voxels.voxels,
            forall|j: int| 0 <= j < i ==> meshed_in(a, keys@[j], #[trigger] chunk_map(*chunks)[keys@[j]]),
            forall|j: int| i <= j < n ==> #[trigger] chunk_map(*chunks)[keys@[j]] == a[keys@[j]],
            any == exists|j: int| 0 <= j < i && #[trigger] a[keys@[j]].needs_update,
        decreases n - i,
    {
        let key = keys[i];
        let ghost cur = chunk_map(*chunks);
        assert(keys@.to_set().contains(key));
        assert(inner_key(key));
        let sides = neighbours(chunks, key);
        proof {
            assert forall|q: (i32, i32, i32)| side_voxels(cur, q) == #[trigger] side_voxels(a, q) by {}
        }
        let taken = chunk_take(chunks, key);
        if let Some(mut c) = taken {
            assert(c == a[key]);
            let updated = c.update(&sides.x_pos, &sides.y_pos, &sides.z_pos, &sides.x_neg, &sides.y_neg, &sides.z_neg);
            chunk_put(chunks, key, c);
            proof {
                let now = chunk_map(*chunks);
                assert(now == cur.insert(key, c));
                assert forall|j: int| i < j < n implies #[trigger] now[keys@[j]] == a[keys@[j]] by {
                    assert(keys@[j] != key);
                }
                assert forall|j: int| 0 <= j < i implies meshed_in(a, keys@[j], #[trigger] now[keys@[j]]) by {
                    assert(keys@[j] != key);
                }
                assert(meshed_in(a, key, now[key]));
            }
            any = any || updated;
        }
        i = i + 1;
        proof {
            assert(any == exists|j: int| 0 <= j < i && #[trigger] a[keys@[j]].needs_update) by {
                if a[key].needs_update {
                    assert(a[keys@[i - 1]].needs_update);
                }
            }
        }
    }
    proof {
        assert forall|p: (i32, i32, i32)| #[trigger] a.dom().contains(p) implies meshed_in(a, p, chunk_map(*chunks)[p]) by {
            assert(keys@.to_set().contains(p));
            let j = choose|j: int| 0 <= j < n && keys@[j] == p;
        }
        if exists|p: (i32, i32, i32)| #[trigger] a.dom().contains(p) && a[p].needs_update {
            let p = choose|p: (i32, i32, i32)| #[trigger] a.dom().contains(p) && a[p].needs_update;
            assert(keys@.to_set().contains(p));
            let j = choose|j: int| 0 <= j < n && keys@[j] == p;
            assert(a[keys@[j]].needs_update);
        }
        if any {
            let j = choose|j: int| 0 <= j < n && #[trigger] a[keys@[j]].needs_update;
            assert(keys@.to_set().contains(keys@[j]));
        }
    }
    any
}

/// The map key of a chunk position.
pub open spec fn key_of(p: IVec3) -> (i32, i32, i32) {
    (p.x, p.y, p.z)
}

/// The block type at global position `pos` of the chunks `m`: that of its chunk, or air where
/// there is none.
pub open spec fn block_at(m: Map<(i32, i32, i32), Chunk>, pos: IVec3) -> BlockType {
    let k = (chunk_coord(pos.x as int) as i32, chunk_coord(pos.y as int) as i32, chunk_coord(pos.z as int) as i32);
    if m.dom().contains(k) {
        voxel_type(
            *m[k].voxels.voxels,
            in_chunk_coord(pos.x as int),
            in_chunk_coord(pos.y as int),
            in_chunk_coord(pos.z as int),
        )
    } else {
        BlockType::Air
    }
}

/// The block type at a global position, air where no chunk is.
pub fn get_block_at(chunks: &DashMap<(i32, i32, i32), Chunk, RandomState>, pos: &IVec3) -> (b: BlockType)
    requires
        pos.x > i32::MIN,
        pos.y > i32::MIN,
        pos.z > i32::MIN,
    ensures
        b == block_at(chunk_map(*chunks), *pos),
{
    let (chunk_pos, in_chunk_pos) = seperate_global_pos(pos);
    let x = in_chunk_pos.x as usize;
    let y = in_chunk_pos.y as usize;
    let z = in_chunk_pos.z as usize;
    match chunk_block(chunks, (chunk_pos.x, chunk_pos.y, chunk_pos.z), x, y, z) {
        Some(b) => b,
        None => BlockType::Air,
    }
}

/// Chunk `b` is neighbour `a` with its border copy at `at` set: only its voxel data change.
pub open spec fn border_set(a: Chunk, b: Chunk, at: IVec3, block_type: BlockType) -> bool {
    &&& data_after_set(a.voxels, b.voxels, at, block_type)
    &&& b == (Chunk { voxels: b.voxels, ..a })
}

/// Whether `k` is the key of a neighbour that the edits `es` name.
pub open spec fn edited(es: Seq<(IVec3, IVec3)>, k: (i32, i32, i32)) -> bool {
    exists|j: int| 0 <= j < es.len() && key_of(#[trigger] es[j].0) == k
}

/// Map `b` is map `a` after setting `block_type` at `pos` of the chunk at `cp`: nothing
/// changes when `pos` is outside a chunk or there is no chunk at `cp`; else that chunk is set
/// (see `chunk_after_set`) and, with `set_neighbours`, each existing neighbour that
/// `neighbour_edits` names has its border copy set; no other chunk changes.
pub open spec fn block_set_in(
    a: Map<(i32, i32, i32), Chunk>,
    b: Map<(i32, i32, i32), Chunk>,
    cp: IVec3,
    pos: IVec3,
    block_type: BlockType,
    set_neighbours: bool,
) -> bool {
    let key = key_of(cp);
    let es = if set_neighbours {
        neighbour_edits(pos, cp)
    } else {
        Seq::empty()
    };
    if !in_chunk(pos) || !a.dom().contains(key) {
        b == a
    } else {
        &&& b.dom() == a.dom()
        &&& chunk_after_set(a[key], b[key], pos, block_type)
        &&& forall|j: int|
            0 <= j < es.len() && a.dom().contains(key_of(#[trigger] es[j].0)) ==> border_set(
                a[key_of(es[j].0)],
                b[key_of(es[j].0)],
                es[j].1,
                block_type,
            )
        &&& forall|k: (i32, i32, i32)| #[trigger] a.dom().contains(k) && k != key && !edited(es, k) ==> b[k] == a[k]
    }
}

/// Sets the block type at `pos` of the chunk at `chunk_pos` and, with `set_neighbours`,
/// the border copies in the neighbouring chunks that exist (see `block_set_in`).
pub fn set_block(
    chunks: &mut DashMap<(i32, i32, i32), Chunk, RandomState>,
    chunk_pos: &IVec3,
    pos: IVec3,
    block_type: BlockType,
    set_neighbours: bool,
)
    requires
        set_neighbours && in_chunk(pos) ==> neighbours_in_range(pos, *chunk_pos),
    ensures
        block_set_in(chunk_map(*old(chunks)), chunk_map(*final(chunks)), *chunk_pos, pos, block_type, set_neighbours),
{
    let ghost a = chunk_map(*chunks);
    if pos.x < 0 || pos.y < 0 || pos.z < 0 || pos.x >= 30 || pos.y >= 30 || pos.z >= 30 {
        return;
    }
    let key = (chunk_pos.x, chunk_pos.y, chunk_pos.z);
    let taken = chunk_take(chunks, key);
    let mut c = match taken {
        Some(c) => c,
        None => {
            assert(chunk_map(*chunks) =~= a);
            return;
        },
    };
    let edits = c.set(pos, block_type, chunk_pos, set_neighbours);
    chunk_put(chunks, key, c);
    let ghost es = edits@;
    proof {
        assert(chunk_map(*chunks) == a.insert(key, c));
        assert forall|j: int| 0 <= j < es.len() implies key_of(#[trigger] es[j].0) != key && forall|i: int|
            0 <= i < es.len() && i != j ==> key_of(es[i].0) != key_of(es[j].0) by {}
    }
    let n = edits.len();
    let mut i: usize = 0;
    while i < n
        invariant
            n == es.len(),
            i <= n,
            es == edits@,
            a.dom().contains(key),
            chunk_after_set(a[key], chunk_map(*chunks)[key], pos, block_type),
            chunk_map(*chunks).dom() == a.dom(),
            forall|j: int| 0 <= j < es.len() ==> key_of(#[trigger] es[j].0) != key && forall|i: int|
                0 <= i < es.len() && i != j ==> key_of(es[i].0) != key_of(es[j].0),
            forall|j: int| 0 <= j < es.len() ==> -1 <= (#[trigger] es[j].1).x <= 30 && -1 <= es[j].1.y <= 30 && -1 <= es[j].1.z <= 30,
            forall|j: int|
                0 <= j < i && a.dom().contains(key_of(#[trigger] es[j].0)) ==> border_set(
                    a[key_of(es[j].0)],
                    chunk_map(*chunks)[key_of(es[j].0)],
                    es[j].1,
                    block_type,
                ),
            forall|j: int| i <= j < n ==> #[trigger] chunk_map(*chunks)[key_of(es[j].0)] == a[key_of(es[j].0)],
            forall|k: (i32, i32, i32)| #[trigger] a.dom().contains(k) && k != key && !edited(es, k) ==> chunk_map(*chunks)[k] == a[k],
        decreases n - i,
    {
        let (neighbour, at) = edits[i];
        let nkey = (neighbour.x, neighbour.y, neighbour.z);
        let ghost cur = chunk_map(*chunks);
        assert(nkey == key_of(es[i as int].0));
        let taken = chunk_take(chunks, nkey);
        if let Some(mut d) = taken {
            d.voxels.set(&at, &block_type);
            chunk_put(chunks, nkey, d);
            proof {
                let now = chunk_map(*chunks);
                assert(now == cur.insert(nkey, d));
                assert forall|j: int| i < j < n implies #[trigger] now[key_of(es[j].0)] == a[key_of(es[j].0)] by {
                    assert(key_of(es[j].0) != nkey);
                }
                assert forall|j: int|
                    0 <= j <= i && a.dom().contains(key_of(#[trigger] es[j].0)) implies border_set(
                        a[key_of(es[j].0)],
                        now[key_of(es[j].0)],
                        es[j].1,
                        block_type,
                    ) by {
                    if j < i {
                        assert(key_of(es[j].0) != nkey);
                    }
                }
                assert forall|k: (i32, i32, i32)| #[trigger] a.dom().contains(k) && k != key && !edited(es, k) implies now[k] == a[k] by {
                    if k == nkey {
                        assert(edited(es, k));
                    }
                }
            }
        }
        i = i + 1;
    }
}

/// Whether the global position `q` is voxel `(x, y, z)` of the chunk at `k`.
pub open spec fn falls_on(q: (i32, i32, i32), k: (i32, i32, i32), x: int, y: int, z: int) -> bool {
    &&& q.0 > i32::MIN && q.1 > i32::MIN && q.2 > i32::MIN
    &&& k.0 == chunk_coord(q.0 as int) && k.1 == chunk_coord(q.1 as int) && k.2 == chunk_coord(q.2 as int)
    &&& x == in_chunk_coord(q.0 as int) && y == in_chunk_coord(q.1 as int) && z == in_chunk_coord(q.2 as int)
}

/// The chunk position of a global position.
pub open spec fn chunk_key(q: (i32, i32, i32)) -> (i32, i32, i32) {
    (chunk_coord(q.0 as int) as i32, chunk_coord(q.1 as int) as i32, chunk_coord(q.2 as int) as i32)
}

/// Whether some position of `done` lies in the chunk at `k`.
pub open spec fn touched(done: Set<(i32, i32, i32)>, k: (i32, i32, i32)) -> bool {
    exists|q: (i32, i32, i32)| #[trigger] done.contains(q) && chunk_key(q) == k
}

/// Whether some position of `done` is voxel `(x, y, z)` of the chunk at `k`.
pub open spec fn has_source(done: Set<(i32, i32, i32)>, k: (i32, i32, i32), x: int, y: int, z: int) -> bool {
    exists|q: (i32, i32, i32)| done.contains(q) && #[trigger] falls_on(q, k, x, y, z)
}

/// The block type that voxel `(x, y, z)` of the chunk at `k` gets from the positions `done`
/// of the voxels `data`, or `base` where none of them falls on it.
pub open spec fn sorted_block(
    data: Map<(i32, i32, i32), BlockType>,
    done: Set<(i32, i32, i32)>,
    k: (i32, i32, i32),
    x: int,
    y: int,
    z: int,
    base: BlockType,
) -> BlockType {
    if has_source(done, k, x, y, z) {
        data[choose|q: (i32, i32, i32)| done.contains(q) && #[trigger] falls_on(q, k, x, y, z)]
    } else {
        base
    }
}

proof fn lemma_sorted_miss(
    data: Map<(i32, i32, i32), BlockType>,
    done: Set<(i32, i32, i32)>,
    p: (i32, i32, i32),
    k: (i32, i32, i32),
    x: int,
    y: int,
    z: int,
    base: BlockType,
)
    requires
        !falls_on(p, k, x, y, z),
    ensures
        has_source(done.insert(p), k, x, y, z) == has_source(done, k, x, y, z),
        sorted_block(data, done.insert(p), k, x, y, z, base) == sorted_block(data, done, k, x, y, z, base),
{
    let done2 = done.insert(p);
    if has_source(done2, k, x, y, z) {
        let q = choose|q: (i32, i32, i32)| done2.contains(q) && #[trigger] falls_on(q, k, x, y, z);
        assert(done.contains(q));
        let q1 = choose|q: (i32, i32, i32)| done.contains(q) && #[trigger] falls_on(q, k, x, y, z);
        lemma_separation_injective(q.0 as int, q1.0 as int);
        lemma_separation_injective(q.1 as int, q1.1 as int);
        lemma_separation_injective(q.2 as int, q1.2 as int);
    }
    if has_source(done, k, x, y, z) {
        let q = choose|q: (i32, i32, i32)| done.contains(q) && #[trigger] falls_on(q, k, x, y, z);
        assert(done2.contains(q));
    }
}

proof fn lemma_sorted_hit(
    data: Map<(i32, i32, i32), BlockType>,
    done: Set<(i32, i32, i32)>,
    p: (i32, i32, i32),
    k: (i32, i32, i32),
    x: int,
    y: int,
    z: int,
    base: BlockType,
)
    requires
        falls_on(p, k, x, y, z),
    ensures
        has_source(done.insert(p), k, x, y, z),
        sorted_block(data, done.insert(p), k, x, y, z, base) == data[p],
{
    let done2 = done.insert(p);
    assert(done2.contains(p));
    let q = choose|q: (i32, i32, i32)| done2.contains(q) && #[trigger] falls_on(q, k, x, y, z);
    lemma_separation_injective(q.0 as int, p.0 as int);
    lemma_separation_injective(q.1 as int, p.1 as int);
    lemma_separation_injective(q.2 as int, p.2 as int);
}

proof fn lemma_with_bit(w: u32, k: u32, b: u32, on: bool)
    requires
        k < 32,
        b < 32,
    ensures
        bit_set(with_bit(w, k, on), b) == if b == k {
            on
        } else {
            bit_set(w, b)
        },
{
    lemma_bit_or(w, k, b);
    lemma_bit_clear(w, k, b);
}

/// The padded point that bit `b` of word `(i, j)` of plane `a` of a depth mask stands for:
/// plane X is indexed `[y][z]` with a bit per x, plane Y `[z][x]` with a bit per y, plane Z
/// `[y][x]` with a bit per z.
pub open spec fn mask_point(a: int, i: int, j: int, b: int) -> (int, int, int) {
    if a == 0 {
        (b, i, j)
    } else if a == 1 {
        (j, b, i)
    } else {
        (j, i, b)
    }
}

/// Depth mask `n` is mask `m` of the chunk at `k` after the voxels `data`, at the positions
/// `done`, are sorted into that chunk: each bit of a padded point inside the chunk that a
/// position falls on tells whether that position's block is solid; every other bit is as it
/// was.
pub open spec fn mask_sorted(
    data: Map<(i32, i32, i32), BlockType>,
    done: Set<(i32, i32, i32)>,
    k: (i32, i32, i32),
    m: AxisDepths,
    n: AxisDepths,
) -> bool {
    forall|a: int, i: int, j: int, b: u32|
        0 <= a < 3 && 0 <= i < 32 && 0 <= j < 32 && b < 32 ==> #[trigger] bit_set(n@[a]@[i]@[j], b) == {
            let pt = mask_point(a, i, j, b as int);
            if 1 <= pt.0 <= 30 && 1 <= pt.1 <= 30 && 1 <= pt.2 <= 30 && has_source(done, k, pt.0 - 1, pt.1 - 1, pt.2 - 1) {
                block_is_solid(sorted_block(data, done, k, pt.0 - 1, pt.1 - 1, pt.2 - 1, BlockType::Air))
            } else {
                bit_set(m@[a]@[i]@[j], b)
            }
        }
}

proof fn lemma_mask_step(
    vm: Map<(i32, i32, i32), BlockType>,
    done: Set<(i32, i32, i32)>,
    p: (i32, i32, i32),
    key: (i32, i32, i32),
    inner: IVec3,
    k: (i32, i32, i32),
    m0: AxisDepths,
    mc: AxisDepths,
    mn: AxisDepths,
)
    requires
        mask_sorted(vm, done, k, m0, mc),
        falls_on(p, key, inner.x as int, inner.y as int, inner.z as int),
        in_chunk(inner),
        k == key ==> mask_after_set(mc, mn, inner.x + 1, inner.y + 1, inner.z + 1, block_is_solid(vm[p])),
        k != key ==> mn == mc,
    ensures
        mask_sorted(vm, done.insert(p), k, m0, mn),
{
    let done2 = done.insert(p);
    assert forall|ax: int, i: int, j: int, b: u32|
        0 <= ax < 3 && 0 <= i < 32 && 0 <= j < 32 && b < 32 implies #[trigger] bit_set(mn@[ax]@[i]@[j], b) == {
            let pt = mask_point(ax, i, j, b as int);
            if 1 <= pt.0 <= 30 && 1 <= pt.1 <= 30 && 1 <= pt.2 <= 30 && has_source(done2, k, pt.0 - 1, pt.1 - 1, pt.2 - 1) {
                block_is_solid(sorted_block(vm, done2, k, pt.0 - 1, pt.1 - 1, pt.2 - 1, BlockType::Air))
            } else {
                bit_set(m0@[ax]@[i]@[j], b)
            }
        } by {
        let pt = mask_point(ax, i, j, b as int);
        assert(bit_set(mc@[ax]@[i]@[j], b) == {
            if 1 <= pt.0 <= 30 && 1 <= pt.1 <= 30 && 1 <= pt.2 <= 30 && has_source(done, k, pt.0 - 1, pt.1 - 1, pt.2 - 1) {
                block_is_solid(sorted_block(vm, done, k, pt.0 - 1, pt.1 - 1, pt.2 - 1, BlockType::Air))
            } else {
                bit_set(m0@[ax]@[i]@[j], b)
            }
        });
        let hit = k == key && pt.0 == inner.x + 1 && pt.1 == inner.y + 1 && pt.2 == inner.z + 1;
        if hit {
            lemma_sorted_hit(vm, done, p, k, pt.0 - 1, pt.1 - 1, pt.2 - 1, BlockType::Air);
        } else if 1 <= pt.0 <= 30 && 1 <= pt.1 <= 30 && 1 <= pt.2 <= 30 {
            lemma_sorted_miss(vm, done, p, k, pt.0 - 1, pt.1 - 1, pt.2 - 1, BlockType::Air);
        }
        if k == key {
            let w = mc@[ax]@[i]@[j];
            let on = block_is_solid(vm[p]);
            assert(mn@[ax]@[i]@[j] == if ax == 0 && i == inner.y + 1 && j == inner.z + 1 {
                with_bit(w, (inner.x + 1) as u32, on)
            } else if ax == 1 && i == inner.z + 1 && j == inner.x + 1 {
                with_bit(w, (inner.y + 1) as u32, on)
            } else if ax == 2 && i == inner.y + 1 && j == inner.x + 1 {
                with_bit(w, (inner.z + 1) as u32, on)
            } else {
                w
            });
            lemma_with_bit(w, (inner.x + 1) as u32, b, on);
            lemma_with_bit(w, (inner.y + 1) as u32, b, on);
            lemma_with_bit(w, (inner.z + 1) as u32, b, on);
        }
    }
}

/// What voxel `(x, y, z)` of the chunk at `k` held before: its block type in `a`, or air for
/// a chunk that `a` lacks.
pub open spec fn block_before(a: Map<(i32, i32, i32), Chunk>, k: (i32, i32, i32), x: int, y: int, z: int) -> BlockType {
    if a.dom().contains(k) {
        voxel_type(*a[k].voxels.voxels, x, y, z)
    } else {
        BlockType::Air
    }
}

/// The chunk `c` at `k`, apart from its voxels, after sorting voxels into the chunks `a`: a
/// chunk that no voxel fell in is unchanged; one that some voxel fell in is marked for
/// meshing, with a depth mask if and only if it had one and its other fields kept; a new
/// chunk is marked for meshing, with no depth mask or instances and the given flags.
pub open spec fn sorted_chunk(
    a: Map<(i32, i32, i32), Chunk>,
    k: (i32, i32, i32),
    c: Chunk,
    touched: bool,
    greedy: bool,
    frustum_cull: bool,
) -> bool {
    if a.dom().contains(k) {
        if touched {
            &&& c.instances == a[k].instances
            &&& c.greedy == a[k].greedy
            &&& c.needs_update
            &&& c.needs_mesh_written == a[k].needs_mesh_written
            &&& c.frustum_cull == a[k].frustum_cull
            &&& (c.voxels.depth_mask is None <==> a[k].voxels.depth_mask is None)
        } else {
            c == a[k]
        }
    } else {
        &&& c.instances@.len() == 0
        &&& c.greedy == greedy
        &&& c.needs_update
        &&& !c.needs_mesh_written
        &&& c.frustum_cull == frustum_cull
        &&& c.voxels.depth_mask is None
    }
}

/// Map `b` is map `a` after the voxels `data`, at the positions `done`, are sorted into
/// chunks: the chunks of `a` and one for each position, every voxel of which a position
/// falls on holding that position's block type, every other voxel as it was (air in a new
/// chunk), and every depth mask kept up to date with them (see `mask_sorted`).
pub open spec fn sorted_into(
    data: Map<(i32, i32, i32), BlockType>,
    done: Set<(i32, i32, i32)>,
    a: Map<(i32, i32, i32), Chunk>,
    b: Map<(i32, i32, i32), Chunk>,
    greedy: bool,
    frustum_cull: bool,
) -> bool {
    &&& forall|k: (i32, i32, i32)| #[trigger] b.dom().contains(k) <==> a.dom().contains(k) || touched(done, k)
    &&& forall|k: (i32, i32, i32), x: int, y: int, z: int|
        b.dom().contains(k) && 0 <= x < 30 && 0 <= y < 30 && 0 <= z < 30 ==> #[trigger] voxel_type(*b[k].voxels.voxels, x, y, z)
            == sorted_block(data, done, k, x, y, z, block_before(a, k, x, y, z))
    &&& forall|k: (i32, i32, i32)| #[trigger] b.dom().contains(k) ==> sorted_chunk(
        a,
        k,
        b[k],
        touched(done, k),
        greedy,
        frustum_cull,
    )
    &&& forall|k: (i32, i32, i32)|
        #[trigger] a.dom().contains(k) && a[k].voxels.depth_mask is Some ==> mask_sorted(
            data,
            done,
            k,
            *a[k].voxels.depth_mask.unwrap(),
            *b[k].voxels.depth_mask.unwrap(),
        )
}

/// Sorts the voxels of a scene into chunks, making each chunk, all air, on its first voxel
/// (see `sorted_into`).
pub fn chunk_data(
    data: &DashMap<(i32, i32, i32), BlockType, RandomState>,
    greedy: bool,
    frustum_cull: bool,
    chunks: &mut DashMap<(i32, i32, i32), Chunk, RandomState>,
)
    requires
        forall|q: (i32, i32, i32)| #[trigger] voxel_map(*data).dom().contains(q) ==> q.0 > i32::MIN && q.1 > i32::MIN && q.2 > i32::MIN,
    ensures
        sorted_into(voxel_map(*data), voxel_map(*data).dom(), chunk_map(*old(chunks)), chunk_map(*final(chunks)), greedy, frustum_cull),
{
    let ghost vm = voxel_map(*data);
    let ghost a = chunk_map(*chunks);
    let keys = voxel_keys(data);
    let n = keys.len();
    let ghost mut done: Set<(i32, i32, i32)> = Set::empty();
    let mut i: usize = 0;
    while i < n
        invariant
            n == keys@.len(),
            i <= n,
            keys@.to_set() == vm.dom(),
            keys@.no_duplicates(),
            vm == voxel_map(*data),
            forall|q: (i32, i32, i32)| #[trigger] vm.dom().contains(q) ==> q.0 > i32::MIN && q.1 > i32::MIN && q.2 > i32::MIN,
            forall|q: (i32, i32, i32)| done.contains(q) <==> exists|j: int| 0 <= j < i && keys@[j] == q,
            sorted_into(vm, done, a, chunk_map(*chunks), greedy, frustum_cull),
        decreases n - i,
    {
        let p = keys[i];
        assert(keys@.to_set().contains(p));
        let (x, y, z) = p;
        let (cp, inner) = seperate_global_pos(&IVec3 { x, y, z });
        let key = (cp.x, cp.y, cp.z);
        let block = match voxel_get(data, p) {
            Some(b) => b,
            None => BlockType::Air,
        };
        let ghost cur = chunk_map(*chunks);
        let mut c = match chunk_take(chunks, key) {
            Some(c) => c,
            None => Chunk::fill(BlockType::Air, greedy, frustum_cull),
        };
        let ghost c0 = c;
        assert(cur.dom().contains(key) ==> c0 == cur[key]);
        let _ = c.set(inner, block, &cp, false);
        chunk_put(chunks, key, c);
        proof {
            let now = chunk_map(*chunks);
            let done2 = done.insert(p);
            assert(now == cur.insert(key, c));
            assert(falls_on(p, key, inner.x as int, inner.y as int, inner.z as int));
            assert(key == chunk_key(p));
            assert(done2.contains(p));
            assert(touched(done2, key));
            assert forall|k: (i32, i32, i32)| k != key implies touched(done2, k) == touched(done, k) by {
                if touched(done2, k) {
                    let q = choose|q: (i32, i32, i32)| #[trigger] done2.contains(q) && chunk_key(q) == k;
                    assert(q != p);
                    assert(done.contains(q));
                }
                if touched(done, k) {
                    let q = choose|q: (i32, i32, i32)| #[trigger] done.contains(q) && chunk_key(q) == k;
                    assert(done2.contains(q));
                }
            }
            assert forall|k: (i32, i32, i32), x: int, y: int, z: int|
                now.dom().contains(k) && 0 <= x < 30 && 0 <= y < 30 && 0 <= z < 30 implies #[trigger] voxel_type(*now[k].voxels.voxels, x, y, z)
                    == sorted_block(vm, done2, k, x, y, z, block_before(a, k, x, y, z)) by {
                if k == key && x == inner.x && y == inner.y && z == inner.z {
                    assert(has_source(done2, k, x, y, z));
                    let q = choose|q: (i32, i32, i32)| done2.contains(q) && #[trigger] falls_on(q, k, x, y, z);
                    lemma_separation_injective(q.0 as int, p.0 as int);
                    lemma_separation_injective(q.1 as int, p.1 as int);
                    lemma_separation_injective(q.2 as int, p.2 as int);
                    assert(q == p);
                    assert(voxel_type(*now[k].voxels.voxels, x, y, z) == block);
                    assert(sorted_block(vm, done2, k, x, y, z, block_before(a, k, x, y, z)) == vm[p]);
                } else {
                    if has_source(done2, k, x, y, z) {
                        let q = choose|q: (i32, i32, i32)| done2.contains(q) && #[trigger] falls_on(q, k, x, y, z);
                        assert(q != p);
                        assert(done.contains(q));
                        assert(has_source(done, k, x, y, z));
                        let q1 = choose|q: (i32, i32, i32)| done.contains(q) && #[trigger] falls_on(q, k, x, y, z);
                        lemma_separation_injective(q.0 as int, q1.0 as int);
                        lemma_separation_injective(q.1 as int, q1.1 as int);
                        lemma_separation_injective(q.2 as int, q1.2 as int);
                        assert(sorted_block(vm, done2, k, x, y, z, block_before(a, k, x, y, z)) == sorted_block(vm, done, k, x, y, z, block_before(a, k, x, y, z)));
                    } else {
                        assert(!has_source(done, k, x, y, z)) by {
                            if has_source(done, k, x, y, z) {
                                let q = choose|q: (i32, i32, i32)| done.contains(q) && #[trigger] falls_on(q, k, x, y, z);
                                assert(done2.contains(q));
                            }
                        }
                    }
                    assert(sorted_block(vm, done2, k, x, y, z, block_before(a, k, x, y, z)) == sorted_block(vm, done, k, x, y, z, block_before(a, k, x, y, z)));
                    if k != key {
                        assert(voxel_type(*now[k].voxels.voxels, x, y, z) == voxel_type(*cur[k].voxels.voxels, x, y, z));
                    }
                    if k == key {
                        if cur.dom().contains(k) {
                            assert(voxel_type(*now[k].voxels.voxels, x, y, z) == voxel_type(*cur[k].voxels.voxels, x, y, z));
                        } else {
                            assert(voxel_type(*c0.voxels.voxels, x, y, z) == BlockType::Air);
                            assert(voxel_type(*now[k].voxels.voxels, x, y, z) == BlockType::Air);
                            assert(!a.dom().contains(k));
                            assert(!has_source(done, k, x, y, z)) by {
                                if has_source(done, k, x, y, z) {
                                    let q = choose|q: (i32, i32, i32)| done.contains(q) && #[trigger] falls_on(q, k, x, y, z);
                                    assert(touched(done, k));
                                }
                            }
                        }
                    }
                }
            }
            assert forall|k: (i32, i32, i32)| #[trigger] now.dom().contains(k) implies sorted_chunk(
                a,
                k,
                now[k],
                touched(done2, k),
                greedy,
                frustum_cull,
            ) by {
                if k == key && cur.dom().contains(k) && a.dom().contains(k) {
                    if !touched(done, k) {
                        assert(cur[k] == a[k]);
                    }
                }
            }
            assert forall|k: (i32, i32, i32)|
                #[trigger] a.dom().contains(k) && a[k].voxels.depth_mask is Some implies mask_sorted(
                    vm,
                    done2,
                    k,
                    *a[k].voxels.depth_mask.unwrap(),
                    *now[k].voxels.depth_mask.unwrap(),
                ) by {
                if k == key {
                    assert(c0 == cur[key]);
                }
                lemma_mask_step(
                    vm,
                    done,
                    p,
                    key,
                    inner,
                    k,
                    *a[k].voxels.depth_mask.unwrap(),
                    *cur[k].voxels.depth_mask.unwrap(),
                    *now[k].voxels.depth_mask.unwrap(),
                );
            }
            done = done2;
        }
        i = i + 1;
    }
    proof {
        assert(done =~= vm.dom()) by {
            assert forall|q: (i32, i32, i32)| done.contains(q) <==> vm.dom().contains(q) by {
                if vm.dom().contains(q) {
                    assert(keys@.to_set().contains(q));
                    let j = choose|j: int| 0 <= j < n && keys@[j] == q;
                }
            }
        }
    }
}

} // verus!

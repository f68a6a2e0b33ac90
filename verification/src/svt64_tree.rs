use vstd::prelude::*;

use dashmap::DashMap;
use std::collections::hash_map::RandomState;

use crate::bits::{bit_set, lemma_bit_zero, lemma_bits_ext};
use crate::block::{block_code, block_is_solid, BlockType};
use crate::svt64::{mask_bit, Node};
use vstd::arithmetic::power2::{lemma2_to64, lemma_pow2_adds, lemma_pow2_strictly_increases, pow2};
use vstd::bits::lemma_u32_shl_is_mul;
use vstd::arithmetic::div_mod::lemma_mod_multiples_basic;

verus! {

#[verifier::external_type_specification]
#[verifier::external_body]
#[verifier::reject_recursive_types(K)]
#[verifier::reject_recursive_types(V)]
#[verifier::reject_recursive_types(S)]
pub struct ExDashMap<K, V, S>(DashMap<K, V, S>);

/// The block types that a map of voxels holds, by position. The map can be written through a
/// shared reference, so what is said of it holds while no other thread writes it; the library
/// itself only reads it.
pub uninterp spec fn voxel_map(m: DashMap<(i32, i32, i32), BlockType, RandomState>) -> Map<(i32, i32, i32), BlockType>;

/// What a lookup at `p` finds in the voxels `m`.
pub open spec fn lookup(m: Map<(i32, i32, i32), BlockType>, p: (i32, i32, i32)) -> Option<BlockType> {
    if m.dom().contains(p) {
        Some(m[p])
    } else {
        None
    }
}

/// `DashMap::get`, copying the value out: the block type stored at `p`, if any.
#[verifier::external_body]
pub(crate) fn voxel_get(voxels: &DashMap<(i32, i32, i32), BlockType, RandomState>, p: (i32, i32, i32)) -> (r: Option<BlockType>)
    ensures
        r == lookup(voxel_map(*voxels), p),
{
    match voxels.get(&p) {
        Some(e) => Some(*e.value()),
        None => None,
    }
}

/// `DashMap::iter`, keeping the keys: every position of the map once, in the order the map
/// is walked. That order rests on the map's hasher and is not stated.
#[verifier::external_body]
pub(crate) fn voxel_keys(voxels: &DashMap<(i32, i32, i32), BlockType, RandomState>) -> (r: Vec<(i32, i32, i32)>)
    ensures
        r@.to_set() == voxel_map(*voxels).dom(),
        r@.no_duplicates(),
{
    voxels.iter().map(|e| *e.key()).collect()
}

/// The block type at a point of the voxel grid: what the map holds there, or air.
pub open spec fn block_at(m: Map<(i32, i32, i32), BlockType>, x: int, y: int, z: int) -> BlockType {
    if i32::MIN <= x <= i32::MAX && i32::MIN <= y <= i32::MAX && i32::MIN <= z <= i32::MAX
        && m.dom().contains((x as i32, y as i32, z as i32)) {
        m[(x as i32, y as i32, z as i32)]
    } else {
        BlockType::Air
    }
}

/// The block type of voxel `i` (numbered `x + z * 4 + y * 16`) of the 4x4x4 tile centred on
/// `pos`.
pub open spec fn leaf_block(m: Map<(i32, i32, i32), BlockType>, pos: (int, int, int), i: int) -> BlockType {
    block_at(m, pos.0 + i % 4 - 2, pos.1 + i / 16 - 2, pos.2 + (i / 4) % 4 - 2)
}

/// The codes of the solid voxels among the first `k` of the tile, in order.
pub open spec fn leaf_codes(m: Map<(i32, i32, i32), BlockType>, pos: (int, int, int), k: int) -> Seq<u32>
    decreases k,
{
    if k <= 0 {
        Seq::empty()
    } else {
        let b = leaf_block(m, pos, k - 1);
        leaf_codes(m, pos, k - 1) + if block_is_solid(b) {
            seq![block_code(b)]
        } else {
            Seq::empty()
        }
    }
}

/// `n` is the leaf for the tile at `pos` whose voxel data start at `start`: the leaf flag
/// and that offset, and a mask bit for each solid voxel.
pub open spec fn is_leaf_for(n: Node, m: Map<(i32, i32, i32), BlockType>, pos: (int, int, int), start: nat) -> bool {
    &&& n.data_offset == (((start as u32) << 1u32) | 1u32)
    &&& forall|p: int| 0 <= p < 64 ==> #[trigger] mask_bit(n, p) == block_is_solid(leaf_block(m, pos, p))
}

/// A leaf numbers the voxels of its 4x4x4 tile `x + z * 4 + y * 16`, each coordinate from 0
/// to 3 counted from the tile's low corner `pos - 2`: mask bit `i` is set exactly when the
/// voxel at `(pos.0 + i % 4 - 2, pos.1 + i / 16 - 2, pos.2 + (i / 4) % 4 - 2)` is solid, and
/// the leaf's voxel data list the codes of the solid voxels in increasing `i`.
pub proof fn lemma_leaf_layout(n: Node, m: Map<(i32, i32, i32), BlockType>, pos: (int, int, int), start: nat)
    requires
        is_leaf_for(n, m, pos, start),
    ensures
        forall|i: int|
            0 <= i < 64 ==> #[trigger] mask_bit(n, i) == block_is_solid(
                block_at(m, pos.0 + i % 4 - 2, pos.1 + i / 16 - 2, pos.2 + (i / 4) % 4 - 2),
            ),
        leaf_codes(m, pos, 0) == Seq::<u32>::empty(),
        forall|i: int|
            0 <= i < 64 ==> #[trigger] leaf_codes(m, pos, i + 1) == leaf_codes(m, pos, i) + {
                let b = block_at(m, pos.0 + i % 4 - 2, pos.1 + i / 16 - 2, pos.2 + (i / 4) % 4 - 2);
                if block_is_solid(b) {
                    seq![block_code(b)]
                } else {
                    Seq::<u32>::empty()
                }
            },
{
}

/// `n` is the inner node whose children start at `start` and whose mask has the bits `offs`.
pub open spec fn is_inner_for(n: Node, offs: Set<int>, start: nat) -> bool {
    &&& n.data_offset == ((start as u32) << 1u32)
    &&& forall|p: int| 0 <= p < 64 ==> #[trigger] mask_bit(n, p) == offs.contains(p)
}

/// The leaf for the tile at `pos` (see `is_leaf_for`).
pub open spec fn leaf_node(m: Map<(i32, i32, i32), BlockType>, pos: (int, int, int), start: nat) -> Node {
    choose|n: Node| is_leaf_for(n, m, pos, start)
}

/// The inner node with the mask bits `offs` (see `is_inner_for`).
pub open spec fn inner_node(offs: Set<int>, start: nat) -> Node {
    choose|n: Node| is_inner_for(n, offs, start)
}

/// Two nodes with the same offset word and the same mask bits are the same node.
proof fn lemma_node_unique(a: Node, b: Node)
    requires
        a.data_offset == b.data_offset,
        forall|p: int| 0 <= p < 64 ==> #[trigger] mask_bit(a, p) == mask_bit(b, p),
    ensures
        a == b,
{
    assert forall|k: u32| k < 32 implies bit_set(a.mask_lower, k) == bit_set(b.mask_lower, k) by {
        assert(mask_bit(a, k as int) == mask_bit(b, k as int));
    }
    assert forall|k: u32| k < 32 implies bit_set(a.mask_upper, k) == bit_set(b.mask_upper, k) by {
        assert(mask_bit(a, k + 32) == mask_bit(b, k + 32));
    }
    lemma_bits_ext(a.mask_lower, b.mask_lower);
    lemma_bits_ext(a.mask_upper, b.mask_upper);
}

/// The empty node: no offset, no mask bit.
pub open spec fn zero_node() -> Node {
    Node { data_offset: 0, mask_lower: 0, mask_upper: 0 }
}

/// Fills `tree` as the leaf for the 4x4x4 tile centred on `pos` and appends the codes of the
/// tile's solid voxels to `child_data`. The tile's corner lies on the grid of fours.
fn make_leaf(
    voxels: &DashMap<(i32, i32, i32), BlockType, RandomState>,
    tree: &mut Node,
    child_data: &mut Vec<u32>,
    pos: (i32, i32, i32),
)
    requires
        *old(tree) == zero_node(),
        pos.0 % 4 == 0 && pos.1 % 4 == 0 && pos.2 % 4 == 0,
        i32::MIN + 2 <= pos.0 < i32::MAX - 2,
        i32::MIN + 2 <= pos.1 < i32::MAX - 2,
        i32::MIN + 2 <= pos.2 < i32::MAX - 2,
    ensures
        *final(tree) == leaf_node(voxel_map(*voxels), (pos.0 as int, pos.1 as int, pos.2 as int), old(child_data)@.len()),
        final(child_data)@ == old(child_data)@ + leaf_codes(voxel_map(*voxels), (pos.0 as int, pos.1 as int, pos.2 as int), 64),
{
    let ghost m = voxel_map(*voxels);
    let ghost p = (pos.0 as int, pos.1 as int, pos.2 as int);
    let ghost start = child_data@.len();
    let mut voxel_cube: Vec<BlockType> = Vec::new();
    let mut i: usize = 0;
    while i < 64
        invariant
            i <= 64,
            m == voxel_map(*voxels),
            p == (pos.0 as int, pos.1 as int, pos.2 as int),
            i32::MIN + 2 <= pos.0 < i32::MAX - 2,
            i32::MIN + 2 <= pos.1 < i32::MAX - 2,
            i32::MIN + 2 <= pos.2 < i32::MAX - 2,
            voxel_cube@.len() == i,
            forall|k: int| 0 <= k < i ==> #[trigger] voxel_cube@[k] == leaf_block(m, p, k),
        decreases 64 - i,
    {
        let x = (i % 4) as i32 - 2;
        let z = ((i / 4) % 4) as i32 - 2;
        let y = (i / 16) as i32 - 2;
        let position = (pos.0 + x, pos.1 + y, pos.2 + z);
        let block = match voxel_get(voxels, position) {
            Some(b) => b,
            None => BlockType::Air,
        };
        voxel_cube.push(block);
        i = i + 1;
    }
    tree.set_is_leaf();
    let mut i: usize = 0;
    let ghost leaf_start = *tree;
    assert forall|q: int| 0 <= q < 64 implies !#[trigger] mask_bit(*tree, q) by {
        if q < 32 {
            lemma_bit_zero(q as u32);
        } else {
            lemma_bit_zero((q - 32) as u32);
        }
    }
    while i < 64
        invariant
            i <= 64,
            voxel_cube@.len() == 64,
            tree.data_offset == leaf_start.data_offset,
            crate::svt64::node_is_leaf(leaf_start),
            m == voxel_map(*voxels),
            forall|k: int| 0 <= k < 64 ==> #[trigger] voxel_cube@[k] == leaf_block(m, p, k),
            forall|q: int| 0 <= q < 64 ==> #[trigger] mask_bit(*tree, q) == (q < i && block_is_solid(voxel_cube@[q])),
        decreases 64 - i,
    {
        if voxel_cube[i].is_solid() {
            tree.set_mask(i as u8);
        }
        i = i + 1;
    }
    assert(child_data@.len() == start);
    let ghost masked = *tree;
    tree.set_child_ptr(#[verifier::truncate] (child_data.len() as u32));
    let ghost before = child_data@;
    let mut i: usize = 0;
    while i < 64
        invariant
            i <= 64,
            voxel_cube@.len() == 64,
            m == voxel_map(*voxels),
            forall|k: int| 0 <= k < 64 ==> #[trigger] voxel_cube@[k] == leaf_block(m, p, k),
            child_data@ == before + leaf_codes(m, p, i as int),
        decreases 64 - i,
    {
        let v = voxel_cube[i];
        if v.is_solid() {
            child_data.push(v.code());
        }
        assert(child_data@ =~= before + leaf_codes(m, p, i + 1));
        i = i + 1;
    }
    proof {
        assert(tree.data_offset == (((start as u32) << 1u32) | 1u32));
        assert forall|q: int| 0 <= q < 64 implies #[trigger] mask_bit(*tree, q) == block_is_solid(leaf_block(m, p, q)) by {
            assert(voxel_cube@[q] == leaf_block(m, p, q));
            assert(mask_bit(masked, q) == block_is_solid(voxel_cube@[q]));
        }
        assert(is_leaf_for(*tree, m, p, start));
        let c = leaf_node(m, p, start);
        assert(is_leaf_for(c, m, p, start));
        lemma_node_unique(*tree, c);
    }
}

/// The centre of child `k` (numbered in the order x, then y, then z, each from -2 to 1) of
/// the node of scale `scale` at `pos`: `pos` moved by `2^(scale - 2)` per step.
pub open spec fn child_pos(pos: (int, int, int), scale: int, k: int) -> (int, int, int) {
    let step = pow2((scale - 2) as nat) as int;
    (pos.0 + (k / 16 - 2) * step, pos.1 + ((k / 4) % 4 - 2) * step, pos.2 + (k % 4 - 2) * step)
}

/// The mask bit of child `k`: numbered `x + z * 4 + y * 16`.
pub open spec fn child_offset(k: int) -> int {
    ((k / 4) % 4) * 16 + (k % 4) * 4 + k / 16
}

/// An inner node keeps its children in the same voxel layout as a leaf: the child recorded
/// at mask bit `child_offset(k)`, `o`, sits `o % 4 - 2` steps along x, `o / 16 - 2` along y
/// and `(o / 4) % 4 - 2` along z from the node's centre; and every bit from 0 to 63 belongs
/// to exactly one child.
pub proof fn lemma_child_layout(pos: (int, int, int), scale: int)
    ensures
        forall|k: int|
            0 <= k < 64 ==> {
                let o = #[trigger] child_offset(k);
                let step = pow2((scale - 2) as nat) as int;
                &&& 0 <= o < 64
                &&& child_pos(pos, scale, k) == (
                    pos.0 + (o % 4 - 2) * step,
                    pos.1 + (o / 16 - 2) * step,
                    pos.2 + ((o / 4) % 4 - 2) * step,
                )
            },
        forall|k: int, l: int| 0 <= k < 64 && 0 <= l < 64 && k != l ==> #[trigger] child_offset(k) != #[trigger] child_offset(l),
{
    assert forall|k: int| 0 <= k < 64 implies {
        let o = #[trigger] child_offset(k);
        &&& 0 <= o < 64
        &&& o % 4 == k / 16
        &&& o / 16 == (k / 4) % 4
        &&& (o / 4) % 4 == k % 4
    } by {
        let x = k / 16;
        let y = (k / 4) % 4;
        let z = k % 4;
        assert(0 <= x < 4 && 0 <= y < 4 && 0 <= z < 4);
        assert(k == x * 16 + y * 4 + z);
        let o = child_offset(k);
        assert(o == y * 16 + z * 4 + x);
        assert(o % 4 == x && o / 16 == y && (o / 4) % 4 == z) by (nonlinear_arith)
            requires
                o == y * 16 + z * 4 + x,
                0 <= x < 4,
                0 <= y < 4,
                0 <= z < 4,
        ;
    }
    assert forall|k: int, l: int| 0 <= k < 64 && 0 <= l < 64 && k != l implies #[trigger] child_offset(k) != #[trigger] child_offset(l) by {
        assert(k == (k / 16) * 16 + ((k / 4) % 4) * 4 + k % 4);
        assert(l == (l / 16) * 16 + ((l / 4) % 4) * 4 + l % 4);
    }
}

/// A child is kept when both halves of its mask have a bit set.
pub open spec fn kept(n: Node) -> bool {
    n.mask_lower != 0 && n.mask_upper != 0
}

/// What building the node of scale `scale` at `pos` gives, after the nodes `nodes` and the
/// voxel data `data`: the node, the nodes after, and the voxel data after. A node of scale 2
/// is a leaf; a larger one builds its 64 children in turn, each one scale step down, and
/// appends those that are kept after everything they appended.
pub open spec fn build(
    m: Map<(i32, i32, i32), BlockType>,
    scale: int,
    pos: (int, int, int),
    nodes: Seq<Node>,
    data: Seq<u32>,
) -> (Node, Seq<Node>, Seq<u32>)
    decreases scale, 65int,
{
    if scale <= 2 {
        (leaf_node(m, pos, data.len()), nodes, data + leaf_codes(m, pos, 64))
    } else {
        let r = build_kids(m, scale, pos, nodes, data, 64);
        (inner_node(r.1, r.2.len()), r.2 + r.0, r.3)
    }
}

/// Building the first `k` children of the node of scale `scale` at `pos` (see `build`): the
/// kept children, their mask bits, and the nodes and voxel data after.
pub open spec fn build_kids(
    m: Map<(i32, i32, i32), BlockType>,
    scale: int,
    pos: (int, int, int),
    nodes: Seq<Node>,
    data: Seq<u32>,
    k: int,
) -> (Seq<Node>, Set<int>, Seq<Node>, Seq<u32>)
    decreases scale, k,
{
    if k <= 0 || scale <= 2 {
        (Seq::empty(), Set::empty(), nodes, data)
    } else {
        let r = build_kids(m, scale, pos, nodes, data, k - 1);
        let c = build(m, scale - 2, child_pos(pos, scale, k - 1), r.2, r.3);
        if kept(c.0) {
            (r.0.push(c.0), r.1.insert(child_offset(k - 1)), c.1, c.2)
        } else {
            (r.0, r.1, c.1, c.2)
        }
    }
}

/// A position whose tree of scale `scale` stays inside the `i32` grid and on the grid of
/// fours.
pub open spec fn pos_fits(pos: (i32, i32, i32), scale: int) -> bool {
    let r = pow2(scale as nat) as int;
    &&& i32::MIN + r <= pos.0 <= i32::MAX - r
    &&& i32::MIN + r <= pos.1 <= i32::MAX - r
    &&& i32::MIN + r <= pos.2 <= i32::MAX - r
    &&& pos.0 % 4 == 0 && pos.1 % 4 == 0 && pos.2 % 4 == 0
}

/// The integer point of a position.
pub open spec fn ipos(pos: (i32, i32, i32)) -> (int, int, int) {
    (pos.0 as int, pos.1 as int, pos.2 as int)
}

proof fn lemma_child_fits(pos: (i32, i32, i32), scale: int, step: int, d: int, c: int)
    requires
        4 <= scale <= 30,
        step == pow2((scale - 2) as nat),
        -2 <= d <= 1,
        c == pos.0 + d * step || c == pos.1 + d * step || c == pos.2 + d * step,
        pos_fits(pos, scale),
    ensures
        i32::MIN + step <= c <= i32::MAX - step,
        c % 4 == 0,
        -2 * step <= d * step <= step,
{
    lemma_pow2_adds((scale - 2) as nat, 2);
    lemma_pow2_adds((scale - 4) as nat, 2);
    lemma2_to64();
    let q = pow2((scale - 4) as nat) as int;
    assert(step == q * 4);
    assert(pow2(scale as nat) == step * 4);
    assert(d * step == (d * q) * 4) by (nonlinear_arith)
        requires
            step == q * 4,
    ;
    lemma_mod_multiples_basic(d * q, 4);
    assert(-2 * step <= d * step <= step) by (nonlinear_arith)
        requires
            -2 <= d <= 1,
            step >= 0,
    ;
}

/// Builds the node of scale `scale` at `pos`, appending the nodes and voxel data that its
/// subtree needs (see `build`).
fn recurse_tree(
    voxels: &DashMap<(i32, i32, i32), BlockType, RandomState>,
    nodes: &mut Vec<Node>,
    child_data: &mut Vec<u32>,
    scale: usize,
    pos: (i32, i32, i32),
) -> (n: Node)
    requires
        2 <= scale <= 30,
        scale % 2 == 0,
        pos_fits(pos, scale as int),
    ensures
        (n, final(nodes)@, final(child_data)@) == build(voxel_map(*voxels), scale as int, ipos(pos), old(nodes)@, old(child_data)@),
    decreases scale,
{
    let ghost m = voxel_map(*voxels);
    let ghost p = ipos(pos);
    let ghost nodes0 = nodes@;
    let ghost data0 = child_data@;
    let mut node = Node { data_offset: 0, mask_lower: 0, mask_upper: 0 };
    if scale == 2 {
        proof {
            lemma2_to64();
        }
        make_leaf(voxels, &mut node, child_data, pos);
        return node;
    }
    let scale2 = scale - 2;
    proof {
        lemma2_to64();
        lemma_pow2_strictly_increases(scale2 as nat, 29);
        lemma_pow2_strictly_increases(29, 31);
        lemma_u32_shl_is_mul(1u32, scale2 as u32);
    }
    let step: i32 = (1u32 << (scale2 as u32)) as i32;
    assert(step == pow2(scale2 as nat));
    let mut children: Vec<Node> = Vec::new();
    assert forall|q: int| 0 <= q < 64 implies !#[trigger] mask_bit(node, q) by {
        if q < 32 {
            lemma_bit_zero(q as u32);
        } else {
            lemma_bit_zero((q - 32) as u32);
        }
    }
    let mut k: usize = 0;
    while k < 64
        invariant
            4 <= scale <= 30,
            scale % 2 == 0,
            scale2 == scale - 2,
            step == pow2(scale2 as nat),
            step < 0x2000_0000,
            pos_fits(pos, scale as int),
            m == voxel_map(*voxels),
            p == ipos(pos),
            k <= 64,
            node.data_offset == 0,
            children@ == build_kids(m, scale as int, p, nodes0, data0, k as int).0,
            nodes@ == build_kids(m, scale as int, p, nodes0, data0, k as int).2,
            child_data@ == build_kids(m, scale as int, p, nodes0, data0, k as int).3,
            forall|q: int| 0 <= q < 64 ==> #[trigger] mask_bit(node, q) == build_kids(m, scale as int, p, nodes0, data0, k as int).1.contains(q),
        decreases 64 - k,
    {
        let x = (k / 16) as i32 - 2;
        let y = ((k / 4) % 4) as i32 - 2;
        let z = (k % 4) as i32 - 2;
        proof {
            lemma_child_fits(pos, scale as int, step as int, x as int, pos.0 + x * step);
            lemma_child_fits(pos, scale as int, step as int, y as int, pos.1 + y * step);
            lemma_child_fits(pos, scale as int, step as int, z as int, pos.2 + z * step);
            lemma_pow2_adds(scale2 as nat, 2);
        }
        let cpos = (pos.0 + x * step, pos.1 + y * step, pos.2 + z * step);
        assert(ipos(cpos) == child_pos(p, scale as int, k as int));
        let child = recurse_tree(voxels, nodes, child_data, scale2, cpos);
        if child.mask_lower != 0 && child.mask_upper != 0 {
            let offset = ((y + 2) * 16) + ((z + 2) * 4) + (x + 2);
            assert(offset == child_offset(k as int));
            node.set_mask(offset as u8);
            children.push(child);
        }
        k = k + 1;
    }
    let ghost r = build_kids(m, scale as int, p, nodes0, data0, 64);
    let ghost masked = node;
    assert(!crate::svt64::node_is_leaf(node)) by {
        assert(0u32 & 1u32 == 0) by (bit_vector);
    }
    node.set_child_ptr(#[verifier::truncate] (nodes.len() as u32));
    nodes.append(&mut children);
    proof {
        assert forall|q: int| 0 <= q < 64 implies #[trigger] mask_bit(node, q) == r.1.contains(q) by {
            assert(mask_bit(masked, q) == r.1.contains(q));
        }
        assert(is_inner_for(node, r.1, r.2.len()));
        let c = inner_node(r.1, r.2.len());
        assert(is_inner_for(c, r.1, r.2.len()));
        lemma_node_unique(node, c);
    }
    node
}

/// The largest absolute coordinate of a position.
pub open spec fn key_extent(k: (i32, i32, i32)) -> int {
    let ax = if k.0 < 0 { -k.0 } else { k.0 as int };
    let ay = if k.1 < 0 { -k.1 } else { k.1 as int };
    let az = if k.2 < 0 { -k.2 } else { k.2 as int };
    if ax >= ay && ax >= az {
        ax
    } else if ay >= az {
        ay
    } else {
        az
    }
}

/// The scale of a tree whose voxels reach `a` from the origin: a quarter of `a`, rounded up,
/// then up to an even number, and at least 2.
pub open spec fn tree_scale_of(a: int) -> int {
    let c = if a % 4 != 0 { a / 4 + 1 } else { a / 4 };
    let e = if c % 2 == 1 { c + 1 } else { c };
    if e >= 2 {
        e
    } else {
        2
    }
}

/// The tree of scale `scale` over the voxels `m`, centred on the origin: its nodes, with the
/// root written over the first of them, and its voxel data. There is none when the scale is
/// past 30 (the positions would leave the `i32` grid) or when no node but the root was made.
pub open spec fn tree_of(m: Map<(i32, i32, i32), BlockType>, scale: int) -> Option<(Seq<Node>, Seq<u32>)> {
    if scale > 30 {
        None
    } else {
        let r = build(m, scale, (0, 0, 0), Seq::empty(), Seq::empty());
        if r.1.len() == 0 {
            None
        } else {
            Some((r.1.update(0, r.0), r.2))
        }
    }
}

/// The scale of a tree whose voxels reach `max_axis` from the origin (see `tree_scale_of`).
pub fn tree_scale(max_axis: usize) -> (s: usize)
    requires
        max_axis <= i32::MAX,
    ensures
        s == tree_scale_of(max_axis as int),
{
    let this = max_axis;
    let rhs: usize = 4;
    let d = this / rhs;
    let r = this % rhs;
    assert((this ^ 4usize) >> 31usize == 0usize) by (bit_vector)
        requires
            this <= 0x7fff_ffffusize,
    ;
    let correction = 1 + ((this ^ rhs) >> 31usize);
    let res = if r != 0 {
        d + correction
    } else {
        d
    };
    let res = if res % 2 == 1 {
        res + 1
    } else {
        res
    };
    if res >= 2 {
        res
    } else {
        2
    }
}

/// The tree of scale `max_scale` over `voxels` (see `tree_of`).
pub fn tree_from_scale(
    voxels: &DashMap<(i32, i32, i32), BlockType, RandomState>,
    max_scale: usize,
) -> (r: Option<(Vec<Node>, Vec<u32>)>)
    requires
        max_scale >= 2,
        max_scale % 2 == 0,
    ensures
        match r {
            None => tree_of(voxel_map(*voxels), max_scale as int) is None,
            Some(t) => tree_of(voxel_map(*voxels), max_scale as int) == Some((t.0@, t.1@)),
        },
{
    if max_scale > 30 {
        return None;
    }
    let mut nodes: Vec<Node> = Vec::new();
    let mut children: Vec<u32> = Vec::new();
    proof {
        lemma2_to64();
        lemma_pow2_strictly_increases(max_scale as nat, 31);
    }
    let n = recurse_tree(voxels, &mut nodes, &mut children, max_scale, (0, 0, 0));
    if nodes.len() == 0 {
        return None;
    }
    nodes.set(0, n);
    Some((nodes, children))
}

/// Whether a position has a coordinate whose absolute value does not fit an `i32`.
pub open spec fn has_lowest_coord(k: (i32, i32, i32)) -> bool {
    k.0 == i32::MIN || k.1 == i32::MIN || k.2 == i32::MIN
}

/// The sparse 64-tree of `voxels`. Its scale comes from the reach of the last position the
/// map is walked to (that order is not stated, so any position may be the one), or of the
/// origin for an empty map; the tree is `tree_of` that scale. There is none when a position
/// has a coordinate of `i32::MIN`, whose reach does not fit an `i32`.
pub fn generate_tree(voxels: &DashMap<(i32, i32, i32), BlockType, RandomState>) -> (r: Option<(Vec<Node>, Vec<u32>)>)
    ensures
        (exists|k: (i32, i32, i32)| #[trigger] voxel_map(*voxels).dom().contains(k) && has_lowest_coord(k)) ==> r is None,
        !(exists|k: (i32, i32, i32)| #[trigger] voxel_map(*voxels).dom().contains(k) && has_lowest_coord(k)) ==> exists|s: int| {
            &&& (s == tree_scale_of(0) && voxel_map(*voxels).dom().is_empty()) || exists|k: (i32, i32, i32)| #[trigger] voxel_map(*voxels).dom().contains(k) && s == tree_scale_of(key_extent(k))
            &&& match r {
                None => tree_of(voxel_map(*voxels), s) is None,
                Some(t) => tree_of(voxel_map(*voxels), s) == Some((t.0@, t.1@)),
            }
        },
{
    let ghost m = voxel_map(*voxels);
    let keys = voxel_keys(voxels);
    let mut max_axis: usize = 0;
    let mut i: usize = 0;
    while i < keys.len()
        invariant
            m == voxel_map(*voxels),
            keys@.to_set() == m.dom(),
            forall|j: int| 0 <= j < i ==> !has_lowest_coord(#[trigger] keys@[j]),
            i <= keys@.len(),
            max_axis <= i32::MAX,
            i == 0 ==> max_axis == 0,
            i > 0 ==> max_axis == key_extent(keys@[i - 1]),
        decreases keys@.len() - i,
    {
        let k = keys[i];
        assert(keys@.to_set().contains(k)) by {
            assert(keys@.contains(k));
        }
        if k.0 == i32::MIN || k.1 == i32::MIN || k.2 == i32::MIN {
            return None;
        }
        let ax = if k.0 < 0 { -k.0 } else { k.0 };
        let ay = if k.1 < 0 { -k.1 } else { k.1 };
        let az = if k.2 < 0 { -k.2 } else { k.2 };
        let e = if ax >= ay && ax >= az {
            ax
        } else if ay >= az {
            ay
        } else {
            az
        };
        max_axis = e as usize;
        i = i + 1;
    }
    assert(!(exists|k: (i32, i32, i32)| #[trigger] m.dom().contains(k) && has_lowest_coord(k))) by {
        if exists|k: (i32, i32, i32)| #[trigger] m.dom().contains(k) && has_lowest_coord(k) {
            let k = choose|k: (i32, i32, i32)| #[trigger] m.dom().contains(k) && has_lowest_coord(k);
            assert(keys@.to_set().contains(k));
            let j = choose|j: int| 0 <= j < keys@.len() && keys@[j] == k;
            assert(!has_lowest_coord(keys@[j]));
        }
    }
    let max_scale = tree_scale(max_axis);
    let r = tree_from_scale(voxels, max_scale);
    proof {
        let s = max_scale as int;
        if keys@.len() == 0 {
            assert(m.dom() =~= Set::empty()) by {
                assert forall|k: (i32, i32, i32)| !m.dom().contains(k) by {
                    if m.dom().contains(k) {
                        assert(keys@.to_set().contains(k));
                    }
                }
            }
        } else {
            let k = keys@[keys@.len() - 1];
            assert(keys@.contains(k));
            assert(keys@.to_set().contains(k));
            assert(m.dom().contains(k) && s == tree_scale_of(key_extent(k)));
        }
    }
    r
}

} // verus!

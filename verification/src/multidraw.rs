use vstd::prelude::*;

use crate::position::IVec3;
use crate::render_types::DrawArraysIndirectCommand;

verus! {

/// How many instances the chunks before entry `k` of the draw order hold, each count taken
/// as a `u32` (its low 32 bits).
pub open spec fn base_before(order: Seq<(IVec3, usize)>, k: int) -> nat
    decreases k,
{
    if k <= 0 {
        0
    } else {
        base_before(order, k - 1) + (order[k - 1].1 as u32) as nat
    }
}

/// The indirect draw of entry `k` of the draw order: four strip vertices per instance from
/// the entry's first instance, or, when vertices are pulled, six vertices per face as one
/// instance.
pub open spec fn draw_command(order: Seq<(IVec3, usize)>, k: int, vertex_pull: bool) -> DrawArraysIndirectCommand {
    let count = (order[k].1 as u32) as int;
    let base = base_before(order, k) as int;
    if vertex_pull {
        DrawArraysIndirectCommand {
            vertex_count: (6 * count) as u32,
            instance_count: 1,
            first: (6 * base) as u32,
            base_instance: 0,
        }
    } else {
        DrawArraysIndirectCommand {
            vertex_count: 4,
            instance_count: count as u32,
            first: 0,
            base_instance: base as u32,
        }
    }
}

/// The draws of the entries among the first `k` that are drawn, in order.
pub open spec fn drawn_commands(order: Seq<(IVec3, usize)>, drawn: Seq<bool>, vertex_pull: bool, k: int) -> Seq<DrawArraysIndirectCommand>
    decreases k,
{
    if k <= 0 {
        Seq::empty()
    } else {
        drawn_commands(order, drawn, vertex_pull, k - 1) + if drawn[k - 1] {
            seq![draw_command(order, k - 1, vertex_pull)]
        } else {
            Seq::empty()
        }
    }
}

/// The voxel-grid corners of the chunks among the first `k` entries that are drawn, in order.
pub open spec fn drawn_corners(order: Seq<(IVec3, usize)>, drawn: Seq<bool>, k: int) -> Seq<IVec3>
    decreases k,
{
    if k <= 0 {
        Seq::empty()
    } else {
        drawn_corners(order, drawn, k - 1) + if drawn[k - 1] {
            let p = order[k - 1].0;
            seq![IVec3 { x: (p.x * 30) as i32, y: (p.y * 30) as i32, z: (p.z * 30) as i32 }]
        } else {
            Seq::empty()
        }
    }
}

/// A chunk position whose corner lies in the `i32` grid.
pub open spec fn corner_fits(p: IVec3) -> bool {
    &&& i32::MIN <= p.x * 30 <= i32::MAX
    &&& i32::MIN <= p.y * 30 <= i32::MAX
    &&& i32::MIN <= p.z * 30 <= i32::MAX
}

/// Whether `corner` is chunk position `p` times the chunk size, 30, on each of x, y and z.
pub open spec fn scaled_by_chunk(corner: IVec3, p: IVec3) -> bool {
    corner.x == 30 * p.x && corner.y == 30 * p.y && corner.z == 30 * p.z
}

/// Whether `corner` is the scaled chunk position (see `scaled_by_chunk`) of a drawn entry
/// among the first `k`.
pub open spec fn corner_of_drawn(order: Seq<(IVec3, usize)>, drawn: Seq<bool>, k: int, corner: IVec3) -> bool {
    exists|j: int| 0 <= j < k && drawn[j] && #[trigger] scaled_by_chunk(corner, order[j].0)
}

/// Each corner is the chunk position of a drawn entry times the chunk size, 30, on each of
/// x, y and z; and each drawn entry among the first `k` gives such a corner.
pub proof fn lemma_corners_are_scaled(order: Seq<(IVec3, usize)>, drawn: Seq<bool>, k: int)
    requires
        0 <= k <= order.len(),
        drawn.len() == order.len(),
        forall|j: int| 0 <= j < k && #[trigger] drawn[j] ==> corner_fits(order[j].0),
    ensures
        forall|c: int|
            0 <= c < drawn_corners(order, drawn, k).len() ==> #[trigger] corner_of_drawn(
                order,
                drawn,
                k,
                drawn_corners(order, drawn, k)[c],
            ),
        forall|j: int|
            0 <= j < k && #[trigger] drawn[j] ==> exists|c: int|
                0 <= c < drawn_corners(order, drawn, k).len() && #[trigger] scaled_by_chunk(
                    drawn_corners(order, drawn, k)[c],
                    order[j].0,
                ),
    decreases k,
{
    if k > 0 {
        lemma_corners_are_scaled(order, drawn, k - 1);
        let prev = drawn_corners(order, drawn, k - 1);
        let cur = drawn_corners(order, drawn, k);
        assert forall|c: int| 0 <= c < prev.len() implies cur[c] == prev[c] by {}
        assert forall|c: int| 0 <= c < cur.len() implies #[trigger] corner_of_drawn(order, drawn, k, cur[c]) by {
            if c < prev.len() {
                assert(cur[c] == prev[c]);
                assert(corner_of_drawn(order, drawn, k - 1, prev[c]));
                let j = choose|j: int| 0 <= j < k - 1 && drawn[j] && #[trigger] scaled_by_chunk(prev[c], order[j].0);
                assert(scaled_by_chunk(cur[c], order[j].0));
            } else {
                assert(drawn[k - 1]);
                assert(corner_fits(order[k - 1].0));
                assert(scaled_by_chunk(cur[c], order[k - 1].0));
            }
        }
        assert forall|j: int| 0 <= j < k && #[trigger] drawn[j] implies exists|c: int|
            0 <= c < cur.len() && #[trigger] scaled_by_chunk(cur[c], order[j].0) by {
            if j < k - 1 {
                let c = choose|c: int| 0 <= c < prev.len() && #[trigger] scaled_by_chunk(prev[c], order[j].0);
                assert(cur[c] == prev[c]);
                assert(scaled_by_chunk(cur[c], order[j].0));
            } else {
                assert(corner_fits(order[k - 1].0));
                assert(scaled_by_chunk(cur[prev.len() as int], order[j].0));
            }
        }
    }
}

/// The corners come in draw order: none for no entry, and one more entry adds the scaled
/// position of its chunk after the corners before it when it is drawn, and nothing when it
/// is not.
pub proof fn lemma_corners_in_order(order: Seq<(IVec3, usize)>, drawn: Seq<bool>, k: int)
    requires
        0 <= k < order.len(),
        drawn.len() == order.len(),
        drawn[k] ==> corner_fits(order[k].0),
    ensures
        drawn_corners(order, drawn, 0).len() == 0,
        drawn[k] ==> {
            let before = drawn_corners(order, drawn, k);
            let after = drawn_corners(order, drawn, k + 1);
            &&& after.len() == before.len() + 1
            &&& after.subrange(0, before.len() as int) == before
            &&& scaled_by_chunk(after[before.len() as int], order[k].0)
        },
        !drawn[k] ==> drawn_corners(order, drawn, k + 1) == drawn_corners(order, drawn, k),
{
    let before = drawn_corners(order, drawn, k);
    let after = drawn_corners(order, drawn, k + 1);
    if drawn[k] {
        assert(after.subrange(0, before.len() as int) =~= before);
    } else {
        assert(after =~= before);
    }
}

proof fn lemma_base_mono(order: Seq<(IVec3, usize)>, j: int, k: int)
    requires
        0 <= j <= k,
    ensures
        base_before(order, j) <= base_before(order, k),
    decreases k - j,
{
    if j < k {
        lemma_base_mono(order, j, k - 1);
    }
}

/// The corners and indirect draws for drawing the chunks of the draw order `order` (each
/// chunk's position and instance count, laid out one after another) in one call: an entry
/// that is not `drawn` (its chunk is gone or out of view) is skipped but still counts
/// toward the instances after it. The running instance count must fit a `u32`, and with
/// pulled vertices so must six times each drawn entry's count and first instance.
pub fn setup_multidraw(order: &Vec<(IVec3, usize)>, drawn: &Vec<bool>, vertex_pull: bool) -> (r: (Vec<IVec3>, Vec<DrawArraysIndirectCommand>))
    requires
        drawn@.len() == order@.len(),
        base_before(order@, order@.len() as int) <= u32::MAX,
        forall|k: int| 0 <= k < order@.len() && #[trigger] drawn@[k] ==> corner_fits(order@[k].0),
        vertex_pull ==> forall|k: int| 0 <= k < order@.len() && #[trigger] drawn@[k] ==> 6 * (order@[k].1 as u32) <= u32::MAX
            && 6 * base_before(order@, k) <= u32::MAX,
    ensures
        r.0@ == drawn_corners(order@, drawn@, order@.len() as int),
        r.1@ == drawn_commands(order@, drawn@, vertex_pull, order@.len() as int),
{
    let n = order.len();
    let mut instance: u32 = 0;
    let mut corners: Vec<IVec3> = Vec::new();
    let mut params: Vec<DrawArraysIndirectCommand> = Vec::new();
    let mut i: usize = 0;
    while i < n
        invariant
            n == order@.len(),
            drawn@.len() == n,
            i <= n,
            base_before(order@, n as int) <= u32::MAX,
            forall|k: int| 0 <= k < n && #[trigger] drawn@[k] ==> corner_fits(order@[k].0),
            vertex_pull ==> forall|k: int| 0 <= k < n && #[trigger] drawn@[k] ==> 6 * (order@[k].1 as u32) <= u32::MAX
                && 6 * base_before(order@, k) <= u32::MAX,
            instance == base_before(order@, i as int),
            corners@ == drawn_corners(order@, drawn@, i as int),
            params@ == drawn_commands(order@, drawn@, vertex_pull, i as int),
        decreases n - i,
    {
        let (pos, count) = order[i];
        proof {
            lemma_base_mono(order@, i + 1, n as int);
        }
        if drawn[i] {
            assert(corner_fits(order@[i as int].0));
            corners.push(IVec3 { x: pos.x * 30, y: pos.y * 30, z: pos.z * 30 });
            let c = count as u32;
            let cmd = if vertex_pull {
                DrawArraysIndirectCommand { vertex_count: 6 * c, instance_count: 1, first: 6 * instance, base_instance: 0 }
            } else {
                DrawArraysIndirectCommand { vertex_count: 4, instance_count: c, first: 0, base_instance: instance }
            };
            params.push(cmd);
        }
        instance = instance + (count as u32);
        assert(corners@ =~= drawn_corners(order@, drawn@, i + 1));
        assert(params@ =~= drawn_commands(order@, drawn@, vertex_pull, i + 1));
        i = i + 1;
    }
    (corners, params)
}

} // verus!

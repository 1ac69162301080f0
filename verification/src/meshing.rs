use vstd::prelude::*;

use crate::block::BlockState;
use crate::meshing_registry::MeshingAttributes;
use crate::chunk::Chunk;
use crate::registry::PropertyRegistry;
use crate::coords::{in_chunk_bounds, spec_local_index, IVec3};

verus! {

/// One of the six faces of a voxel.
#[derive(Clone, Copy, PartialEq, Eq, Structural, Debug)]
pub enum VoxelFace {
    NegativeX,
    PositiveX,
    NegativeY,
    PositiveY,
    NegativeZ,
    PositiveZ,
}

impl VoxelFace {
    /// The six faces, in the shader's order.
    pub fn all() -> (r: [VoxelFace; 6])
        ensures
            r@ == seq![
                VoxelFace::NegativeX,
                VoxelFace::PositiveX,
                VoxelFace::NegativeY,
                VoxelFace::PositiveY,
                VoxelFace::NegativeZ,
                VoxelFace::PositiveZ,
            ],
    {
        [
            VoxelFace::NegativeX,
            VoxelFace::PositiveX,
            VoxelFace::NegativeY,
            VoxelFace::PositiveY,
            VoxelFace::NegativeZ,
            VoxelFace::PositiveZ,
        ]
    }
}

/// The axis (0 = X, 1 = Y, 2 = Z) a face is perpendicular to.
pub open spec fn face_axis(f: VoxelFace) -> int {
    match f {
        VoxelFace::NegativeX | VoxelFace::PositiveX => 0,
        VoxelFace::NegativeY | VoxelFace::PositiveY => 1,
        VoxelFace::NegativeZ | VoxelFace::PositiveZ => 2,
    }
}

/// Whether a face points along the positive direction of its axis.
pub open spec fn face_positive(f: VoxelFace) -> bool {
    match f {
        VoxelFace::PositiveX | VoxelFace::PositiveY | VoxelFace::PositiveZ => true,
        _ => false,
    }
}

/// A rectangle of identical faces produced by the mesher.
/// `min` is the corner in chunk coordinates. `generate_greedy_quads` grows `width` along the
/// first in-plane axis (axis + 1, modulo 3) and `height` along the second (axis + 2,
/// modulo 3). The meshlet bounds (`crate::meshlet::quad_extent`) read the two sizes per face
/// instead: Z faces width along x and height along y, X faces width along z and height
/// along y, Y faces width along x and height along z; for X and Y faces the two readings
/// differ, and each function states the one it uses.
#[derive(Clone, Copy, Debug)]
pub struct UnpackedQuad {
    pub min: [u8; 3],
    pub width: u8,
    pub height: u8,
    pub face: VoxelFace,
    pub state: BlockState,
    pub material_id: u16,
}

/// The corner coordinate of a quad along the first in-plane axis of `axis`.
pub open spec fn quad_u(q: UnpackedQuad, axis: int) -> int {
    q.min@[(axis + 1) % 3] as int
}

/// The corner coordinate of a quad along the second in-plane axis of `axis`.
pub open spec fn quad_v(q: UnpackedQuad, axis: int) -> int {
    q.min@[(axis + 2) % 3] as int
}

/// Whether in-plane cell `(i, j)` lies in the quad's rectangle.
pub open spec fn in_rect(q: UnpackedQuad, axis: int, i: int, j: int) -> bool {
    &&& quad_u(q, axis) <= i < quad_u(q, axis) + q.width
    &&& quad_v(q, axis) <= j < quad_v(q, axis) + q.height
}

/// Cell `(i, j)` of plane `layer` on `axis` belongs to the quad.
pub open spec fn covers(q: UnpackedQuad, axis: int, layer: int, i: int, j: int) -> bool {
    &&& face_axis(q.face) == axis
    &&& q.min@[axis] as int == layer
    &&& in_rect(q, axis, i, j)
}

/// The face to emit for an axis and a direction.
pub fn get_face(axis: usize, is_positive_dir: bool) -> (f: VoxelFace)
    requires
        axis < 3,
    ensures
        f == spec_face(axis as int, is_positive_dir),
        face_axis(f) == axis,
        face_positive(f) == is_positive_dir,
{
    match (axis, is_positive_dir) {
        (0, true) => VoxelFace::PositiveX,
        (0, false) => VoxelFace::NegativeX,
        (1, true) => VoxelFace::PositiveY,
        (1, false) => VoxelFace::NegativeY,
        (2, true) => VoxelFace::PositiveZ,
        _ => VoxelFace::NegativeZ,
    }
}

/// Whether a mask cell holds exactly `t`.
fn cell_is(cell: Option<(BlockState, VoxelFace)>, t: (BlockState, VoxelFace)) -> (r: bool)
    ensures
        r == (cell == Some(t)),
{
    match cell {
        Some((s, f)) => s == t.0 && f == t.1,
        None => false,
    }
}

/// Whether `width` cells of `mask` from `start` all hold `t`.
fn row_matches(
    mask: &Vec<Option<(BlockState, VoxelFace)>>,
    start: usize,
    width: usize,
    t: (BlockState, VoxelFace),
) -> (r: bool)
    requires
        start + width <= mask.len(),
    ensures
        r == forall|k: int| 0 <= k < width ==> #[trigger] mask@[start + k] == Some(t),
{
    let mut k: usize = 0;
    while k < width
        invariant
            k <= width,
            start + width <= mask.len(),
            forall|m: int| 0 <= m < k ==> #[trigger] mask@[start + m] == Some(t),
        decreases width - k,
    {
        if !cell_is(mask[start + k], t) {
            return false;
        }
        k = k + 1;
    }
    true
}

} // verus!

verus! {

/// A layer mask: one optional face per in-plane cell, row-major (`j * 32 + i`).
pub open spec fn mask_at(mask: Seq<Option<(BlockState, VoxelFace)>>, i: int, j: int) -> Option<
    (BlockState, VoxelFace),
> {
    mask[j * 32 + i]
}

/// A quad produced for plane `layer` on `axis` from layer mask `m0`: it lies inside the
/// 32x32 plane, every cell of it holds the quad's state and face in `m0`, and its material
/// is the one registered for its state.
pub open spec fn layer_quad_ok(
    q: UnpackedQuad,
    axis: int,
    layer: int,
    registry: Seq<MeshingAttributes>,
    m0: Seq<Option<(BlockState, VoxelFace)>>,
) -> bool {
    &&& face_axis(q.face) == axis
    &&& q.min@[axis] as int == layer
    &&& q.width >= 1
    &&& q.height >= 1
    &&& quad_u(q, axis) + q.width <= 32
    &&& quad_v(q, axis) + q.height <= 32
    &&& (q.state.0 as int) < registry.len()
    &&& q.material_id == registry[q.state.0 as int].spec_material_id()
    &&& forall|i: int, j: int|
        #![trigger mask_at(m0, i, j), in_rect(q, axis, i, j)]
        in_rect(q, axis, i, j) ==> mask_at(m0, i, j) == Some((q.state, q.face))
}

spec fn cleared_before(mask: Seq<Option<(BlockState, VoxelFace)>>, i: int, j: int) -> bool {
    forall|ii: int, jj: int|
        0 <= ii < 32 && 0 <= jj < 32 && (jj < j || (jj == j && ii < i)) ==> #[trigger] mask_at(
            mask,
            ii,
            jj,
        ) is None
}

spec fn mask_within(
    mask: Seq<Option<(BlockState, VoxelFace)>>,
    m0: Seq<Option<(BlockState, VoxelFace)>>,
) -> bool {
    forall|ii: int, jj: int|
        0 <= ii < 32 && 0 <= jj < 32 ==> (#[trigger] mask_at(mask, ii, jj) is None || mask_at(
            mask,
            ii,
            jj,
        ) == mask_at(m0, ii, jj))
}

spec fn new_quads_ok(
    quads: Seq<UnpackedQuad>,
    q0: int,
    axis: int,
    layer: int,
    registry: Seq<MeshingAttributes>,
    m0: Seq<Option<(BlockState, VoxelFace)>>,
) -> bool {
    forall|k: int| q0 <= k < quads.len() ==> layer_quad_ok(#[trigger] quads[k], axis, layer, registry, m0)
}

spec fn live_uncovered(
    mask: Seq<Option<(BlockState, VoxelFace)>>,
    quads: Seq<UnpackedQuad>,
    q0: int,
    axis: int,
) -> bool {
    forall|k: int, ii: int, jj: int|
        q0 <= k < quads.len() && 0 <= ii < 32 && 0 <= jj < 32 && #[trigger] mask_at(mask, ii, jj) is Some
            ==> !#[trigger] in_rect(quads[k], axis, ii, jj)
}

spec fn removed_covered(
    mask: Seq<Option<(BlockState, VoxelFace)>>,
    m0: Seq<Option<(BlockState, VoxelFace)>>,
    quads: Seq<UnpackedQuad>,
    q0: int,
    axis: int,
) -> bool {
    forall|ii: int, jj: int|
        0 <= ii < 32 && 0 <= jj < 32 && #[trigger] mask_at(m0, ii, jj) is Some && mask_at(mask, ii, jj) is None
            ==> exists|k: int| q0 <= k < quads.len() && #[trigger] in_rect(quads[k], axis, ii, jj)
}

/// Some quad of `quads` from position `q0` on has taken in-plane cell `(i, j)`.
spec fn taken(quads: Seq<UnpackedQuad>, q0: int, axis: int, i: int, j: int) -> bool {
    exists|k: int| q0 <= k < quads.len() && #[trigger] in_rect(quads[k], axis, i, j)
}

/// Cell `(i, j)` holds `t` in mask `m0` and no quad of `quads` from `q0` on has taken it.
spec fn open_in(
    m0: Seq<Option<(BlockState, VoxelFace)>>,
    quads: Seq<UnpackedQuad>,
    q0: int,
    axis: int,
    i: int,
    j: int,
    t: (BlockState, VoxelFace),
) -> bool {
    mask_at(m0, i, j) == Some(t) && !taken(quads, q0, axis, i, j)
}

/// `q`, emitted after `before`, is the greedy choice in layer mask `m0`: its corner is the
/// first cell, in row order, that holds a face no earlier quad has taken; it is as wide as
/// the open cells of its face run along that row, and as tall as whole open rows of that
/// width allow.
spec fn greedy_step(
    before: Seq<UnpackedQuad>,
    q0: int,
    q: UnpackedQuad,
    axis: int,
    m0: Seq<Option<(BlockState, VoxelFace)>>,
) -> bool {
    let u = quad_u(q, axis);
    let v = quad_v(q, axis);
    let t = (q.state, q.face);
    &&& forall|i: int, j: int|
        0 <= i < 32 && 0 <= j < 32 && (j < v || (j == v && i < u)) && (#[trigger] mask_at(m0, i, j)) is Some
            ==> taken(before, q0, axis, i, j)
    &&& (u + q.width == 32 || !open_in(m0, before, q0, axis, u + q.width, v, t))
    &&& (v + q.height == 32 || exists|i: int|
        u <= i < u + q.width && !#[trigger] open_in(m0, before, q0, axis, i, v + q.height, t))
}

/// Every quad from position `q0` on is the greedy choice after the ones before it.
spec fn greedy_from(
    quads: Seq<UnpackedQuad>,
    q0: int,
    axis: int,
    m0: Seq<Option<(BlockState, VoxelFace)>>,
) -> bool {
    forall|k: int| q0 <= k < quads.len() ==> greedy_step(quads.take(k), q0, #[trigger] quads[k], axis, m0)
}

spec fn disjoint_from(quads: Seq<UnpackedQuad>, q0: int, axis: int) -> bool {
    forall|k1: int, k2: int, ii: int, jj: int|
        q0 <= k1 < k2 < quads.len() ==> !(#[trigger] in_rect(quads[k1], axis, ii, jj) && #[trigger] in_rect(
            quads[k2],
            axis,
            ii,
            jj,
        ))
}

} // verus!

verus! {

/// The corner of a quad: `layer` on `axis`, `i` and `j` on the two in-plane axes.
fn quad_corner(axis: usize, i: u8, j: u8, layer: u8) -> (r: [u8; 3])
    requires
        axis < 3,
    ensures
        r@.len() == 3,
        r@[axis as int] == layer,
        r@[(axis + 1) % 3] == i,
        r@[(axis + 2) % 3] == j,
{
    if axis == 0 {
        [layer, i, j]
    } else if axis == 1 {
        [j, layer, i]
    } else {
        [i, j, layer]
    }
}

/// Clears the `width` x `height` rectangle of cells with corner `(i, j)`.
fn clear_rect(
    mask: &mut Vec<Option<(BlockState, VoxelFace)>>,
    i: usize,
    j: usize,
    width: usize,
    height: usize,
)
    requires
        old(mask)@.len() == 1024,
        i + width <= 32,
        j + height <= 32,
    ensures
        final(mask)@.len() == 1024,
        forall|ii: int, jj: int|
            0 <= ii < 32 && 0 <= jj < 32 ==> #[trigger] mask_at(final(mask)@, ii, jj) == if i <= ii
                < i + width && j <= jj < j + height {
                None
            } else {
                mask_at(old(mask)@, ii, jj)
            },
{
    let ghost before = mask@;
    let mut l: usize = 0;
    while l < height
        invariant
            l <= height,
            i + width <= 32,
            j + height <= 32,
            mask@.len() == 1024,
            before.len() == 1024,
            forall|ii: int, jj: int|
                0 <= ii < 32 && 0 <= jj < 32 ==> #[trigger] mask_at(mask@, ii, jj) == if i <= ii < i
                    + width && j <= jj < j + l {
                    None
                } else {
                    mask_at(before, ii, jj)
                },
        decreases height - l,
    {
        let mut m: usize = 0;
        while m < width
            invariant
                l < height,
                m <= width,
                i + width <= 32,
                j + height <= 32,
                mask@.len() == 1024,
                before.len() == 1024,
                forall|ii: int, jj: int|
                    0 <= ii < 32 && 0 <= jj < 32 ==> #[trigger] mask_at(mask@, ii, jj) == if (i <= ii
                        < i + width && j <= jj < j + l) || (i <= ii < i + m && jj == j + l) {
                        None
                    } else {
                        mask_at(before, ii, jj)
                    },
            decreases width - m,
        {
            let ghost prev = mask@;
            mask.set((j + l) * 32 + i + m, None);
            proof {
                assert forall|ii: int, jj: int| 0 <= ii < 32 && 0 <= jj < 32 implies #[trigger] mask_at(
                    mask@,
                    ii,
                    jj,
                ) == if (i <= ii < i + width && j <= jj < j + l) || (i <= ii < i + m + 1 && jj == j
                    + l) {
                    None
                } else {
                    mask_at(before, ii, jj)
                } by {
                    if jj * 32 + ii != (j + l) * 32 + i + m {
                        assert(mask_at(mask@, ii, jj) == mask_at(prev, ii, jj));
                    } else {
                        assert(jj == j + l && ii == i + m);
                    }
                }
            }
            m = m + 1;
        }
        l = l + 1;
    }
}

} // verus!

verus! {

/// Greedily merges the faces of one layer mask into quads, appending them to `quads`:
/// scanning cells row by row, each remaining face grows as wide as its row allows and then
/// as tall as whole rows of that width allow; its cells are then cleared.
#[verifier::spinoff_prover]
fn greedy_layer(
    mask: &mut Vec<Option<(BlockState, VoxelFace)>>,
    axis: usize,
    layer: u8,
    registry: &[MeshingAttributes],
    quads: &mut Vec<UnpackedQuad>,
)
    requires
        old(mask)@.len() == 1024,
        axis < 3,
        layer <= 32,
        forall|c: int|
            0 <= c < 1024 ==> (#[trigger] old(mask)@[c] matches Some((s, f)) ==> face_axis(f)
                == axis && (s.0 as int) < registry@.len()),
    ensures
        final(quads)@.len() >= old(quads)@.len(),
        final(quads)@.take(old(quads)@.len() as int) == old(quads)@,
        new_quads_ok(final(quads)@, old(quads)@.len() as int, axis as int, layer as int, registry@, old(mask)@),
        forall|ii: int, jj: int|
            0 <= ii < 32 && 0 <= jj < 32 && #[trigger] mask_at(old(mask)@, ii, jj) is Some ==> exists|k: int|
                old(quads)@.len() <= k < final(quads)@.len() && #[trigger] in_rect(final(quads)@[k], axis as int, ii, jj),
        disjoint_from(final(quads)@, old(quads)@.len() as int, axis as int),
        greedy_from(final(quads)@, old(quads)@.len() as int, axis as int, old(mask)@),
{
    let ghost m0 = mask@;
    let ghost q0 = quads@.len() as int;
    let ghost qs0 = quads@;
    let ghost a = axis as int;
    let mut n: usize = 0;
    let mut j: usize = 0;
    while j < 32
        invariant
            j <= 32,
            n == j * 32,
            a == axis as int,
            q0 >= 0,
            axis < 3,
            layer <= 32,
            mask@.len() == 1024,
            m0.len() == 1024,
            forall|c: int|
                0 <= c < 1024 ==> (#[trigger] m0[c] matches Some((s, f)) ==> face_axis(f) == axis && (
                s.0 as int) < registry@.len()),
            quads@.len() >= q0,
            quads@.take(q0) == qs0,
            cleared_before(mask@, 0, j as int),
            mask_within(mask@, m0),
            new_quads_ok(quads@, q0, a, layer as int, registry@, m0),
            live_uncovered(mask@, quads@, q0, a),
            removed_covered(mask@, m0, quads@, q0, a),
            disjoint_from(quads@, q0, a),
            greedy_from(quads@, q0, a, m0),
        decreases 32 - j,
    {
        let mut i: usize = 0;
        while i < 32
            invariant
                j < 32,
                i <= 32,
                n == j * 32 + i,
                a == axis as int,
                q0 >= 0,
                axis < 3,
                layer <= 32,
                mask@.len() == 1024,
                m0.len() == 1024,
                forall|c: int|
                    0 <= c < 1024 ==> (#[trigger] m0[c] matches Some((s, f)) ==> face_axis(f) == axis
                        && (s.0 as int) < registry@.len()),
                quads@.len() >= q0,
                quads@.take(q0) == qs0,
                cleared_before(mask@, i as int, j as int),
                mask_within(mask@, m0),
                new_quads_ok(quads@, q0, a, layer as int, registry@, m0),
                live_uncovered(mask@, quads@, q0, a),
                removed_covered(mask@, m0, quads@, q0, a),
                disjoint_from(quads@, q0, a),
                greedy_from(quads@, q0, a, m0),
            decreases 32 - i,
        {
            match mask[n] {
                Some(t) => {
                    assert(mask_at(mask@, i as int, j as int) == Some(t));
                    let mut width: usize = 1;
                    while i + width < 32 && cell_is(mask[n + width], t)
                        invariant
                            1 <= width,
                            i + width <= 32,
                            j < 32,
                            n == j * 32 + i,
                            mask@.len() == 1024,
                            forall|ii: int|
                                i <= ii < i + width ==> #[trigger] mask_at(mask@, ii, j as int) == Some(t),
                        decreases 32 - width,
                    {
                        assert(mask_at(mask@, i + width, j as int) == mask@[n + width as int]);
                        width = width + 1;
                    }
                    let mut height: usize = 1;
                    while j + height < 32 && row_matches(mask, n + height * 32, width, t)
                        invariant
                            1 <= width,
                            1 <= height,
                            i + width <= 32,
                            j + height <= 32,
                            n == j * 32 + i,
                            mask@.len() == 1024,
                            forall|ii: int, jj: int|
                                i <= ii < i + width && j <= jj < j + height ==> #[trigger] mask_at(mask@, ii, jj)
                                    == Some(t),
                        decreases 32 - height,
                    {
                        assert forall|ii: int, jj: int|
                            i <= ii < i + width && j <= jj < j + height + 1 implies #[trigger] mask_at(
                            mask@,
                            ii,
                            jj,
                        ) == Some(t) by {
                            if jj == j + height {
                                assert(mask_at(mask@, ii, jj) == mask@[(n + height * 32) + (ii - i)]);
                            }
                        }
                        height = height + 1;
                    }
                    let (target_state, target_face) = t;
                    proof {
                        assert(m0[j * 32 + i] == mask_at(m0, i as int, j as int));
                        assert(mask_at(m0, i as int, j as int) == Some(t));
                    }
                    let min = quad_corner(axis, i as u8, j as u8, layer);
                    let material_id = registry[target_state.0 as usize].material_id();
                    let quad = UnpackedQuad {
                        min,
                        width: width as u8,
                        height: height as u8,
                        face: target_face,
                        state: target_state,
                        material_id,
                    };
                    let ghost mask_pre = mask@;
                    let ghost quads_pre = quads@;
                    proof {
                        assert(quad.width as int == width);
                        assert(quad.height as int == height);
                        assert(quad.min@[(a + 1) % 3] == i as u8);
                        assert(quad_u(quad, a) == i);
                        assert(quad_v(quad, a) == j);
                        assert forall|ii: int, jj: int|
                            #![trigger mask_at(m0, ii, jj), in_rect(quad, a, ii, jj)]
                            in_rect(quad, a, ii, jj) implies mask_at(m0, ii, jj) == Some((quad.state, quad.face)) by {
                            assert(mask_at(mask@, ii, jj) == Some(t));
                        }
                        assert(layer_quad_ok(quad, a, layer as int, registry@, m0));
                        assert forall|ii: int, jj: int|
                            0 <= ii < 32 && 0 <= jj < 32 && (jj < j || (jj == j && ii < i)) && (
                            #[trigger] mask_at(m0, ii, jj)) is Some implies taken(quads@, q0, a, ii, jj) by {
                            assert(mask_at(mask@, ii, jj) is None);
                        }
                        if i + width < 32 {
                            assert(mask_at(mask@, i + width, j as int) == mask@[n + width as int]);
                            assert(!open_in(m0, quads@, q0, a, i + width, j as int, t)) by {
                                if mask_at(m0, i + width, j as int) == Some(t) {
                                    if mask_at(mask@, i + width, j as int) is None {
                                        assert(taken(quads@, q0, a, i + width, j as int));
                                    }
                                }
                            }
                        }
                        if j + height < 32 {
                            let m = choose|m: int|
                                0 <= m < width && #[trigger] mask@[(n + height * 32) + m] != Some(t);
                            assert(mask_at(mask@, i + m, j + height) == mask@[(n + height * 32) + m]);
                            assert(!open_in(m0, quads@, q0, a, i + m, j + height, t)) by {
                                if mask_at(m0, i + m, j + height) == Some(t) {
                                    if mask_at(mask@, i + m, j + height) is None {
                                        assert(taken(quads@, q0, a, i + m, j + height));
                                    }
                                }
                            }
                        }
                        assert(greedy_step(quads@, q0, quad, a, m0));
                    }
                    quads.push(quad);
                    clear_rect(mask, i, j, width, height);
                    proof {
                        let kq = quads_pre.len() as int;
                        assert(quads@.take(q0) =~= qs0) by {
                            assert(quads@.take(q0) =~= quads_pre.take(q0));
                        }
                        assert forall|k: int| q0 <= k < quads@.len() implies layer_quad_ok(
                            #[trigger] quads@[k],
                            a,
                            layer as int,
                            registry@,
                            m0,
                        ) by {
                            if k < kq {
                                assert(quads@[k] == quads_pre[k]);
                            }
                        }
                        assert forall|ii: int, jj: int|
                            0 <= ii < 32 && 0 <= jj < 32 && (jj < j || (jj == j && ii < i + width))
                            implies #[trigger] mask_at(mask@, ii, jj) is None by {
                            if !(i <= ii < i + width && j <= jj < j + height) {
                                assert(mask_at(mask@, ii, jj) == mask_at(mask_pre, ii, jj));
                            }
                        }
                        assert forall|ii: int, jj: int| 0 <= ii < 32 && 0 <= jj < 32 implies (
                        #[trigger] mask_at(mask@, ii, jj) is None || mask_at(mask@, ii, jj) == mask_at(
                            m0,
                            ii,
                            jj,
                        )) by {
                            assert(mask_at(mask_pre, ii, jj) is None || mask_at(mask_pre, ii, jj)
                                == mask_at(m0, ii, jj));
                        }
                        assert forall|k: int, ii: int, jj: int|
                            q0 <= k < quads@.len() && 0 <= ii < 32 && 0 <= jj < 32 && #[trigger] mask_at(
                                mask@,
                                ii,
                                jj,
                            ) is Some implies !#[trigger] in_rect(quads@[k], a, ii, jj) by {
                            assert(mask_at(mask@, ii, jj) == mask_at(mask_pre, ii, jj));
                            if k < kq {
                                assert(quads@[k] == quads_pre[k]);
                            }
                        }
                        assert forall|ii: int, jj: int|
                            0 <= ii < 32 && 0 <= jj < 32 && #[trigger] mask_at(m0, ii, jj) is Some
                                && mask_at(mask@, ii, jj) is None implies exists|k: int|
                            q0 <= k < quads@.len() && #[trigger] in_rect(quads@[k], a, ii, jj) by {
                            if i <= ii < i + width && j <= jj < j + height {
                                assert(in_rect(quads@[kq], a, ii, jj));
                            } else {
                                assert(mask_at(mask@, ii, jj) == mask_at(mask_pre, ii, jj));
                                let k = choose|k: int| q0 <= k < quads_pre.len() && #[trigger] in_rect(quads_pre[k], a, ii, jj);
                                assert(quads@[k] == quads_pre[k]);
                            }
                        }
                        assert forall|k: int| q0 <= k < quads@.len() implies greedy_step(
                            quads@.take(k),
                            q0,
                            #[trigger] quads@[k],
                            a,
                            m0,
                        ) by {
                            if k < kq {
                                assert(quads@.take(k) =~= quads_pre.take(k));
                                assert(quads@[k] == quads_pre[k]);
                            } else {
                                assert(quads@.take(k) =~= quads_pre);
                            }
                        }
                        assert forall|k1: int, k2: int, ii: int, jj: int|
                            q0 <= k1 < k2 < quads@.len() implies !(#[trigger] in_rect(quads@[k1], a, ii, jj)
                                && #[trigger] in_rect(quads@[k2], a, ii, jj)) by {
                            assert(quads@[k1] == quads_pre[k1]);
                            if k2 < kq {
                                assert(quads@[k2] == quads_pre[k2]);
                            } else if in_rect(quads@[k2], a, ii, jj) {
                                assert(mask_at(mask_pre, ii, jj) == Some(t));
                            }
                        }
                    }
                    i = i + width;
                    n = n + width;
                },
                None => {
                    assert(mask_at(mask@, i as int, j as int) is None);
                    i = i + 1;
                    n = n + 1;
                },
            }
        }
        j = j + 1;
    }
    proof {
        assert forall|ii: int, jj: int|
            0 <= ii < 32 && 0 <= jj < 32 && #[trigger] mask_at(m0, ii, jj) is Some implies exists|k: int|
                q0 <= k < quads@.len() && #[trigger] in_rect(quads@[k], a, ii, jj) by {
            assert(mask_at(mask@, ii, jj) is None);
        }
    }
}

} // verus!

verus! {

/// The face for an axis and a direction.
pub open spec fn spec_face(axis: int, positive: bool) -> VoxelFace {
    if axis == 0 {
        if positive {
            VoxelFace::PositiveX
        } else {
            VoxelFace::NegativeX
        }
    } else if axis == 1 {
        if positive {
            VoxelFace::PositiveY
        } else {
            VoxelFace::NegativeY
        }
    } else {
        if positive {
            VoxelFace::PositiveZ
        } else {
            VoxelFace::NegativeZ
        }
    }
}

/// Owned copies of a chunk and its six neighbours, for meshing off the main thread.
/// Neighbours are ordered -X, +X, -Y, +Y, -Z, +Z.
pub struct MeshingContext {
    pub center: Chunk,
    pub neighbors: [Option<Chunk>; 6],
}

/// Where a coordinate just outside the chunk is looked up: the neighbour slot and the
/// coordinate inside that neighbour.
pub open spec fn route(local: IVec3) -> (int, IVec3) {
    if local.x < 0 {
        (0, IVec3 { x: 31, y: local.y, z: local.z })
    } else if local.x > 31 {
        (1, IVec3 { x: 0, y: local.y, z: local.z })
    } else if local.y < 0 {
        (2, IVec3 { x: local.x, y: 31, z: local.z })
    } else if local.y > 31 {
        (3, IVec3 { x: local.x, y: 0, z: local.z })
    } else if local.z < 0 {
        (4, IVec3 { x: local.x, y: local.y, z: 31 })
    } else {
        (5, IVec3 { x: local.x, y: local.y, z: 0 })
    }
}

impl MeshingContext {
    /// Every chunk in the context is well formed.
    pub open spec fn wf(self) -> bool {
        &&& self.center.data.wf()
        &&& forall|k: int|
            0 <= k < 6 ==> (#[trigger] self.neighbors@[k] matches Some(c) ==> c.data.wf())
    }

    /// Every state in the context, and air, has an entry among the first `n` registry slots.
    pub open spec fn states_below(self, n: int) -> bool {
        &&& 0 < n
        &&& forall|i: int| 0 <= i < 32768 ==> (#[trigger] self.center.data.block_at(i).0 as int) < n
        &&& forall|k: int, i: int|
            0 <= k < 6 && 0 <= i < 32768 && self.neighbors@[k] is Some ==> (
            #[trigger] self.neighbors@[k].unwrap().data.block_at(i).0 as int) < n
    }

    /// The block at a coordinate of the center chunk or one step beyond it: coordinates
    /// outside the center go to the neighbour they fall in; a missing neighbour, or a
    /// coordinate that is outside that neighbour too, reads as air.
    pub open spec fn extended_block(self, local: IVec3) -> BlockState {
        if in_chunk_bounds(local) {
            self.center.data.block_at(spec_local_index(local))
        } else {
            let (n, routed) = route(local);
            match self.neighbors@[n] {
                Some(c) => if in_chunk_bounds(routed) {
                    c.data.block_at(spec_local_index(routed))
                } else {
                    BlockState(0)
                },
                None => BlockState(0),
            }
        }
    }

    /// Resolves a block request, crossing into a neighbouring chunk when needed.
    pub fn get_block_extended(&self, local: IVec3) -> (r: BlockState)
        requires
            self.wf(),
        ensures
            r == self.extended_block(local),
    {
        if 0 <= local.x && local.x < 32 && 0 <= local.y && local.y < 32 && 0 <= local.z && local.z
            < 32 {
            return match self.center.get_block(local) {
                Ok(s) => s,
                Err(_) => BlockState(0),
            };
        }
        let (neighbor_idx, routed_local) = if local.x < 0 {
            (0usize, IVec3::new(31, local.y, local.z))
        } else if local.x > 31 {
            (1usize, IVec3::new(0, local.y, local.z))
        } else if local.y < 0 {
            (2usize, IVec3::new(local.x, 31, local.z))
        } else if local.y > 31 {
            (3usize, IVec3::new(local.x, 0, local.z))
        } else if local.z < 0 {
            (4usize, IVec3::new(local.x, local.y, 31))
        } else {
            (5usize, IVec3::new(local.x, local.y, 0))
        };
        match &self.neighbors[neighbor_idx] {
            Some(neighbor_chunk) => {
                assert(self.neighbors@[neighbor_idx as int] matches Some(c) ==> c.data.wf());
                match neighbor_chunk.get_block(routed_local) {
                    Ok(s) => s,
                    Err(_) => BlockState(0),
                }
            },
            None => BlockState(0),
        }
    }

    /// Whether every state of the context, and air, lies below `n`: the condition for a
    /// registry of `n` entries to cover the context.
    pub fn states_fit(&self, n: usize) -> (r: bool)
        requires
            self.wf(),
        ensures
            r == self.states_below(n as int),
    {
        if n == 0 {
            return false;
        }
        if !chunk_states_below(&self.center, n) {
            return false;
        }
        let mut k: usize = 0;
        while k < 6
            invariant
                k <= 6,
                0 < n,
                self.wf(),
                forall|i: int| 0 <= i < 32768 ==> (#[trigger] self.center.data.block_at(i).0 as int) < n,
                forall|kk: int, i: int|
                    0 <= kk < k && 0 <= i < 32768 && self.neighbors@[kk] is Some ==> (
                    #[trigger] self.neighbors@[kk].unwrap().data.block_at(i).0 as int) < n,
            decreases 6 - k,
        {
            match &self.neighbors[k] {
                Some(c) => {
                    assert(self.neighbors@[k as int] matches Some(c) ==> c.data.wf());
                    if !chunk_states_below(c, n) {
                        assert(!self.states_below(n as int)) by {
                            let i = choose|i: int|
                                0 <= i < 32768 && !((c.data.block_at(i).0 as int) < n);
                            assert(self.neighbors@[k as int].unwrap().data.block_at(i) == c.data.block_at(i));
                        }
                        return false;
                    }
                },
                None => {},
            }
            k = k + 1;
        }
        true
    }
}

/// Whether every block of a chunk has a state below `n`.
fn chunk_states_below(c: &Chunk, n: usize) -> (r: bool)
    requires
        c.data.wf(),
    ensures
        r == forall|i: int| 0 <= i < 32768 ==> (#[trigger] c.data.block_at(i).0 as int) < n,
{
    let mut i: usize = 0;
    while i < 32768
        invariant
            c.data.wf(),
            i <= 32768,
            forall|j: int| 0 <= j < i ==> (#[trigger] c.data.block_at(j).0 as int) < n,
        decreases 32768 - i,
    {
        if c.get_block_unchecked(i).0 as usize >= n {
            return false;
        }
        i = i + 1;
    }
    true
}

} // verus!

verus! {

/// The coordinate that is `w` along `axis`, `i` along its first in-plane axis and `j` along
/// its second.
pub open spec fn axis_pos(axis: int, w: int, i: int, j: int) -> IVec3 {
    if axis == 0 {
        IVec3 { x: w as i32, y: i as i32, z: j as i32 }
    } else if axis == 1 {
        IVec3 { x: j as i32, y: w as i32, z: i as i32 }
    } else {
        IVec3 { x: i as i32, y: j as i32, z: w as i32 }
    }
}

/// The face (if any) between the block just below plane `layer` and the block at `layer`,
/// at in-plane cell `(i, j)`: a visible block facing a transparent, different one shows the
/// face pointing away from it.
pub open spec fn face_cell(
    ctx: MeshingContext,
    registry: Seq<MeshingAttributes>,
    axis: int,
    layer: int,
    i: int,
    j: int,
) -> Option<(BlockState, VoxelFace)> {
    let cur = ctx.extended_block(axis_pos(axis, layer - 1, i, j));
    let next = ctx.extended_block(axis_pos(axis, layer, i, j));
    let ca = registry[cur.0 as int];
    let na = registry[next.0 as int];
    if ca.spec_visible() && na.spec_transparent() && cur != next {
        Some((cur, spec_face(axis, true)))
    } else if na.spec_visible() && ca.spec_transparent() && cur != next {
        Some((next, spec_face(axis, false)))
    } else {
        None
    }
}

proof fn lemma_extended_below(ctx: MeshingContext, n: int, local: IVec3)
    requires
        ctx.states_below(n),
    ensures
        (ctx.extended_block(local).0 as int) < n,
{
    if in_chunk_bounds(local) {
        assert((ctx.center.data.block_at(spec_local_index(local)).0 as int) < n);
    } else {
        let (k, routed) = route(local);
        if ctx.neighbors@[k] is Some && in_chunk_bounds(routed) {
            assert((ctx.neighbors@[k].unwrap().data.block_at(spec_local_index(routed)).0 as int)
                < n);
        }
    }
}

/// The coordinate that is `w` along `axis`, `i` and `j` along the in-plane axes.
fn axis_position(axis: usize, w: i32, i: i32, j: i32) -> (r: IVec3)
    requires
        axis < 3,
    ensures
        r == axis_pos(axis as int, w as int, i as int, j as int),
{
    if axis == 0 {
        IVec3::new(w, i, j)
    } else if axis == 1 {
        IVec3::new(j, w, i)
    } else {
        IVec3::new(i, j, w)
    }
}

/// The face mask of plane `layer` on `axis`.
fn build_mask(ctx: &MeshingContext, registry: &Vec<MeshingAttributes>, axis: usize, layer: i32) -> (mask:
    Vec<Option<(BlockState, VoxelFace)>>)
    requires
        ctx.wf(),
        ctx.states_below(registry@.len() as int),
        axis < 3,
        0 <= layer <= 32,
    ensures
        mask@.len() == 1024,
        forall|i: int, j: int|
            0 <= i < 32 && 0 <= j < 32 ==> #[trigger] mask_at(mask@, i, j) == face_cell(
                *ctx,
                registry@,
                axis as int,
                layer as int,
                i,
                j,
            ),
        forall|c: int|
            0 <= c < 1024 ==> (#[trigger] mask@[c] matches Some((s, f)) ==> face_axis(f) == axis
                && (s.0 as int) < registry@.len()),
{
    let mut mask: Vec<Option<(BlockState, VoxelFace)>> = Vec::with_capacity(1024);
    let mut j: usize = 0;
    while j < 32
        invariant
            j <= 32,
            mask@.len() == j * 32,
            ctx.wf(),
            ctx.states_below(registry@.len() as int),
            axis < 3,
            0 <= layer <= 32,
            forall|c: int|
                0 <= c < mask@.len() ==> (#[trigger] mask@[c] matches Some((s, f)) ==> face_axis(f)
                    == axis && (s.0 as int) < registry@.len()),
            forall|ii: int, jj: int|
                0 <= ii < 32 && 0 <= jj < j ==> #[trigger] mask_at(mask@, ii, jj) == face_cell(
                    *ctx,
                    registry@,
                    axis as int,
                    layer as int,
                    ii,
                    jj,
                ),
        decreases 32 - j,
    {
        let mut i: usize = 0;
        while i < 32
            invariant
                j < 32,
                i <= 32,
                mask@.len() == j * 32 + i,
                ctx.wf(),
                ctx.states_below(registry@.len() as int),
                axis < 3,
                0 <= layer <= 32,
                forall|c: int|
                    0 <= c < mask@.len() ==> (#[trigger] mask@[c] matches Some((s, f)) ==> face_axis(
                        f,
                    ) == axis && (s.0 as int) < registry@.len()),
                forall|ii: int, jj: int|
                    0 <= ii < 32 && 0 <= jj < 32 && (jj < j || (jj == j && ii < i)) ==> #[trigger] mask_at(
                        mask@,
                        ii,
                        jj,
                    ) == face_cell(*ctx, registry@, axis as int, layer as int, ii, jj),
            decreases 32 - i,
        {
            let current_local = axis_position(axis, layer - 1, i as i32, j as i32);
            let next_local = axis_position(axis, layer, i as i32, j as i32);
            let state_current = ctx.get_block_extended(current_local);
            let state_next = ctx.get_block_extended(next_local);
            proof {
                lemma_extended_below(*ctx, registry@.len() as int, current_local);
                lemma_extended_below(*ctx, registry@.len() as int, next_local);
            }
            let current_attr = registry[state_current.0 as usize];
            let next_attr = registry[state_next.0 as usize];
            let identical_blocks = state_current == state_next;
            let cell = if current_attr.is_visible() && next_attr.is_transparent() && !identical_blocks {
                Some((state_current, get_face(axis, true)))
            } else if next_attr.is_visible() && current_attr.is_transparent() && !identical_blocks {
                Some((state_next, get_face(axis, false)))
            } else {
                None
            };
            let ghost prev = mask@;
            mask.push(cell);
            proof {
                assert forall|ii: int, jj: int|
                    0 <= ii < 32 && 0 <= jj < 32 && (jj < j || (jj == j && ii < i + 1)) implies #[trigger] mask_at(
                    mask@,
                    ii,
                    jj,
                ) == face_cell(*ctx, registry@, axis as int, layer as int, ii, jj) by {
                    if jj == j && ii == i {
                        assert(mask_at(mask@, ii, jj) == cell);
                    } else {
                        assert(mask_at(mask@, ii, jj) == mask_at(prev, ii, jj));
                    }
                }
            }
            i = i + 1;
        }
        j = j + 1;
    }
    mask
}

} // verus!

verus! {

/// A quad emitted by the mesher for this context and registry: it lies inside its plane
/// (`min` on its face's axis, at most 32), spans at least one cell, takes its material from
/// the registry, and every cell it covers shows exactly its state and face.
pub open spec fn quad_in_place(
    ctx: MeshingContext,
    registry: Seq<MeshingAttributes>,
    q: UnpackedQuad,
) -> bool {
    let a = face_axis(q.face);
    let l = q.min@[a] as int;
    &&& l <= 32
    &&& q.width >= 1
    &&& q.height >= 1
    &&& quad_u(q, a) + q.width <= 32
    &&& quad_v(q, a) + q.height <= 32
    &&& (q.state.0 as int) < registry.len()
    &&& q.material_id == registry[q.state.0 as int].spec_material_id()
    &&& forall|i: int, j: int|
        #![trigger in_rect(q, a, i, j)]
        in_rect(q, a, i, j) ==> face_cell(ctx, registry, a, l, i, j) == Some((q.state, q.face))
}

/// A greedy step within one layer is the greedy choice on the whole quad list, when the quads
/// before the layer lie on earlier planes.
proof fn lemma_layer_greedy(
    ctx: MeshingContext,
    reg: Seq<MeshingAttributes>,
    quads: Seq<UnpackedQuad>,
    q0: int,
    k: int,
    a: int,
    layer: int,
    m0: Seq<Option<(BlockState, VoxelFace)>>,
)
    requires
        0 <= q0 <= k < quads.len(),
        0 <= a < 3,
        forall|i: int, j: int|
            0 <= i < 32 && 0 <= j < 32 ==> #[trigger] mask_at(m0, i, j) == face_cell(ctx, reg, a, layer, i, j),
        forall|kk: int| 0 <= kk < q0 ==> face_axis(#[trigger] quads[kk].face) < a || (face_axis(
            quads[kk].face,
        ) == a && quads[kk].min@[a] < layer),
        forall|kk: int| q0 <= kk < quads.len() ==> layer_quad_ok(#[trigger] quads[kk], a, layer, reg, m0),
        greedy_step(quads.take(k), q0, quads[k], a, m0),
    ensures
        greedy_choice(ctx, reg, quads.take(k), quads[k]),
{
    let q = quads[k];
    let before = quads.take(k);
    assert(layer_quad_ok(q, a, layer, reg, m0));
    assert forall|i: int, j: int| taken(before, q0, a, i, j) <==> covered_by(before, a, layer, i, j) by {
        if taken(before, q0, a, i, j) {
            let kk = choose|kk: int| q0 <= kk < before.len() && #[trigger] in_rect(before[kk], a, i, j);
            assert(layer_quad_ok(quads[kk], a, layer, reg, m0));
            assert(covers(before[kk], a, layer, i, j));
        }
        if covered_by(before, a, layer, i, j) {
            let kk = choose|kk: int| 0 <= kk < before.len() && #[trigger] covers(before[kk], a, layer, i, j);
            assert(before[kk] == quads[kk]);
            if kk < q0 {
                assert(face_axis(quads[kk].face) < a || (face_axis(quads[kk].face) == a && quads[kk].min@[a]
                    < layer));
            }
            assert(in_rect(before[kk], a, i, j));
        }
    }
    let u = quad_u(q, a);
    let v = quad_v(q, a);
    let t = (q.state, q.face);
    assert forall|i: int, j: int|
        0 <= i < 32 && 0 <= j < 32 && (j < v || (j == v && i < u)) && (#[trigger] face_cell(
            ctx,
            reg,
            a,
            layer,
            i,
            j,
        )) is Some implies covered_by(before, a, layer, i, j) by {
        assert(mask_at(m0, i, j) is Some);
        assert(taken(before, q0, a, i, j));
    }
    if u + q.width != 32 {
        assert(!open_in(m0, before, q0, a, u + q.width, v, t));
        assert(0 <= u + q.width < 32 && 0 <= v < 32);
        assert(mask_at(m0, u + q.width, v) == face_cell(ctx, reg, a, layer, u + q.width, v));
        assert(!open_face(ctx, reg, before, a, layer, u + q.width, v, t));
    }
    if v + q.height != 32 {
        let i = choose|i: int| u <= i < u + q.width && !#[trigger] open_in(m0, before, q0, a, i, v + q.height, t);
        assert(mask_at(m0, i, v + q.height) == face_cell(ctx, reg, a, layer, i, v + q.height));
        assert(!open_face(ctx, reg, before, a, layer, i, v + q.height, t));
    }
}

/// Appending the quads of one layer keeps the quad list plane-ordered and greedy.
proof fn lemma_layer_step(
    ctx: MeshingContext,
    reg: Seq<MeshingAttributes>,
    pre: Seq<UnpackedQuad>,
    quads: Seq<UnpackedQuad>,
    a: int,
    layer: int,
    m0: Seq<Option<(BlockState, VoxelFace)>>,
)
    requires
        0 <= a < 3,
        forall|i: int, j: int|
            0 <= i < 32 && 0 <= j < 32 ==> #[trigger] mask_at(m0, i, j) == face_cell(ctx, reg, a, layer, i, j),
        quads.len() >= pre.len(),
        quads.take(pre.len() as int) == pre,
        forall|k: int| 0 <= k < pre.len() ==> face_axis(#[trigger] pre[k].face) < a || (face_axis(
            pre[k].face,
        ) == a && pre[k].min@[a] < layer),
        forall|k1: int, k2: int|
            0 <= k1 < k2 < pre.len() ==> plane_ordered(#[trigger] pre[k1], #[trigger] pre[k2]),
        forall|k: int| 0 <= k < pre.len() ==> greedy_choice(ctx, reg, pre.take(k), #[trigger] pre[k]),
        new_quads_ok(quads, pre.len() as int, a, layer, reg, m0),
        greedy_from(quads, pre.len() as int, a, m0),
    ensures
        forall|k1: int, k2: int|
            0 <= k1 < k2 < quads.len() ==> plane_ordered(#[trigger] quads[k1], #[trigger] quads[k2]),
        forall|k: int| 0 <= k < quads.len() ==> greedy_choice(ctx, reg, quads.take(k), #[trigger] quads[k]),
{
    let q0 = pre.len() as int;
    assert forall|kk: int| 0 <= kk < q0 implies #[trigger] quads[kk] == pre[kk] by {
        assert(quads[kk] == quads.take(q0)[kk]);
    }
    assert forall|k1: int, k2: int|
        0 <= k1 < k2 < quads.len() implies plane_ordered(#[trigger] quads[k1], #[trigger] quads[k2]) by {
        if k2 < q0 {
            assert(quads[k1] == pre[k1]);
            assert(quads[k2] == pre[k2]);
        } else if k1 < q0 {
            assert(quads[k1] == pre[k1]);
            assert(layer_quad_ok(quads[k2], a, layer, reg, m0));
        } else {
            assert(layer_quad_ok(quads[k1], a, layer, reg, m0));
            assert(layer_quad_ok(quads[k2], a, layer, reg, m0));
        }
    }
    assert forall|k: int| 0 <= k < quads.len() implies greedy_choice(ctx, reg, quads.take(k), #[trigger] quads[k]) by {
        if k < q0 {
            assert(quads[k] == pre[k]);
            assert(quads.take(k) =~= pre.take(k));
        } else {
            assert forall|kk: int| 0 <= kk < q0 implies face_axis(#[trigger] quads[kk].face) < a || (
            face_axis(quads[kk].face) == a && quads[kk].min@[a] < layer) by {
                assert(quads[kk] == pre[kk]);
            }
            lemma_layer_greedy(ctx, reg, quads, q0, k, a, layer, m0);
        }
    }
}

/// Some quad of `quads` covers cell `(i, j)` of plane `layer` on `axis`.
pub open spec fn covered_by(quads: Seq<UnpackedQuad>, axis: int, layer: int, i: int, j: int) -> bool {
    exists|k: int| 0 <= k < quads.len() && #[trigger] covers(quads[k], axis, layer, i, j)
}

/// Cell `(i, j)` of plane `layer` on `axis` shows face `t` and no quad of `before` covers it.
pub open spec fn open_face(
    ctx: MeshingContext,
    registry: Seq<MeshingAttributes>,
    before: Seq<UnpackedQuad>,
    axis: int,
    layer: int,
    i: int,
    j: int,
    t: (BlockState, VoxelFace),
) -> bool {
    face_cell(ctx, registry, axis, layer, i, j) == Some(t) && !covered_by(before, axis, layer, i, j)
}

/// `q`, emitted after the quads `before`, is the greedy choice on its plane: its corner is
/// the first cell (row by row, along the first in-plane axis within a row) showing a face
/// that no earlier quad covers; it is as wide as that face runs open along the row, and as
/// tall as whole open rows of that width allow.
pub open spec fn greedy_choice(
    ctx: MeshingContext,
    registry: Seq<MeshingAttributes>,
    before: Seq<UnpackedQuad>,
    q: UnpackedQuad,
) -> bool {
    let a = face_axis(q.face);
    let l = q.min@[a] as int;
    let u = quad_u(q, a);
    let v = quad_v(q, a);
    let t = (q.state, q.face);
    &&& forall|i: int, j: int|
        0 <= i < 32 && 0 <= j < 32 && (j < v || (j == v && i < u)) && (#[trigger] face_cell(
            ctx,
            registry,
            a,
            l,
            i,
            j,
        )) is Some ==> covered_by(before, a, l, i, j)
    &&& (u + q.width == 32 || !open_face(ctx, registry, before, a, l, u + q.width, v, t))
    &&& (v + q.height == 32 || exists|i: int|
        u <= i < u + q.width && !#[trigger] open_face(ctx, registry, before, a, l, i, v + q.height, t))
}

/// Quads come plane by plane: by axis, then by layer.
pub open spec fn plane_ordered(q1: UnpackedQuad, q2: UnpackedQuad) -> bool {
    face_axis(q1.face) < face_axis(q2.face) || (face_axis(q1.face) == face_axis(q2.face)
        && q1.min@[face_axis(q1.face)] <= q2.min@[face_axis(q2.face)])
}

/// Builds the quads of a chunk: for each axis and each of the 33 planes across it, the faces
/// between neighbouring blocks are collected into a mask and greedily merged into
/// rectangles. The quads exactly tile the visible faces: each lies on its face's plane and
/// shows only that face, every visible face is covered, and no two quads overlap. They come
/// plane by plane, and each is the greedy choice after the ones before it.
#[verifier::spinoff_prover]
pub fn generate_greedy_quads(ctx: &MeshingContext, registry: &PropertyRegistry<MeshingAttributes>) -> (quads:
    Vec<UnpackedQuad>)
    requires
        ctx.wf(),
        ctx.states_below(registry.data@.len() as int),
    ensures
        forall|k: int| 0 <= k < quads@.len() ==> quad_in_place(*ctx, registry.data@, #[trigger] quads@[k]),
        forall|axis: int, layer: int, i: int, j: int|
            0 <= axis < 3 && 0 <= layer <= 32 && 0 <= i < 32 && 0 <= j < 32 && (#[trigger] face_cell(
                *ctx,
                registry.data@,
                axis,
                layer,
                i,
                j,
            )) is Some ==> exists|k: int| 0 <= k < quads@.len() && #[trigger] covers(quads@[k], axis, layer, i, j),
        forall|k1: int, k2: int, axis: int, layer: int, i: int, j: int|
            0 <= k1 < k2 < quads@.len() ==> !(#[trigger] covers(quads@[k1], axis, layer, i, j)
                && #[trigger] covers(quads@[k2], axis, layer, i, j)),
        forall|k1: int, k2: int|
            0 <= k1 < k2 < quads@.len() ==> plane_ordered(#[trigger] quads@[k1], #[trigger] quads@[k2]),
        forall|k: int|
            0 <= k < quads@.len() ==> greedy_choice(*ctx, registry.data@, quads@.take(k), #[trigger] quads@[k]),
{
    let reg = &registry.data;
    let mut quads: Vec<UnpackedQuad> = Vec::new();
    let mut axis: usize = 0;
    while axis < 3
        invariant
            axis <= 3,
            ctx.wf(),
            ctx.states_below(reg@.len() as int),
            forall|k: int| 0 <= k < quads@.len() ==> quad_in_place(*ctx, reg@, #[trigger] quads@[k]),
            forall|k: int| 0 <= k < quads@.len() ==> face_axis(#[trigger] quads@[k].face) < axis,
            forall|ax: int, layer: int, i: int, j: int|
                0 <= ax < axis && 0 <= layer <= 32 && 0 <= i < 32 && 0 <= j < 32 && (#[trigger] face_cell(
                    *ctx,
                    reg@,
                    ax,
                    layer,
                    i,
                    j,
                )) is Some ==> exists|k: int| 0 <= k < quads@.len() && #[trigger] covers(quads@[k], ax, layer, i, j),
            forall|k1: int, k2: int, ax: int, layer: int, i: int, j: int|
                0 <= k1 < k2 < quads@.len() ==> !(#[trigger] covers(quads@[k1], ax, layer, i, j)
                    && #[trigger] covers(quads@[k2], ax, layer, i, j)),
            forall|k1: int, k2: int|
                0 <= k1 < k2 < quads@.len() ==> plane_ordered(#[trigger] quads@[k1], #[trigger] quads@[k2]),
            forall|k: int|
                0 <= k < quads@.len() ==> greedy_choice(*ctx, reg@, quads@.take(k), #[trigger] quads@[k]),
        decreases 3 - axis,
    {
        let mut layer: u8 = 0;
        while layer <= 32
            invariant
                axis < 3,
                layer <= 33,
                ctx.wf(),
                ctx.states_below(reg@.len() as int),
                forall|k: int| 0 <= k < quads@.len() ==> quad_in_place(*ctx, reg@, #[trigger] quads@[k]),
                forall|k: int|
                    0 <= k < quads@.len() ==> face_axis(#[trigger] quads@[k].face) < axis || (face_axis(
                        quads@[k].face,
                    ) == axis && quads@[k].min@[axis as int] < layer),
                forall|ax: int, l: int, i: int, j: int|
                    0 <= i < 32 && 0 <= j < 32 && ((0 <= ax < axis && 0 <= l <= 32) || (ax == axis && 0 <= l
                        < layer)) && (#[trigger] face_cell(*ctx, reg@, ax, l, i, j)) is Some ==> exists|k: int|
                        0 <= k < quads@.len() && #[trigger] covers(quads@[k], ax, l, i, j),
                forall|k1: int, k2: int, ax: int, l: int, i: int, j: int|
                    0 <= k1 < k2 < quads@.len() ==> !(#[trigger] covers(quads@[k1], ax, l, i, j)
                        && #[trigger] covers(quads@[k2], ax, l, i, j)),
                forall|k1: int, k2: int|
                    0 <= k1 < k2 < quads@.len() ==> plane_ordered(#[trigger] quads@[k1], #[trigger] quads@[k2]),
                forall|k: int|
                    0 <= k < quads@.len() ==> greedy_choice(*ctx, reg@, quads@.take(k), #[trigger] quads@[k]),
            decreases 33 - layer,
        {
            let mut mask = build_mask(ctx, reg, axis, layer as i32);
            let ghost m0 = mask@;
            let ghost quads_pre = quads@;
            let ghost q0 = quads@.len() as int;
            greedy_layer(&mut mask, axis, layer, reg.as_slice(), &mut quads);
            proof {
                let a = axis as int;
                assert forall|k: int| 0 <= k < quads@.len() implies quad_in_place(*ctx, reg@, #[trigger] quads@[k])
                    && (face_axis(quads@[k].face) < axis || (face_axis(quads@[k].face) == axis
                    && quads@[k].min@[a] < layer + 1)) by {
                    if k < q0 {
                        assert(quads@[k] == quads@.take(q0)[k]);
                    } else {
                        let q = quads@[k];
                        assert(layer_quad_ok(q, a, layer as int, reg@, m0));
                        assert forall|i: int, j: int| #![trigger in_rect(q, a, i, j)] in_rect(q, a, i, j) implies face_cell(
                            *ctx,
                            reg@,
                            a,
                            layer as int,
                            i,
                            j,
                        ) == Some((q.state, q.face)) by {
                            assert(mask_at(m0, i, j) == Some((q.state, q.face)));
                        }
                    }
                }
                assert forall|ax: int, l: int, i: int, j: int|
                    0 <= i < 32 && 0 <= j < 32 && ((0 <= ax < axis && 0 <= l <= 32) || (ax == axis && 0 <= l
                        < layer + 1)) && (#[trigger] face_cell(*ctx, reg@, ax, l, i, j)) is Some implies exists|k: int|
                    0 <= k < quads@.len() && #[trigger] covers(quads@[k], ax, l, i, j) by {
                    if ax == axis && l == layer {
                        assert(mask_at(m0, i, j) is Some);
                        let k = choose|k: int| q0 <= k < quads@.len() && #[trigger] in_rect(quads@[k], a, i, j);
                        assert(layer_quad_ok(quads@[k], a, layer as int, reg@, m0));
                        assert(covers(quads@[k], ax, l, i, j));
                    } else {
                        let k = choose|k: int| 0 <= k < quads_pre.len() && #[trigger] covers(quads_pre[k], ax, l, i, j);
                        assert(quads@[k] == quads@.take(q0)[k]);
                    }
                }
                assert forall|k1: int, k2: int, ax: int, l: int, i: int, j: int|
                    0 <= k1 < k2 < quads@.len() implies !(#[trigger] covers(quads@[k1], ax, l, i, j)
                        && #[trigger] covers(quads@[k2], ax, l, i, j)) by {
                    if k2 < q0 {
                        assert(quads@[k1] == quads@.take(q0)[k1]);
                        assert(quads@[k2] == quads@.take(q0)[k2]);
                    } else if k1 < q0 {
                        assert(quads@[k1] == quads@.take(q0)[k1]);
                        assert(layer_quad_ok(quads@[k2], a, layer as int, reg@, m0));
                    } else {
                        assert(layer_quad_ok(quads@[k1], a, layer as int, reg@, m0));
                        assert(layer_quad_ok(quads@[k2], a, layer as int, reg@, m0));
                    }
                }
                lemma_layer_step(*ctx, reg@, quads_pre, quads@, a, layer as int, m0);
            }
            layer = layer + 1;
        }
        axis = axis + 1;
    }
    quads
}

} // verus!

verus! {

/// No face separates two blocks of the same state: where the blocks on both sides of plane
/// `layer` at cell `(i, j)` are equal there is no face, and no quad of the mesher covers the
/// cell.
pub proof fn law_no_face_between_equal_blocks(
    ctx: MeshingContext,
    registry: Seq<MeshingAttributes>,
    quads: Seq<UnpackedQuad>,
    axis: int,
    layer: int,
    i: int,
    j: int,
)
    requires
        ctx.extended_block(axis_pos(axis, layer - 1, i, j)) == ctx.extended_block(
            axis_pos(axis, layer, i, j),
        ),
        forall|k: int| 0 <= k < quads.len() ==> quad_in_place(ctx, registry, #[trigger] quads[k]),
    ensures
        face_cell(ctx, registry, axis, layer, i, j) is None,
        forall|k: int| 0 <= k < quads.len() ==> !covers(#[trigger] quads[k], axis, layer, i, j),
{
    assert forall|k: int| 0 <= k < quads.len() implies !covers(#[trigger] quads[k], axis, layer, i, j) by {
        if covers(quads[k], axis, layer, i, j) {
            assert(in_rect(quads[k], face_axis(quads[k].face), i, j));
        }
    }
}

/// Which face shows between two blocks, in terms of the blocks themselves: with `below` the
/// block on the low side of the plane and `above` the one on the high side, a face shows
/// exactly when the two differ and one is visible while the other is transparent. It belongs
/// to the low block and points up the axis when the low block is visible and the high one
/// transparent; otherwise it belongs to the high block and points down the axis.
pub proof fn law_face_between_blocks(
    ctx: MeshingContext,
    registry: Seq<MeshingAttributes>,
    axis: int,
    layer: int,
    i: int,
    j: int,
)
    requires
        0 <= axis < 3,
    ensures
        ({
            let below = ctx.extended_block(axis_pos(axis, layer - 1, i, j));
            let above = ctx.extended_block(axis_pos(axis, layer, i, j));
            let rb = registry[below.0 as int];
            let ra = registry[above.0 as int];
            let f = face_cell(ctx, registry, axis, layer, i, j);
            &&& f is Some <==> (below != above && ((rb.spec_visible() && ra.spec_transparent()) || (
                ra.spec_visible() && rb.spec_transparent())))
            &&& f matches Some((s, face)) ==> {
                &&& face_axis(face) == axis
                &&& registry[s.0 as int].spec_visible()
                &&& face_positive(face) ==> s == below && ra.spec_transparent()
                &&& !face_positive(face) ==> s == above && rb.spec_transparent()
                &&& (rb.spec_visible() && ra.spec_transparent()) ==> face_positive(face)
            }
        }),
{
}

/// Reading one step beyond the chunk: a coordinate just past a side of the chunk, in range
/// along the other two axes, reads the facing border layer of the neighbour on that side
/// (air when that neighbour is missing); a coordinate inside reads the center chunk. Block
/// `(x, y, z)` of a chunk is its block `x + 32 y + 1024 z`.
pub proof fn law_extended_block_reads_the_facing_layer(ctx: MeshingContext, a: i32, b: i32)
    requires
        0 <= a < 32,
        0 <= b < 32,
    ensures
        ctx.extended_block(IVec3 { x: -1i32, y: a, z: b }) == neighbor_block(ctx, 0, 31 + 32 * a + 1024
            * b),
        ctx.extended_block(IVec3 { x: 32, y: a, z: b }) == neighbor_block(ctx, 1, 32 * a + 1024 * b),
        ctx.extended_block(IVec3 { x: a, y: -1i32, z: b }) == neighbor_block(ctx, 2, a + 32 * 31 + 1024
            * b),
        ctx.extended_block(IVec3 { x: a, y: 32, z: b }) == neighbor_block(ctx, 3, a + 1024 * b),
        ctx.extended_block(IVec3 { x: a, y: b, z: -1i32 }) == neighbor_block(ctx, 4, a + 32 * b + 1024
            * 31),
        ctx.extended_block(IVec3 { x: a, y: b, z: 32 }) == neighbor_block(ctx, 5, a + 32 * b),
{
}

/// Reading inside the chunk reads the center chunk's block `x + 32 y + 1024 z`.
pub proof fn law_extended_block_inside(ctx: MeshingContext, x: i32, y: i32, z: i32)
    requires
        0 <= x < 32,
        0 <= y < 32,
        0 <= z < 32,
    ensures
        ctx.extended_block(IVec3 { x, y, z }) == ctx.center.data.block_at(x + 32 * y + 1024 * z),
{
}

/// Block `i` of neighbour `k`, or air when that neighbour is missing.
pub open spec fn neighbor_block(ctx: MeshingContext, k: int, i: int) -> BlockState {
    match ctx.neighbors@[k] {
        Some(c) => c.data.block_at(i),
        None => BlockState(0),
    }
}

} // verus!

verus! {

/// The face for an axis and a direction lies on that axis and points that way.
pub proof fn law_face_axis_and_direction(axis: int, positive: bool)
    requires
        0 <= axis < 3,
    ensures
        face_axis(spec_face(axis, positive)) == axis,
        face_positive(spec_face(axis, positive)) == positive,
{
}

/// The coordinate of a plane position: `w` along the axis itself, `i` along the axis after
/// it and `j` along the one after that (x, y, z in turn).
pub proof fn law_plane_position(axis: int, w: int, i: int, j: int)
    requires
        0 <= axis < 3,
        -1 <= w <= 32,
        0 <= i < 32,
        0 <= j < 32,
    ensures
        ({
            let p = axis_pos(axis, w, i, j);
            &&& axis == 0 ==> p.x == w && p.y == i && p.z == j
            &&& axis == 1 ==> p.y == w && p.z == i && p.x == j
            &&& axis == 2 ==> p.z == w && p.x == i && p.y == j
        }),
{
}

} // verus!

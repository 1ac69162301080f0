use vstd::prelude::*;

use crate::meshing::{UnpackedQuad, VoxelFace};

verus! {

/// A quad takes four vertices; a mesh-shader threadgroup handles at most 64.
pub const MAX_QUADS_PER_MESHLET: usize = 16;

/// How far a quad extends from its corner along coordinate `c` (0 = x, 1 = y, 2 = z):
/// Z faces span width along x and height along y, X faces width along z and height along y,
/// Y faces width along x and height along z.
pub open spec fn quad_extent(q: UnpackedQuad, c: int) -> int {
    match q.face {
        VoxelFace::NegativeZ | VoxelFace::PositiveZ => if c == 0 {
            q.width as int
        } else if c == 1 {
            q.height as int
        } else {
            0
        },
        VoxelFace::NegativeX | VoxelFace::PositiveX => if c == 2 {
            q.width as int
        } else if c == 1 {
            q.height as int
        } else {
            0
        },
        VoxelFace::NegativeY | VoxelFace::PositiveY => if c == 0 {
            q.width as int
        } else if c == 2 {
            q.height as int
        } else {
            0
        },
    }
}

/// The low corner of a quad's box along coordinate `c`.
pub open spec fn quad_low(q: UnpackedQuad, c: int) -> int {
    q.min@[c] as int
}

/// The high corner of a quad's box along coordinate `c`.
pub open spec fn quad_high(q: UnpackedQuad, c: int) -> int {
    q.min@[c] + quad_extent(q, c)
}

/// A group of at most `MAX_QUADS_PER_MESHLET` quads with their bounding box.
/// Bounds are integer block coordinates; an empty meshlet has `i32::MAX` as its low bound
/// and `i32::MIN` as its high bound, so that the first quad sets both.
#[derive(Clone, Debug)]
pub struct Meshlet {
    pub quads: Vec<UnpackedQuad>,
    pub bounds_min: [i32; 3],
    pub bounds_max: [i32; 3],
}

impl Meshlet {
    /// The bounds are the box around the quads: for each coordinate, the least low corner
    /// and the greatest high corner (the empty-box sentinels when there are no quads).
    pub open spec fn bounds_exact(self) -> bool {
        &&& self.bounds_min@.len() == 3
        &&& self.bounds_max@.len() == 3
        &&& forall|c: int| 0 <= c < 3 ==> #[trigger] self.bounds_exact_at(c)
    }

    /// The bounds along coordinate `c` are the box around the quads.
    pub open spec fn bounds_exact_at(self, c: int) -> bool {
        &&& self.quads@.len() == 0 ==> self.bounds_min@[c] == i32::MAX && self.bounds_max@[c]
            == i32::MIN
        &&& forall|k: int|
            0 <= k < self.quads@.len() ==> self.bounds_min@[c] <= quad_low(
                #[trigger] self.quads@[k],
                c,
            ) && quad_high(self.quads@[k], c) <= self.bounds_max@[c]
        &&& self.quads@.len() > 0 ==> exists|k: int|
            0 <= k < self.quads@.len() && self.bounds_min@[c] == quad_low(
                #[trigger] self.quads@[k],
                c,
            )
        &&& self.quads@.len() > 0 ==> exists|k: int|
            0 <= k < self.quads@.len() && self.bounds_max@[c] == quad_high(
                #[trigger] self.quads@[k],
                c,
            )
    }
}

impl Default for Meshlet {
    fn default() -> (r: Self)
        ensures
            r.quads@.len() == 0,
            r.bounds_exact(),
    {
        Meshlet {
            quads: Vec::with_capacity(MAX_QUADS_PER_MESHLET),
            bounds_min: [i32::MAX, i32::MAX, i32::MAX],
            bounds_max: [i32::MIN, i32::MIN, i32::MIN],
        }
    }
}

fn min_i32(a: i32, b: i32) -> (r: i32)
    ensures
        r == if a <= b {
            a
        } else {
            b
        },
{
    if a <= b {
        a
    } else {
        b
    }
}

fn max_i32(a: i32, b: i32) -> (r: i32)
    ensures
        r == if a >= b {
            a
        } else {
            b
        },
{
    if a >= b {
        a
    } else {
        b
    }
}

impl Meshlet {
    /// Appends a quad and grows the bounding box to include it.
    pub fn add_quad(&mut self, quad: &UnpackedQuad)
        requires
            old(self).bounds_min@.len() == 3,
            old(self).bounds_max@.len() == 3,
        ensures
            final(self).quads@ == old(self).quads@.push(*quad),
            final(self).bounds_min@.len() == 3,
            final(self).bounds_max@.len() == 3,
            forall|c: int|
                0 <= c < 3 ==> #[trigger] final(self).bounds_min@[c] == if old(self).bounds_min@[c]
                    <= quad_low(*quad, c) {
                    old(self).bounds_min@[c] as int
                } else {
                    quad_low(*quad, c)
                },
            forall|c: int|
                0 <= c < 3 ==> #[trigger] final(self).bounds_max@[c] == if old(self).bounds_max@[c]
                    >= quad_high(*quad, c) {
                    old(self).bounds_max@[c] as int
                } else {
                    quad_high(*quad, c)
                },
    {
        self.quads.push(*quad);
        let min_x = quad.min[0] as i32;
        let min_y = quad.min[1] as i32;
        let min_z = quad.min[2] as i32;
        let mut max_x = min_x;
        let mut max_y = min_y;
        let mut max_z = min_z;
        match quad.face {
            VoxelFace::NegativeZ | VoxelFace::PositiveZ => {
                max_x = max_x + quad.width as i32;
                max_y = max_y + quad.height as i32;
            },
            VoxelFace::NegativeX | VoxelFace::PositiveX => {
                max_z = max_z + quad.width as i32;
                max_y = max_y + quad.height as i32;
            },
            VoxelFace::NegativeY | VoxelFace::PositiveY => {
                max_x = max_x + quad.width as i32;
                max_z = max_z + quad.height as i32;
            },
        }
        self.bounds_min = [
            min_i32(self.bounds_min[0], min_x),
            min_i32(self.bounds_min[1], min_y),
            min_i32(self.bounds_min[2], min_z),
        ];
        self.bounds_max = [
            max_i32(self.bounds_max[0], max_x),
            max_i32(self.bounds_max[1], max_y),
            max_i32(self.bounds_max[2], max_z),
        ];
        proof {
            assert forall|c: int| 0 <= c < 3 implies #[trigger] self.bounds_max@[c] == if old(
                self,
            ).bounds_max@[c] >= quad_high(*quad, c) {
                old(self).bounds_max@[c] as int
            } else {
                quad_high(*quad, c)
            } by {
                if c == 0 {
                } else if c == 1 {
                } else {
                }
            }
        }
    }
}

} // verus!

verus! {

/// The quads of a sequence of meshlets, in order.
pub open spec fn all_quads(ms: Seq<Meshlet>) -> Seq<UnpackedQuad>
    decreases ms.len(),
{
    if ms.len() == 0 {
        Seq::empty()
    } else {
        all_quads(ms.drop_last()) + ms.last().quads@
    }
}

proof fn lemma_add_quad_exact(old_m: Meshlet, new_m: Meshlet, q: UnpackedQuad)
    requires
        old_m.bounds_exact(),
        new_m.quads@ == old_m.quads@.push(q),
        new_m.bounds_min@.len() == 3,
        new_m.bounds_max@.len() == 3,
        forall|c: int|
            0 <= c < 3 ==> #[trigger] new_m.bounds_min@[c] == if old_m.bounds_min@[c] <= quad_low(q, c) {
                old_m.bounds_min@[c] as int
            } else {
                quad_low(q, c)
            },
        forall|c: int|
            0 <= c < 3 ==> #[trigger] new_m.bounds_max@[c] == if old_m.bounds_max@[c] >= quad_high(q, c) {
                old_m.bounds_max@[c] as int
            } else {
                quad_high(q, c)
            },
    ensures
        new_m.bounds_exact(),
{
    let n = old_m.quads@.len() as int;
    assert forall|c: int| 0 <= c < 3 implies #[trigger] new_m.bounds_exact_at(c) by {
        assert(old_m.bounds_exact_at(c));
        assert(new_m.quads@[n] == q);
        assert forall|k: int| 0 <= k < new_m.quads@.len() implies new_m.bounds_min@[c] <= quad_low(
            #[trigger] new_m.quads@[k],
            c,
        ) && quad_high(new_m.quads@[k], c) <= new_m.bounds_max@[c] by {
            if k < n {
                assert(new_m.quads@[k] == old_m.quads@[k]);
            }
        }
        if new_m.bounds_min@[c] == quad_low(q, c) {
            assert(new_m.bounds_min@[c] == quad_low(new_m.quads@[n], c));
        } else {
            let k = choose|k: int| 0 <= k < old_m.quads@.len() && old_m.bounds_min@[c] == quad_low(
                #[trigger] old_m.quads@[k],
                c,
            );
            assert(new_m.quads@[k] == old_m.quads@[k]);
        }
        if new_m.bounds_max@[c] == quad_high(q, c) {
            assert(new_m.bounds_max@[c] == quad_high(new_m.quads@[n], c));
        } else {
            let k = choose|k: int| 0 <= k < old_m.quads@.len() && old_m.bounds_max@[c] == quad_high(
                #[trigger] old_m.quads@[k],
                c,
            );
            assert(new_m.quads@[k] == old_m.quads@[k]);
        }
    }
}

/// Splits a quad list, in order, into meshlets of `MAX_QUADS_PER_MESHLET` quads; only the
/// last may hold fewer, and none is empty.
pub fn build_meshlets(raw_quads: Vec<UnpackedQuad>) -> (meshlets: Vec<Meshlet>)
    ensures
        all_quads(meshlets@) == raw_quads@,
        forall|m: int|
            0 <= m < meshlets@.len() ==> 1 <= (#[trigger] meshlets@[m]).quads@.len() <= 16
                && meshlets@[m].bounds_exact(),
        forall|m: int| 0 <= m < meshlets@.len() - 1 ==> (#[trigger] meshlets@[m]).quads@.len() == 16,
{
    let mut meshlets: Vec<Meshlet> = Vec::new();
    let mut current_meshlet = Meshlet::default();
    let mut k: usize = 0;
    assert(raw_quads@.take(0) =~= all_quads(meshlets@) + current_meshlet.quads@);
    while k < raw_quads.len()
        invariant
            k <= raw_quads@.len(),
            all_quads(meshlets@) + current_meshlet.quads@ == raw_quads@.take(k as int),
            current_meshlet.quads@.len() <= 16,
            current_meshlet.bounds_exact(),
            forall|m: int|
                0 <= m < meshlets@.len() ==> (#[trigger] meshlets@[m]).quads@.len() == 16
                    && meshlets@[m].bounds_exact(),
        decreases raw_quads@.len() - k,
    {
        if current_meshlet.quads.len() >= MAX_QUADS_PER_MESHLET {
            let ghost before = meshlets@;
            let full = current_meshlet;
            meshlets.push(full);
            current_meshlet = Meshlet::default();
            proof {
                assert(meshlets@.drop_last() == before);
                assert(all_quads(meshlets@) == all_quads(before) + full.quads@);
                assert(all_quads(meshlets@) + current_meshlet.quads@ =~= all_quads(meshlets@));
            }
        }
        let quad = raw_quads[k];
        let ghost old_m = current_meshlet;
        current_meshlet.add_quad(&quad);
        proof {
            lemma_add_quad_exact(old_m, current_meshlet, quad);
            assert(raw_quads@.take(k + 1) =~= raw_quads@.take(k as int).push(quad));
            assert(all_quads(meshlets@) + current_meshlet.quads@ =~= (all_quads(meshlets@)
                + old_m.quads@).push(quad));
        }
        k = k + 1;
    }
    if current_meshlet.quads.len() > 0 {
        let ghost before = meshlets@;
        let last = current_meshlet;
        meshlets.push(last);
        proof {
            assert(meshlets@.drop_last() == before);
        }
    } else {
        assert(all_quads(meshlets@) =~= all_quads(meshlets@) + current_meshlet.quads@);
    }
    assert(raw_quads@.take(raw_quads@.len() as int) =~= raw_quads@);
    meshlets
}

} // verus!

verus! {

/// A meshlet's box contains the whole of each of its quads: it starts at or below each quad's
/// corner, and reaches past the quad's extent, which runs along x (width) and y (height) for
/// a Z face, along z (width) and y (height) for an X face, and along x (width) and z
/// (height) for a Y face. Its low corner is the corner of one of its quads.
pub proof fn law_meshlet_box_holds_its_quads(m: Meshlet, k: int)
    requires
        m.bounds_exact(),
        0 <= k < m.quads@.len(),
    ensures
        ({
            let q = m.quads@[k];
            &&& forall|c: int| 0 <= c < 3 ==> #[trigger] m.bounds_min@[c] <= q.min@[c]
            &&& m.bounds_max@[0] >= q.min@[0] + match q.face {
                VoxelFace::NegativeX | VoxelFace::PositiveX => 0int,
                _ => q.width as int,
            }
            &&& m.bounds_max@[1] >= q.min@[1] + match q.face {
                VoxelFace::NegativeY | VoxelFace::PositiveY => 0int,
                _ => q.height as int,
            }
            &&& m.bounds_max@[2] >= q.min@[2] + match q.face {
                VoxelFace::NegativeX | VoxelFace::PositiveX => q.width as int,
                VoxelFace::NegativeY | VoxelFace::PositiveY => q.height as int,
                _ => 0int,
            }
        }),
        forall|c: int|
            0 <= c < 3 ==> exists|j: int|
                0 <= j < m.quads@.len() && #[trigger] m.bounds_min@[c] == (#[trigger] m.quads@[j]).min@[c],
{
    assert(m.bounds_exact_at(0));
    assert(m.bounds_exact_at(1));
    assert(m.bounds_exact_at(2));
    assert forall|c: int| 0 <= c < 3 implies exists|j: int|
        0 <= j < m.quads@.len() && #[trigger] m.bounds_min@[c] == (#[trigger] m.quads@[j]).min@[c] by {
        assert(m.bounds_exact_at(c));
        let j = choose|j: int| 0 <= j < m.quads@.len() && m.bounds_min@[c] == quad_low(#[trigger] m.quads@[j], c);
        assert(m.quads@[j].min@[c] == quad_low(m.quads@[j], c));
    }
}

} // verus!

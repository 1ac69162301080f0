use vstd::prelude::*;

use crate::meshing::{UnpackedQuad, VoxelFace};
use crate::meshlet::{all_quads, Meshlet};

verus! {

/// The 8-byte quad layout the mesh shader reads.
///
/// `geometry_data`: bits 0-7 min.x, 8-15 min.y, 16-23 min.z, 24-31 width.
/// `material_data`: bits 0-7 height, 8-10 face (0-5), 11-15 zero, 16-31 material id.
#[derive(Clone, Copy, Debug, Default, PartialEq, Eq, Structural)]
pub struct GpuQuad {
    pub geometry_data: u32,
    pub material_data: u32,
}

/// The shader's face numbering: -X, +X, -Y, +Y, -Z, +Z are 0 to 5.
pub open spec fn face_index(f: VoxelFace) -> u32 {
    match f {
        VoxelFace::NegativeX => 0,
        VoxelFace::PositiveX => 1,
        VoxelFace::NegativeY => 2,
        VoxelFace::PositiveY => 3,
        VoxelFace::NegativeZ => 4,
        VoxelFace::PositiveZ => 5,
    }
}

/// The packed geometry word of a quad.
pub open spec fn pack_geometry(q: UnpackedQuad) -> u32 {
    (q.min@[0] + q.min@[1] * 256 + q.min@[2] * 65536 + q.width * 16777216) as u32
}

/// The packed material word of a quad.
pub open spec fn pack_material(q: UnpackedQuad) -> u32 {
    (q.height + face_index(q.face) * 256 + q.material_id * 65536) as u32
}

fn face_idx(f: VoxelFace) -> (r: u32)
    ensures
        r == face_index(f),
{
    match f {
        VoxelFace::NegativeX => 0,
        VoxelFace::PositiveX => 1,
        VoxelFace::NegativeY => 2,
        VoxelFace::PositiveY => 3,
        VoxelFace::NegativeZ => 4,
        VoxelFace::PositiveZ => 5,
    }
}

/// Packs a quad into the shader layout.
pub fn pack_quad(quad: &UnpackedQuad) -> (r: GpuQuad)
    ensures
        r.geometry_data == pack_geometry(*quad),
        r.material_data == pack_material(*quad),
{
    let x = quad.min[0] as u32;
    let y = quad.min[1] as u32;
    let z = quad.min[2] as u32;
    let w = quad.width as u32;
    let geometry_data = x | (y << 8u32) | (z << 16u32) | (w << 24u32);
    let h = quad.height as u32;
    let f = face_idx(quad.face);
    let m = quad.material_id as u32;
    let material_data = h | (f << 8u32) | (m << 16u32);
    proof {
        assert(x | (y << 8u32) | (z << 16u32) | (w << 24u32) == x + y * 256 + z * 65536 + w
            * 16777216) by (bit_vector)
            requires
                x < 256,
                y < 256,
                z < 256,
                w < 256,
        ;
        assert(h | (f << 8u32) | (m << 16u32) == h + f * 256 + m * 65536) by (bit_vector)
            requires
                h < 256,
                f < 6,
                m < 65536,
        ;
    }
    GpuQuad { geometry_data, material_data }
}

impl<'a> From<&'a UnpackedQuad> for GpuQuad {
    fn from(quad: &'a UnpackedQuad) -> (r: GpuQuad) {
        pack_quad(quad)
    }
}

impl<'a> vstd::std_specs::convert::FromSpecImpl<&'a UnpackedQuad> for GpuQuad {
    open spec fn obeys_from_spec() -> bool {
        true
    }

    open spec fn from_spec(quad: &'a UnpackedQuad) -> GpuQuad {
        GpuQuad { geometry_data: pack_geometry(*quad), material_data: pack_material(*quad) }
    }
}

/// Unpacking a packed quad gives back its corner, size, face and material.
pub proof fn law_packed_quad_round_trip(q: UnpackedQuad)
    ensures
        pack_geometry(q) & 0xFFu32 == q.min@[0],
        (pack_geometry(q) >> 8u32) & 0xFFu32 == q.min@[1],
        (pack_geometry(q) >> 16u32) & 0xFFu32 == q.min@[2],
        pack_geometry(q) >> 24u32 == q.width,
        pack_material(q) & 0xFFu32 == q.height,
        (pack_material(q) >> 8u32) & 0x7u32 == face_index(q.face),
        (pack_material(q) >> 11u32) & 0x1Fu32 == 0,
        pack_material(q) >> 16u32 == q.material_id,
{
    let x = q.min@[0] as u32;
    let y = q.min@[1] as u32;
    let z = q.min@[2] as u32;
    let w = q.width as u32;
    let h = q.height as u32;
    let f = face_index(q.face);
    let m = q.material_id as u32;
    assert(pack_geometry(q) == x | (y << 8u32) | (z << 16u32) | (w << 24u32)) by {
        assert(x | (y << 8u32) | (z << 16u32) | (w << 24u32) == x + y * 256 + z * 65536 + w
            * 16777216) by (bit_vector)
            requires
                x < 256,
                y < 256,
                z < 256,
                w < 256,
        ;
    }
    assert(pack_material(q) == h | (f << 8u32) | (m << 16u32)) by {
        assert(h | (f << 8u32) | (m << 16u32) == h + f * 256 + m * 65536) by (bit_vector)
            requires
                h < 256,
                f < 6,
                m < 65536,
        ;
    }
    assert({
        let g = x | (y << 8u32) | (z << 16u32) | (w << 24u32);
        &&& g & 0xFFu32 == x
        &&& (g >> 8u32) & 0xFFu32 == y
        &&& (g >> 16u32) & 0xFFu32 == z
        &&& g >> 24u32 == w
    }) by (bit_vector)
        requires
            x < 256,
            y < 256,
            z < 256,
            w < 256,
    ;
    assert({
        let mm = h | (f << 8u32) | (m << 16u32);
        &&& mm & 0xFFu32 == h
        &&& (mm >> 8u32) & 0x7u32 == f
        &&& (mm >> 11u32) & 0x1Fu32 == 0
        &&& mm >> 16u32 == m
    }) by (bit_vector)
        requires
            h < 256,
            f < 6,
            m < 65536,
    ;
}

} // verus!

verus! {

/// Where one meshlet's quads lie in a flattened quad array.
#[derive(Clone, Copy, Debug, PartialEq, Eq, Structural)]
pub struct MeshletRange {
    pub quad_offset: u32,
    pub quad_count: u32,
}

/// The packed form of each quad.
pub open spec fn packed_quads(qs: Seq<UnpackedQuad>) -> Seq<GpuQuad> {
    qs.map_values(|q: UnpackedQuad| GpuQuad { geometry_data: pack_geometry(q), material_data: pack_material(q) })
}

proof fn lemma_all_quads_take(ms: Seq<Meshlet>, m: int)
    requires
        0 <= m < ms.len(),
    ensures
        all_quads(ms.take(m + 1)) == all_quads(ms.take(m)) + ms[m].quads@,
{
    assert(ms.take(m + 1).drop_last() =~= ms.take(m));
}

proof fn lemma_all_quads_prefix_len(ms: Seq<Meshlet>, m: int)
    requires
        0 <= m <= ms.len(),
    ensures
        all_quads(ms.take(m)).len() <= all_quads(ms).len(),
    decreases ms.len() - m,
{
    if m < ms.len() {
        lemma_all_quads_take(ms, m);
        lemma_all_quads_prefix_len(ms, m + 1);
    } else {
        assert(ms.take(m) =~= ms);
    }
}

/// Flattens a chunk's meshlets for upload: all quads packed in order, and for each meshlet
/// where its quads start and how many there are.
pub fn flatten_meshlets(meshlets: &Vec<Meshlet>) -> (r: (Vec<MeshletRange>, Vec<GpuQuad>))
    requires
        all_quads(meshlets@).len() <= u32::MAX,
    ensures
        r.1@ == packed_quads(all_quads(meshlets@)),
        r.0@.len() == meshlets@.len(),
        forall|m: int|
            0 <= m < meshlets@.len() ==> (#[trigger] r.0@[m]).quad_offset == all_quads(
                meshlets@.take(m),
            ).len() && r.0@[m].quad_count == meshlets@[m].quads@.len(),
{
    let mut ranges: Vec<MeshletRange> = Vec::with_capacity(meshlets.len());
    let mut gpu_quads: Vec<GpuQuad> = Vec::new();
    let mut m: usize = 0;
    assert(meshlets@.take(0) =~= Seq::<Meshlet>::empty());
    assert(packed_quads(all_quads(meshlets@.take(0))) =~= Seq::<GpuQuad>::empty());
    while m < meshlets.len()
        invariant
            m <= meshlets@.len(),
            all_quads(meshlets@).len() <= u32::MAX,
            gpu_quads@ == packed_quads(all_quads(meshlets@.take(m as int))),
            ranges@.len() == m,
            forall|j: int|
                0 <= j < m ==> (#[trigger] ranges@[j]).quad_offset == all_quads(meshlets@.take(j)).len()
                    && ranges@[j].quad_count == meshlets@[j].quads@.len(),
        decreases meshlets@.len() - m,
    {
        proof {
            lemma_all_quads_take(meshlets@, m as int);
            lemma_all_quads_prefix_len(meshlets@, m + 1);
        }
        let quad_offset = gpu_quads.len() as u32;
        let quad_count = meshlets[m].quads.len() as u32;
        let ghost before = gpu_quads@;
        let mut k: usize = 0;
        while k < meshlets[m].quads.len()
            invariant
                m < meshlets@.len(),
                k <= meshlets@[m as int].quads@.len(),
                gpu_quads@ == before + packed_quads(meshlets@[m as int].quads@.take(k as int)),
            decreases meshlets@[m as int].quads@.len() - k,
        {
            let q = pack_quad(&meshlets[m].quads[k]);
            gpu_quads.push(q);
            proof {
                assert(meshlets@[m as int].quads@.take(k + 1) =~= meshlets@[m as int].quads@.take(k as int).push(
                    meshlets@[m as int].quads@[k as int],
                ));
                assert(gpu_quads@ =~= before + packed_quads(meshlets@[m as int].quads@.take(k + 1)));
            }
            k = k + 1;
        }
        ranges.push(MeshletRange { quad_offset, quad_count });
        proof {
            assert(meshlets@[m as int].quads@.take(k as int) =~= meshlets@[m as int].quads@);
            assert(gpu_quads@ =~= packed_quads(all_quads(meshlets@.take(m + 1))));
        }
        m = m + 1;
    }
    assert(meshlets@.take(meshlets@.len() as int) =~= meshlets@);
    (ranges, gpu_quads)
}

} // verus!

verus! {

/// The quads of every chunk, one chunk after another.
pub open spec fn concat_quads(chunks: Seq<(Vec<MeshletRange>, Vec<GpuQuad>)>) -> Seq<GpuQuad>
    decreases chunks.len(),
{
    if chunks.len() == 0 {
        Seq::empty()
    } else {
        concat_quads(chunks.drop_last()) + chunks.last().1@
    }
}

/// A chunk's meshlet ranges moved past the quads of the chunks before it.
pub open spec fn shifted(ranges: Seq<MeshletRange>, shift: int) -> Seq<MeshletRange> {
    ranges.map_values(
        |r: MeshletRange| MeshletRange { quad_offset: (r.quad_offset + shift) as u32, quad_count: r.quad_count },
    )
}

/// The meshlet ranges of every chunk, one chunk after another, each pointing into the
/// concatenated quads.
pub open spec fn concat_ranges(chunks: Seq<(Vec<MeshletRange>, Vec<GpuQuad>)>) -> Seq<MeshletRange>
    decreases chunks.len(),
{
    if chunks.len() == 0 {
        Seq::empty()
    } else {
        concat_ranges(chunks.drop_last()) + shifted(
            chunks.last().0@,
            concat_quads(chunks.drop_last()).len() as int,
        )
    }
}

/// Every moved offset, and the total quad count, fit in 32 bits.
pub open spec fn offsets_fit(chunks: Seq<(Vec<MeshletRange>, Vec<GpuQuad>)>) -> bool {
    &&& concat_quads(chunks).len() <= u32::MAX
    &&& forall|c: int, m: int|
        0 <= c < chunks.len() && 0 <= m < chunks[c].0@.len() ==> (#[trigger] chunks[c].0@[m]).quad_offset
            + concat_quads(chunks.take(c)).len() <= u32::MAX
}

proof fn lemma_concat_take(chunks: Seq<(Vec<MeshletRange>, Vec<GpuQuad>)>, c: int)
    requires
        0 <= c < chunks.len(),
    ensures
        concat_quads(chunks.take(c + 1)) == concat_quads(chunks.take(c)) + chunks[c].1@,
        concat_ranges(chunks.take(c + 1)) == concat_ranges(chunks.take(c)) + shifted(
            chunks[c].0@,
            concat_quads(chunks.take(c)).len() as int,
        ),
{
    assert(chunks.take(c + 1).drop_last() =~= chunks.take(c));
}

proof fn lemma_concat_prefix_len(chunks: Seq<(Vec<MeshletRange>, Vec<GpuQuad>)>, c: int)
    requires
        0 <= c <= chunks.len(),
    ensures
        concat_quads(chunks.take(c)).len() <= concat_quads(chunks).len(),
    decreases chunks.len() - c,
{
    if c < chunks.len() {
        lemma_concat_take(chunks, c);
        lemma_concat_prefix_len(chunks, c + 1);
    } else {
        assert(chunks.take(c) =~= chunks);
    }
}

/// Joins the flattened geometry of several chunks into one upload: quads one chunk after
/// another, and each meshlet's offset moved past the quads of the chunks before it.
pub fn concat_chunk_geometry(chunks: &Vec<(Vec<MeshletRange>, Vec<GpuQuad>)>) -> (r: (
    Vec<MeshletRange>,
    Vec<GpuQuad>,
))
    requires
        offsets_fit(chunks@),
    ensures
        r.0@ == concat_ranges(chunks@),
        r.1@ == concat_quads(chunks@),
{
    let mut all_ranges: Vec<MeshletRange> = Vec::new();
    let mut all_quads: Vec<GpuQuad> = Vec::new();
    let mut current_quad_offset: u32 = 0;
    let mut c: usize = 0;
    assert(chunks@.take(0) =~= Seq::<(Vec<MeshletRange>, Vec<GpuQuad>)>::empty());
    while c < chunks.len()
        invariant
            c <= chunks@.len(),
            offsets_fit(chunks@),
            all_quads@ == concat_quads(chunks@.take(c as int)),
            all_ranges@ == concat_ranges(chunks@.take(c as int)),
            current_quad_offset == all_quads@.len(),
        decreases chunks@.len() - c,
    {
        proof {
            lemma_concat_take(chunks@, c as int);
            lemma_concat_prefix_len(chunks@, c + 1);
        }
        let ranges = &chunks[c].0;
        let quads = &chunks[c].1;
        let ghost ranges_before = all_ranges@;
        let mut m: usize = 0;
        while m < ranges.len()
            invariant
                c < chunks@.len(),
                ranges == &chunks@[c as int].0,
                offsets_fit(chunks@),
                current_quad_offset == concat_quads(chunks@.take(c as int)).len(),
                m <= ranges@.len(),
                all_ranges@ == ranges_before + shifted(ranges@.take(m as int), current_quad_offset as int),
            decreases ranges@.len() - m,
        {
            let mut adjusted = ranges[m];
            assert(chunks@[c as int].0@[m as int].quad_offset + concat_quads(chunks@.take(c as int)).len()
                <= u32::MAX);
            adjusted.quad_offset = adjusted.quad_offset + current_quad_offset;
            all_ranges.push(adjusted);
            proof {
                assert(ranges@.take(m + 1) =~= ranges@.take(m as int).push(ranges@[m as int]));
                assert(all_ranges@ =~= ranges_before + shifted(ranges@.take(m + 1), current_quad_offset as int));
            }
            m = m + 1;
        }
        let ghost quads_before = all_quads@;
        let mut k: usize = 0;
        while k < quads.len()
            invariant
                c < chunks@.len(),
                quads == &chunks@[c as int].1,
                k <= quads@.len(),
                all_quads@ == quads_before + quads@.take(k as int),
            decreases quads@.len() - k,
        {
            all_quads.push(quads[k]);
            proof {
                assert(quads@.take(k + 1) =~= quads@.take(k as int).push(quads@[k as int]));
            }
            k = k + 1;
        }
        proof {
            assert(ranges@.take(m as int) =~= ranges@);
            assert(quads@.take(k as int) =~= quads@);
        }
        current_quad_offset = current_quad_offset + quads.len() as u32;
        c = c + 1;
    }
    assert(chunks@.take(chunks@.len() as int) =~= chunks@);
    (all_ranges, all_quads)
}

} // verus!

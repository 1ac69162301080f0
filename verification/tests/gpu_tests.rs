use anantham_core::block::BlockState;
use anantham_core::gpu::{concat_chunk_geometry, flatten_meshlets, pack_quad, GpuQuad, MeshletRange};
use anantham_core::meshing::{UnpackedQuad, VoxelFace};
use anantham_core::meshlet::{build_meshlets, Meshlet, MAX_QUADS_PER_MESHLET};

fn quad(min: [u8; 3], width: u8, height: u8, face: VoxelFace, material_id: u16) -> UnpackedQuad {
    UnpackedQuad { min, width, height, face, state: BlockState(1), material_id }
}

#[test]
fn packs_geometry_and_material_words() {
    let q = quad([1, 2, 3], 4, 5, VoxelFace::PositiveY, 0x1234);
    let g = pack_quad(&q);
    assert_eq!(g.geometry_data, 0x0403_0201);
    assert_eq!(g.material_data, 0x1234_0305);
    assert_eq!(GpuQuad::from(&q), g);
}

#[test]
fn face_numbers_follow_the_shader() {
    for (n, f) in VoxelFace::all().iter().enumerate() {
        let g = pack_quad(&quad([0, 0, 0], 1, 1, *f, 0));
        assert_eq!((g.material_data >> 8) & 0x7, n as u32);
    }
}

#[test]
fn packed_fields_unpack() {
    let q = quad([31, 0, 32], 32, 17, VoxelFace::NegativeZ, 65535);
    let g = pack_quad(&q);
    assert_eq!(g.geometry_data & 0xFF, 31);
    assert_eq!((g.geometry_data >> 8) & 0xFF, 0);
    assert_eq!((g.geometry_data >> 16) & 0xFF, 32);
    assert_eq!(g.geometry_data >> 24, 32);
    assert_eq!(g.material_data & 0xFF, 17);
    assert_eq!((g.material_data >> 11) & 0x1F, 0);
    assert_eq!(g.material_data >> 16, 65535);
}

#[test]
fn build_meshlets_splits_in_sixteens() {
    let quads: Vec<UnpackedQuad> = (0..40u8).map(|i| quad([i, 0, 0], 1, 1, VoxelFace::PositiveY, 0)).collect();
    let meshlets = build_meshlets(quads.clone());
    assert_eq!(MAX_QUADS_PER_MESHLET, 16);
    assert_eq!(meshlets.iter().map(|m| m.quads.len()).collect::<Vec<_>>(), vec![16, 16, 8]);
    let flat: Vec<u8> = meshlets.iter().flat_map(|m| m.quads.iter().map(|q| q.min[0])).collect();
    assert_eq!(flat, (0..40u8).collect::<Vec<_>>());
}

#[test]
fn build_meshlets_of_nothing_is_empty() {
    assert!(build_meshlets(Vec::new()).is_empty());
}

#[test]
fn meshlet_bounds_cover_its_quads() {
    let quads = vec![
        quad([2, 3, 4], 5, 6, VoxelFace::PositiveZ, 0),
        quad([1, 10, 4], 2, 3, VoxelFace::NegativeX, 0),
        quad([0, 0, 9], 4, 2, VoxelFace::PositiveY, 0),
    ];
    let meshlets = build_meshlets(quads);
    assert_eq!(meshlets.len(), 1);
    let m = &meshlets[0];
    assert_eq!(m.bounds_min, [0, 0, 4]);
    assert_eq!(m.bounds_max, [7, 13, 11]);
}

#[test]
fn empty_meshlet_has_sentinel_bounds() {
    let m = Meshlet::default();
    assert!(m.quads.is_empty());
    assert_eq!(m.bounds_min, [i32::MAX; 3]);
    assert_eq!(m.bounds_max, [i32::MIN; 3]);
}

#[test]
fn add_quad_grows_the_box() {
    let mut m = Meshlet::default();
    m.add_quad(&quad([4, 4, 4], 2, 3, VoxelFace::PositiveX, 0));
    assert_eq!(m.bounds_min, [4, 4, 4]);
    assert_eq!(m.bounds_max, [4, 7, 6]);
    m.add_quad(&quad([1, 5, 5], 1, 1, VoxelFace::NegativeY, 0));
    assert_eq!(m.bounds_min, [1, 4, 4]);
    assert_eq!(m.bounds_max, [4, 7, 6]);
    assert_eq!(m.quads.len(), 2);
}

#[test]
fn flatten_records_offsets_and_counts() {
    let quads: Vec<UnpackedQuad> = (0..20u8).map(|i| quad([i, 1, 2], 1, 1, VoxelFace::PositiveY, 3)).collect();
    let meshlets = build_meshlets(quads.clone());
    let (ranges, gpu) = flatten_meshlets(&meshlets);
    assert_eq!(ranges, vec![MeshletRange { quad_offset: 0, quad_count: 16 }, MeshletRange { quad_offset: 16, quad_count: 4 }]);
    assert_eq!(gpu.len(), 20);
    for (q, g) in quads.iter().zip(gpu.iter()) {
        assert_eq!(*g, pack_quad(q));
    }
}

#[test]
fn concat_moves_offsets_past_earlier_chunks() {
    let a = (
        vec![MeshletRange { quad_offset: 0, quad_count: 2 }],
        vec![GpuQuad { geometry_data: 1, material_data: 1 }, GpuQuad { geometry_data: 2, material_data: 2 }],
    );
    let b = (
        vec![MeshletRange { quad_offset: 0, quad_count: 1 }, MeshletRange { quad_offset: 1, quad_count: 2 }],
        vec![
            GpuQuad { geometry_data: 3, material_data: 3 },
            GpuQuad { geometry_data: 4, material_data: 4 },
            GpuQuad { geometry_data: 5, material_data: 5 },
        ],
    );
    let (ranges, quads) = concat_chunk_geometry(&vec![a, b]);
    assert_eq!(
        ranges,
        vec![
            MeshletRange { quad_offset: 0, quad_count: 2 },
            MeshletRange { quad_offset: 2, quad_count: 1 },
            MeshletRange { quad_offset: 3, quad_count: 2 },
        ]
    );
    assert_eq!(quads.iter().map(|q| q.geometry_data).collect::<Vec<_>>(), vec![1, 2, 3, 4, 5]);
}

#[test]
fn concat_of_nothing_is_empty() {
    let (ranges, quads) = concat_chunk_geometry(&Vec::new());
    assert!(ranges.is_empty());
    assert!(quads.is_empty());
}

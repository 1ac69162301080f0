use anantham_core::block::BlockState;
use anantham_core::chunk::Chunk;
use anantham_core::coords::IVec3;
use anantham_core::meshing::{generate_greedy_quads, get_face, MeshingContext, UnpackedQuad, VoxelFace};
use anantham_core::meshing_registry::MeshingAttributes;
use anantham_core::registry::PropertyRegistry;

fn index(x: usize, y: usize, z: usize) -> usize {
    x + y * 32 + z * 1024
}

fn lone_context(center: Chunk) -> MeshingContext {
    MeshingContext { center, neighbors: [None, None, None, None, None, None] }
}

fn registry_with(solid_material: u16) -> PropertyRegistry<MeshingAttributes> {
    PropertyRegistry { data: vec![MeshingAttributes::air(), MeshingAttributes::new(true, false, 0, solid_material)] }
}

fn faces_of(quads: &[UnpackedQuad]) -> Vec<VoxelFace> {
    quads.iter().map(|q| q.face).collect()
}

#[test]
fn get_face_maps_axis_and_direction() {
    assert_eq!(get_face(0, true), VoxelFace::PositiveX);
    assert_eq!(get_face(0, false), VoxelFace::NegativeX);
    assert_eq!(get_face(1, true), VoxelFace::PositiveY);
    assert_eq!(get_face(1, false), VoxelFace::NegativeY);
    assert_eq!(get_face(2, true), VoxelFace::PositiveZ);
    assert_eq!(get_face(2, false), VoxelFace::NegativeZ);
}

#[test]
fn empty_chunk_has_no_quads() {
    let ctx = lone_context(Chunk::default());
    let quads = generate_greedy_quads(&ctx, &registry_with(0));
    assert!(quads.is_empty());
}

#[test]
fn single_block_gives_six_unit_quads() {
    let mut center = Chunk::default();
    center.set_block_unchecked(index(5, 6, 7), BlockState(1));
    let ctx = lone_context(center);
    let quads = generate_greedy_quads(&ctx, &registry_with(9));
    assert_eq!(quads.len(), 6);
    let faces = faces_of(&quads);
    for f in [
        VoxelFace::NegativeX,
        VoxelFace::PositiveX,
        VoxelFace::NegativeY,
        VoxelFace::PositiveY,
        VoxelFace::NegativeZ,
        VoxelFace::PositiveZ,
    ] {
        assert_eq!(faces.iter().filter(|g| **g == f).count(), 1);
    }
    for q in &quads {
        assert_eq!((q.width, q.height), (1, 1));
        assert_eq!(q.state, BlockState(1));
        assert_eq!(q.material_id, 9);
        let expected_min = match q.face {
            VoxelFace::NegativeX => [5, 6, 7],
            VoxelFace::PositiveX => [6, 6, 7],
            VoxelFace::NegativeY => [5, 6, 7],
            VoxelFace::PositiveY => [5, 7, 7],
            VoxelFace::NegativeZ => [5, 6, 7],
            VoxelFace::PositiveZ => [5, 6, 8],
        };
        assert_eq!(q.min, expected_min);
    }
}

#[test]
fn full_floor_merges_into_six_quads() {
    let mut center = Chunk::default();
    let deltas: Vec<(usize, BlockState)> =
        (0..32).flat_map(|x| (0..32).map(move |z| (index(x, 0, z), BlockState(1)))).collect();
    center.set_block_batch_unchecked(&deltas);
    let ctx = lone_context(center);
    let quads = generate_greedy_quads(&ctx, &registry_with(0));
    assert_eq!(quads.len(), 6);
    let area: u32 = quads.iter().map(|q| q.width as u32 * q.height as u32).sum();
    assert_eq!(area, 2 * 32 * 32 + 4 * 32);
    for q in &quads {
        match q.face {
            VoxelFace::PositiveY | VoxelFace::NegativeY => assert_eq!((q.width, q.height), (32, 32)),
            _ => assert_eq!(q.width as u32 * q.height as u32, 32),
        }
    }
}

#[test]
fn neighbour_block_hides_the_shared_face() {
    let mut center = Chunk::default();
    center.set_block_unchecked(index(0, 5, 5), BlockState(1));
    let mut west = Chunk::default();
    west.set_block_unchecked(index(31, 5, 5), BlockState(1));
    let ctx = MeshingContext { center, neighbors: [Some(west), None, None, None, None, None] };
    assert_eq!(ctx.get_block_extended(IVec3::new(-1, 5, 5)), BlockState(1));
    assert_eq!(ctx.get_block_extended(IVec3::new(-1, 6, 5)), BlockState(0));
    assert_eq!(ctx.get_block_extended(IVec3::new(32, 5, 5)), BlockState(0));
    let quads = generate_greedy_quads(&ctx, &registry_with(0));
    assert_eq!(quads.len(), 5);
    assert!(!faces_of(&quads).contains(&VoxelFace::NegativeX));
}

#[test]
fn transparent_neighbour_keeps_the_face() {
    let mut center = Chunk::default();
    center.set_block_unchecked(index(3, 3, 3), BlockState(1));
    center.set_block_unchecked(index(4, 3, 3), BlockState(2));
    let ctx = lone_context(center);
    let registry = PropertyRegistry {
        data: vec![
            MeshingAttributes::air(),
            MeshingAttributes::solid(),
            MeshingAttributes::new(true, true, 0, 4),
        ],
    };
    let quads = generate_greedy_quads(&ctx, &registry);
    let solid_px = quads.iter().filter(|q| q.state == BlockState(1) && q.face == VoxelFace::PositiveX).count();
    assert_eq!(solid_px, 1);
    let glass_nx = quads.iter().filter(|q| q.state == BlockState(2) && q.face == VoxelFace::NegativeX).count();
    assert_eq!(glass_nx, 0);
    assert!(quads.iter().filter(|q| q.state == BlockState(2)).all(|q| q.material_id == 4));
}

#[test]
fn states_fit_checks_every_chunk() {
    let mut center = Chunk::default();
    center.set_block_unchecked(index(1, 1, 1), BlockState(2));
    let mut up = Chunk::default();
    up.set_block_unchecked(index(0, 0, 0), BlockState(4));
    let ctx = MeshingContext { center, neighbors: [None, None, None, Some(up), None, None] };
    assert!(!ctx.states_fit(0));
    assert!(!ctx.states_fit(3));
    assert!(!ctx.states_fit(4));
    assert!(ctx.states_fit(5));
}

#[test]
fn greedy_merges_along_the_first_axis_first() {
    // An L of three blocks on the floor: (0,0,0), (1,0,0), (0,0,1).
    let mut center = Chunk::default();
    center.set_block_unchecked(index(0, 0, 0), BlockState(1));
    center.set_block_unchecked(index(1, 0, 0), BlockState(1));
    center.set_block_unchecked(index(0, 0, 1), BlockState(1));
    let ctx = lone_context(center);
    let quads = generate_greedy_quads(&ctx, &registry_with(0));
    // Top faces lie on the plane y = 1; within it rows run along x and cells along z.
    let tops: Vec<&UnpackedQuad> = quads.iter().filter(|q| q.face == VoxelFace::PositiveY).collect();
    assert_eq!(tops.len(), 2);
    assert_eq!((tops[0].min, tops[0].width, tops[0].height), ([0, 1, 0], 2, 1));
    assert_eq!((tops[1].min, tops[1].width, tops[1].height), ([1, 1, 0], 1, 1));
}

#[test]
fn quads_come_plane_by_plane() {
    let mut center = Chunk::default();
    center.set_block_unchecked(index(2, 3, 4), BlockState(1));
    center.set_block_unchecked(index(9, 9, 9), BlockState(1));
    let ctx = lone_context(center);
    let quads = generate_greedy_quads(&ctx, &registry_with(0));
    let plane = |q: &UnpackedQuad| {
        let axis = match q.face {
            VoxelFace::NegativeX | VoxelFace::PositiveX => 0,
            VoxelFace::NegativeY | VoxelFace::PositiveY => 1,
            VoxelFace::NegativeZ | VoxelFace::PositiveZ => 2,
        };
        (axis, q.min[axis])
    };
    assert_eq!(quads.len(), 12);
    for w in quads.windows(2) {
        assert!(plane(&w[0]) <= plane(&w[1]));
    }
}

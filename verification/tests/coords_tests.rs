use anantham_core::coords::{global_to_local, local_to_index, neighbor_chunk_origins, IVec3, CHUNK_SIZE, CHUNK_VOLUME};

#[test]
fn chunk_dimensions() {
    assert_eq!(CHUNK_SIZE, 32);
    assert_eq!(CHUNK_VOLUME, 32 * 32 * 32);
}

#[test]
fn local_index_is_x_major() {
    assert_eq!(local_to_index(IVec3::new(0, 0, 0)), 0);
    assert_eq!(local_to_index(IVec3::new(1, 0, 0)), 1);
    assert_eq!(local_to_index(IVec3::new(0, 1, 0)), 32);
    assert_eq!(local_to_index(IVec3::new(0, 0, 1)), 1024);
    assert_eq!(local_to_index(IVec3::new(31, 31, 31)), 32767);
    assert_eq!(local_to_index(IVec3::new(3, 2, 1)), 3 + 64 + 1024);
}

#[test]
fn global_to_local_positive() {
    let (chunk, local) = global_to_local(IVec3::new(33, 64, 5));
    assert_eq!(chunk, IVec3::new(32, 64, 0));
    assert_eq!(local, IVec3::new(1, 0, 5));
}

#[test]
fn global_to_local_negative_uses_floor() {
    let (chunk, local) = global_to_local(IVec3::new(-1, -32, -33));
    assert_eq!(chunk, IVec3::new(-32, -32, -64));
    assert_eq!(local, IVec3::new(31, 0, 31));
}

#[test]
fn global_to_local_extremes() {
    let (chunk, local) = global_to_local(IVec3::new(i32::MIN, i32::MAX, 0));
    assert_eq!(chunk, IVec3::new(i32::MIN, i32::MAX - 31, 0));
    assert_eq!(local, IVec3::new(0, 31, 0));
}

#[test]
fn split_then_join_round_trips() {
    for v in [-100i32, -33, -32, -31, -1, 0, 1, 31, 32, 95] {
        let g = IVec3::new(v, v * 3, -v);
        let (chunk, local) = global_to_local(g);
        assert_eq!(IVec3::new(chunk.x + local.x, chunk.y + local.y, chunk.z + local.z), g);
    }
}

#[test]
fn neighbour_origins_in_face_order() {
    let n = neighbor_chunk_origins(IVec3::new(32, 0, -64));
    assert_eq!(n[0], IVec3::new(0, 0, -64));
    assert_eq!(n[1], IVec3::new(64, 0, -64));
    assert_eq!(n[2], IVec3::new(32, -32, -64));
    assert_eq!(n[3], IVec3::new(32, 32, -64));
    assert_eq!(n[4], IVec3::new(32, 0, -96));
    assert_eq!(n[5], IVec3::new(32, 0, -32));
}

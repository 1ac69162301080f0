use anantham_core::block::BlockState;
use anantham_core::chunk::{Chunk, ChunkError};
use anantham_core::coords::IVec3;
use anantham_core::world::{ground_layer_deltas, group_deltas_by_chunk, WorldAccessError};

#[test]
fn groups_by_chunk_in_first_appearance_order() {
    let deltas = vec![
        (IVec3::new(1, 2, 3), BlockState(1)),
        (IVec3::new(-1, 0, 0), BlockState(2)),
        (IVec3::new(31, 31, 31), BlockState(3)),
        (IVec3::new(-32, 5, 0), BlockState(4)),
    ];
    let groups = group_deltas_by_chunk(&deltas);
    assert_eq!(groups.len(), 2);
    assert_eq!(groups[0].0, IVec3::new(0, 0, 0));
    assert_eq!(groups[0].1, vec![(1 + 2 * 32 + 3 * 1024, BlockState(1)), (32767, BlockState(3))]);
    assert_eq!(groups[1].0, IVec3::new(-32, 0, 0));
    assert_eq!(groups[1].1, vec![(31, BlockState(2)), (5 * 32, BlockState(4))]);
}

#[test]
fn no_deltas_no_groups() {
    assert!(group_deltas_by_chunk(&[]).is_empty());
}

#[test]
fn grouped_batch_matches_single_writes() {
    let deltas: Vec<(IVec3, BlockState)> =
        (0..70).map(|i| (IVec3::new(i - 35, i % 7, -(i % 40)), BlockState(1 + (i as u32 % 5)))).collect();
    let groups = group_deltas_by_chunk(&deltas);
    for (origin, local_deltas) in &groups {
        let mut batched = Chunk::default();
        batched.set_block_batch_unchecked(local_deltas);
        let mut single = Chunk::default();
        for (g, s) in &deltas {
            let o = IVec3::new(g.x.div_euclid(32) * 32, g.y.div_euclid(32) * 32, g.z.div_euclid(32) * 32);
            if o == *origin {
                let l = IVec3::new(g.x.rem_euclid(32), g.y.rem_euclid(32), g.z.rem_euclid(32));
                single.set_block(l, *s, 10).unwrap();
            }
        }
        for i in 0..32768 {
            assert_eq!(batched.get_block_unchecked(i), single.get_block_unchecked(i));
        }
    }
}

#[test]
fn chunk_errors_convert() {
    assert_eq!(WorldAccessError::from(ChunkError::OutOfLocalBounds), WorldAccessError::ChunkError(ChunkError::OutOfLocalBounds));
    let e: WorldAccessError = ChunkError::UnregisteredBlockSet.into();
    assert_eq!(e, WorldAccessError::ChunkError(ChunkError::UnregisteredBlockSet));
}

#[test]
fn ground_layer_covers_the_bottom_layers_only() {
    let deltas = ground_layer_deltas(BlockState(7), 5);
    assert_eq!(deltas.len(), 5 * 1024);
    assert_eq!(deltas[0], (0, BlockState(7)));
    assert_eq!(deltas[1], (1, BlockState(7)));
    assert_eq!(deltas[32 * 5], (1024, BlockState(7)));
    assert!(deltas.iter().all(|(i, s)| (i / 32) % 32 < 5 && *s == BlockState(7)));
    assert!(ground_layer_deltas(BlockState(7), 0).is_empty());
    assert_eq!(ground_layer_deltas(BlockState(7), 32).len(), 32768);
}

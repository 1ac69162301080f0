use anantham_core::block::BlockState;
use anantham_core::chunk::{read_paletted4, write_paletted4_unchecked, Chunk, ChunkData, ChunkError};
use anantham_core::coords::IVec3;

fn all_blocks(chunk: &Chunk) -> Vec<BlockState> {
    (0..32768).map(|i| chunk.get_block_unchecked(i)).collect()
}

#[test]
fn default_chunk_is_air() {
    let chunk = Chunk::default();
    assert!(matches!(chunk.data, ChunkData::Homogenous(BlockState(0))));
    assert_eq!(chunk.get_block(IVec3::new(0, 0, 0)), Ok(BlockState(0)));
    assert_eq!(chunk.get_block(IVec3::new(31, 31, 31)), Ok(BlockState(0)));
}

#[test]
fn get_block_out_of_bounds() {
    let chunk = Chunk::default();
    assert_eq!(chunk.get_block(IVec3::new(32, 0, 0)), Err(ChunkError::OutOfLocalBounds));
    assert_eq!(chunk.get_block(IVec3::new(0, -1, 0)), Err(ChunkError::OutOfLocalBounds));
    assert_eq!(chunk.get_block(IVec3::new(0, 0, 40)), Err(ChunkError::OutOfLocalBounds));
}

#[test]
fn set_block_errors() {
    let mut chunk = Chunk::default();
    assert_eq!(chunk.set_block(IVec3::new(-1, 0, 0), BlockState(1), 10), Err(ChunkError::OutOfLocalBounds));
    assert_eq!(chunk.set_block(IVec3::new(0, 0, 0), BlockState(10), 10), Err(ChunkError::UnregisteredBlockSet));
    assert!(matches!(chunk.data, ChunkData::Homogenous(BlockState(0))));
}

#[test]
fn set_block_same_state_keeps_homogenous() {
    let mut chunk = Chunk::default();
    assert_eq!(chunk.set_block(IVec3::new(3, 4, 5), BlockState(0), 10), Ok(()));
    assert!(matches!(chunk.data, ChunkData::Homogenous(BlockState(0))));
}

#[test]
fn set_then_get_reads_back() {
    let mut chunk = Chunk::default();
    assert_eq!(chunk.set_block(IVec3::new(1, 2, 3), BlockState(7), 10), Ok(()));
    assert_eq!(chunk.get_block(IVec3::new(1, 2, 3)), Ok(BlockState(7)));
    assert_eq!(chunk.get_block(IVec3::new(3, 2, 1)), Ok(BlockState(0)));
    match &chunk.data {
        ChunkData::Paletted4 { palette, indices } => {
            assert_eq!(palette, &vec![BlockState(0), BlockState(7)]);
            assert_eq!(indices.len(), 16384);
        }
        _ => panic!("expected a 4-bit chunk"),
    }
}

#[test]
fn tiers_grow_with_distinct_states() {
    let mut chunk = Chunk::default();
    for i in 0..300u32 {
        chunk.set_block_unchecked(i as usize, BlockState(i + 1));
        let tier_ok = match &chunk.data {
            ChunkData::Paletted4 { palette, .. } => palette.len() <= 16 && i < 15,
            ChunkData::Paletted8 { palette, .. } => palette.len() <= 256 && (15..255).contains(&i),
            ChunkData::Paletted16 { .. } => i >= 255,
            ChunkData::Homogenous(_) => false,
        };
        assert!(tier_ok, "unexpected tier after {} writes", i + 1);
    }
    let blocks = all_blocks(&chunk);
    for i in 0..300usize {
        assert_eq!(blocks[i], BlockState(i as u32 + 1));
    }
    for i in 300..32768usize {
        assert_eq!(blocks[i], BlockState(0));
    }
}

#[test]
fn overwrite_uses_existing_palette_entry() {
    let mut chunk = Chunk::default();
    chunk.set_block_unchecked(10, BlockState(5));
    chunk.set_block_unchecked(11, BlockState(5));
    chunk.set_block_unchecked(10, BlockState(0));
    match &chunk.data {
        ChunkData::Paletted4 { palette, .. } => assert_eq!(palette.len(), 2),
        _ => panic!("expected a 4-bit chunk"),
    }
    assert_eq!(chunk.get_block_unchecked(10), BlockState(0));
    assert_eq!(chunk.get_block_unchecked(11), BlockState(5));
}

#[test]
fn nibble_write_then_read() {
    let mut indices = vec![0u8; 4];
    write_paletted4_unchecked(&mut indices, 0, 0xA);
    write_paletted4_unchecked(&mut indices, 1, 0x5);
    write_paletted4_unchecked(&mut indices, 6, 0xF);
    assert_eq!(indices, vec![0xA5, 0x00, 0x00, 0xF0]);
    assert_eq!(read_paletted4(&indices, 0), 0xA);
    assert_eq!(read_paletted4(&indices, 1), 0x5);
    assert_eq!(read_paletted4(&indices, 6), 0xF);
    assert_eq!(read_paletted4(&indices, 7), 0x0);
    write_paletted4_unchecked(&mut indices, 1, 0x3);
    assert_eq!(read_paletted4(&indices, 0), 0xA);
    assert_eq!(read_paletted4(&indices, 1), 0x3);
}

#[test]
fn batch_on_homogenous_same_state_is_noop() {
    let mut chunk = Chunk::default();
    chunk.set_block_batch_unchecked(&[(0, BlockState(0)), (5, BlockState(0))]);
    assert!(matches!(chunk.data, ChunkData::Homogenous(BlockState(0))));
}

#[test]
fn batch_empty_is_noop() {
    let mut chunk = Chunk::default();
    chunk.set_block_batch_unchecked(&[]);
    assert!(matches!(chunk.data, ChunkData::Homogenous(BlockState(0))));
}

#[test]
fn batch_last_write_wins() {
    let mut chunk = Chunk::default();
    chunk.set_block_batch_unchecked(&[(4, BlockState(1)), (9, BlockState(2)), (4, BlockState(3))]);
    assert!(matches!(chunk.data, ChunkData::Paletted4 { .. }));
    assert_eq!(chunk.get_block_unchecked(4), BlockState(3));
    assert_eq!(chunk.get_block_unchecked(9), BlockState(2));
    assert_eq!(chunk.get_block_unchecked(0), BlockState(0));
}

#[test]
fn batch_upgrades_to_the_tier_it_needs() {
    let deltas8: Vec<(usize, BlockState)> = (0..20).map(|i| (i * 3, BlockState(i as u32 + 1))).collect();
    let mut chunk = Chunk::default();
    chunk.set_block_batch_unchecked(&deltas8);
    assert!(matches!(chunk.data, ChunkData::Paletted8 { .. }));
    for (idx, s) in &deltas8 {
        assert_eq!(chunk.get_block_unchecked(*idx), *s);
    }
    assert_eq!(chunk.get_block_unchecked(1), BlockState(0));

    let deltas16: Vec<(usize, BlockState)> = (0..300).map(|i| (i, BlockState(i as u32 + 100))).collect();
    chunk.set_block_batch_unchecked(&deltas16);
    assert!(matches!(chunk.data, ChunkData::Paletted16 { .. }));
    for (idx, s) in &deltas16 {
        assert_eq!(chunk.get_block_unchecked(*idx), *s);
    }
    assert_eq!(chunk.get_block_unchecked(301), BlockState(0));
}

#[test]
fn batch_from_4_bit_to_8_bit_keeps_old_blocks() {
    let mut chunk = Chunk::default();
    chunk.set_block_unchecked(100, BlockState(50));
    let deltas: Vec<(usize, BlockState)> = (0..20).map(|i| (i, BlockState(i as u32 + 1))).collect();
    chunk.set_block_batch_unchecked(&deltas);
    assert!(matches!(chunk.data, ChunkData::Paletted8 { .. }));
    assert_eq!(chunk.get_block_unchecked(100), BlockState(50));
    assert_eq!(chunk.get_block_unchecked(19), BlockState(20));
    assert_eq!(chunk.get_block_unchecked(20), BlockState(0));
}

#[test]
fn batch_matches_single_writes() {
    let deltas: Vec<(usize, BlockState)> = (0..40).map(|i| ((i * 977) % 32768, BlockState((i % 7) as u32))).collect();
    let mut batched = Chunk::default();
    batched.set_block_batch_unchecked(&deltas);
    let mut single = Chunk::default();
    for (idx, s) in &deltas {
        single.set_block_unchecked(*idx, *s);
    }
    assert_eq!(all_blocks(&batched), all_blocks(&single));
}

#[test]
fn well_formed_chunks_pass_the_check() {
    let mut chunk = Chunk::default();
    assert!(chunk.data.is_well_formed());
    for i in 0..20u32 {
        chunk.set_block_unchecked((i * 31) as usize, BlockState(i));
        assert!(chunk.data.is_well_formed());
    }
}

#[test]
fn malformed_chunks_fail_the_check() {
    let short = ChunkData::Paletted4 { palette: vec![BlockState(0)], indices: vec![0; 100] };
    assert!(!short.is_well_formed());
    let mut indices = vec![0u8; 16384];
    indices[7] = 0x02;
    let dangling = ChunkData::Paletted4 { palette: vec![BlockState(0), BlockState(1)], indices };
    assert!(!dangling.is_well_formed());
    let big_palette = ChunkData::Paletted8 { palette: vec![BlockState(0); 300], indices: vec![0; 32768] };
    assert!(!big_palette.is_well_formed());
    let mut wide = vec![0u16; 32768];
    wide[32767] = 5;
    let dangling16 = ChunkData::Paletted16 { palette: vec![BlockState(0); 5], indices: wide };
    assert!(!dangling16.is_well_formed());
}

#[test]
fn writing_into_a_homogenous_chunk_always_builds_a_palette() {
    let mut chunk = Chunk::default();
    chunk.set_block_unchecked(3, BlockState(0));
    match &chunk.data {
        ChunkData::Paletted4 { palette, .. } => assert_eq!(palette, &vec![BlockState(0), BlockState(0)]),
        _ => panic!("expected a 4-bit chunk"),
    }
    assert!(all_blocks(&chunk).iter().all(|s| *s == BlockState(0)));
}

#[test]
fn single_writes_append_new_states_to_the_palette() {
    let mut chunk = Chunk::default();
    for (i, s) in [5u32, 6, 5, 7].iter().enumerate() {
        chunk.set_block_unchecked(i, BlockState(*s));
    }
    match &chunk.data {
        ChunkData::Paletted4 { palette, .. } => {
            assert_eq!(palette, &vec![BlockState(0), BlockState(5), BlockState(6), BlockState(7)])
        }
        _ => panic!("expected a 4-bit chunk"),
    }
}

#[test]
fn batch_extends_the_palette_in_first_appearance_order() {
    let mut chunk = Chunk::default();
    chunk.set_block_unchecked(0, BlockState(9));
    chunk.set_block_batch_unchecked(&[(1, BlockState(4)), (2, BlockState(9)), (3, BlockState(2)), (4, BlockState(4))]);
    match &chunk.data {
        ChunkData::Paletted4 { palette, .. } => {
            assert_eq!(palette, &vec![BlockState(0), BlockState(9), BlockState(4), BlockState(2)])
        }
        _ => panic!("expected a 4-bit chunk"),
    }
}

#[test]
fn batch_into_homogenous_picks_the_smallest_tier() {
    let mut chunk = Chunk::default();
    let deltas: Vec<(usize, BlockState)> = (0..100).map(|i| (i, BlockState(i as u32 % 20))).collect();
    chunk.set_block_batch_unchecked(&deltas);
    match &chunk.data {
        ChunkData::Paletted8 { palette, .. } => assert_eq!(palette.len(), 20),
        _ => panic!("expected an 8-bit chunk"),
    }
    let mut big = Chunk::default();
    let many: Vec<(usize, BlockState)> = (0..300).map(|i| (i, BlockState(i as u32 + 1))).collect();
    big.set_block_batch_unchecked(&many);
    assert!(matches!(big.data, ChunkData::Paletted16 { .. }));
}

use anantham_core::block::BlockState;
use anantham_core::chunk::{Chunk, ChunkData};
use anantham_core::compression::attempt_compression;

fn blocks_of(data: &ChunkData) -> Vec<BlockState> {
    let chunk = Chunk { data: data.clone() };
    (0..32768).map(|i| chunk.get_block_unchecked(i)).collect()
}

#[test]
fn homogenous_is_not_compressed() {
    assert!(attempt_compression(ChunkData::Homogenous(BlockState(3))).is_none());
}

#[test]
fn paletted4_with_one_used_entry_becomes_homogenous() {
    let data = ChunkData::Paletted4 {
        palette: vec![BlockState(1), BlockState(2)],
        indices: vec![0x11; 16384],
    };
    match attempt_compression(data) {
        Some(ChunkData::Homogenous(s)) => assert_eq!(s, BlockState(2)),
        _ => panic!("expected a homogenous chunk"),
    }
}

#[test]
fn paletted4_with_two_used_entries_stays() {
    let mut indices = vec![0u8; 16384];
    indices[0] = 0x10;
    let data = ChunkData::Paletted4 { palette: vec![BlockState(1), BlockState(2)], indices };
    assert!(attempt_compression(data).is_none());
}

#[test]
fn paletted8_with_few_used_entries_becomes_paletted4() {
    let palette: Vec<BlockState> = (0..40).map(|i| BlockState(i + 10)).collect();
    let indices: Vec<u8> = (0..32768).map(|i| [3u8, 17, 39][i % 3]).collect();
    let data = ChunkData::Paletted8 { palette, indices };
    let before = blocks_of(&data);
    match attempt_compression(data) {
        Some(compressed @ ChunkData::Paletted4 { .. }) => {
            if let ChunkData::Paletted4 { palette, .. } = &compressed {
                assert_eq!(palette, &vec![BlockState(13), BlockState(27), BlockState(49)]);
            }
            assert_eq!(blocks_of(&compressed), before);
        }
        _ => panic!("expected a 4-bit chunk"),
    }
}

#[test]
fn paletted8_with_many_used_entries_stays() {
    let palette: Vec<BlockState> = (0..40).map(BlockState).collect();
    let indices: Vec<u8> = (0..32768).map(|i| (i % 20) as u8).collect();
    assert!(attempt_compression(ChunkData::Paletted8 { palette, indices }).is_none());
}

#[test]
fn paletted16_with_some_used_entries_becomes_paletted8() {
    let palette: Vec<BlockState> = (0..1000).map(|i| BlockState(i * 2)).collect();
    let indices: Vec<u16> = (0..32768).map(|i| ((i % 100) * 7) as u16).collect();
    let data = ChunkData::Paletted16 { palette, indices };
    let before = blocks_of(&data);
    match attempt_compression(data) {
        Some(compressed @ ChunkData::Paletted8 { .. }) => {
            if let ChunkData::Paletted8 { palette, .. } = &compressed {
                assert_eq!(palette.len(), 100);
            }
            assert_eq!(blocks_of(&compressed), before);
        }
        _ => panic!("expected an 8-bit chunk"),
    }
}

#[test]
fn paletted16_with_one_used_entry_becomes_homogenous() {
    let palette: Vec<BlockState> = (0..300).map(BlockState).collect();
    let indices: Vec<u16> = vec![299; 32768];
    match attempt_compression(ChunkData::Paletted16 { palette, indices }) {
        Some(ChunkData::Homogenous(s)) => assert_eq!(s, BlockState(299)),
        _ => panic!("expected a homogenous chunk"),
    }
}

#[test]
fn paletted16_with_sixteen_used_entries_becomes_paletted4() {
    let palette: Vec<BlockState> = (0..300).map(BlockState).collect();
    let indices: Vec<u16> = (0..32768).map(|i| (280 + i % 16) as u16).collect();
    let data = ChunkData::Paletted16 { palette, indices };
    let before = blocks_of(&data);
    match attempt_compression(data) {
        Some(compressed @ ChunkData::Paletted4 { .. }) => assert_eq!(blocks_of(&compressed), before),
        _ => panic!("expected a 4-bit chunk"),
    }
}

#[test]
fn paletted16_with_many_used_entries_stays() {
    let palette: Vec<BlockState> = (0..600).map(BlockState).collect();
    let indices: Vec<u16> = (0..32768).map(|i| (i % 300) as u16).collect();
    assert!(attempt_compression(ChunkData::Paletted16 { palette, indices }).is_none());
}

#[test]
fn compressed_palette_keeps_palette_order() {
    let palette: Vec<BlockState> = (0..300).map(|i| BlockState(1000 + i)).collect();
    let indices: Vec<u16> = (0..32768).map(|i| [250u16, 3, 120, 3][i % 4]).collect();
    match attempt_compression(ChunkData::Paletted16 { palette, indices }) {
        Some(ChunkData::Paletted4 { palette, .. }) => {
            assert_eq!(palette, vec![BlockState(1003), BlockState(1120), BlockState(1250)])
        }
        _ => panic!("expected a 4-bit chunk"),
    }
}

#[test]
fn uncompressed_chunks_are_already_in_their_tier() {
    let palette: Vec<BlockState> = (0..16).map(BlockState).collect();
    let mut indices = vec![0u8; 16384];
    for (k, byte) in indices.iter_mut().enumerate() {
        *byte = ((k % 16) as u8) << 4 | ((k + 1) % 16) as u8;
    }
    let data = ChunkData::Paletted4 { palette, indices };
    assert!(attempt_compression(data).is_none());
}

#[test]
fn compressing_twice_changes_nothing_more() {
    let palette: Vec<BlockState> = (0..600).map(BlockState).collect();
    let indices: Vec<u16> = (0..32768).map(|i| (i % 40) as u16 * 3).collect();
    let once = attempt_compression(ChunkData::Paletted16 { palette, indices }).expect("a smaller tier fits");
    assert!(matches!(once, ChunkData::Paletted8 { .. }));
    assert!(attempt_compression(once).is_none());
}

fn palette_of(data: &ChunkData) -> Vec<BlockState> {
    match data {
        ChunkData::Homogenous(s) => vec![*s],
        ChunkData::Paletted4 { palette, .. }
        | ChunkData::Paletted8 { palette, .. }
        | ChunkData::Paletted16 { palette, .. } => palette.clone(),
    }
}

fn has_no_repeats(p: &[BlockState]) -> bool {
    (0..p.len()).all(|a| (a + 1..p.len()).all(|b| p[a] != p[b]))
}

#[test]
fn writes_and_compression_keep_tiers_sized_and_palettes_distinct() {
    let mut chunk = Chunk::default();
    for k in 0..20u32 {
        chunk.set_block_unchecked(k as usize, BlockState(k + 1));
        let p = palette_of(&chunk.data);
        assert!(has_no_repeats(&p));
        match &chunk.data {
            ChunkData::Paletted4 { palette, .. } => assert!((2..=16).contains(&palette.len())),
            ChunkData::Paletted8 { palette, .. } => assert!((17..=256).contains(&palette.len())),
            _ => panic!("unexpected tier"),
        }
    }
    for k in 3..20usize {
        chunk.set_block_unchecked(k, BlockState(1));
    }
    match attempt_compression(chunk.data.clone()) {
        Some(d) => {
            let p = palette_of(&d);
            assert!(has_no_repeats(&p));
            match &d {
                ChunkData::Paletted4 { palette, .. } => assert_eq!(palette.len(), 4),
                _ => panic!("expected the 4-bit tier"),
            }
            assert_eq!(blocks_of(&d), blocks_of(&chunk.data));
        }
        None => panic!("expected a smaller tier"),
    }
}

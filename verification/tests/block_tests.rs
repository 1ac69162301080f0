use anantham_core::block::{identify_archetype, Archetype, Block, BlockState, SHAPE_EMPTY, SHAPE_FULL};

#[test]
fn air_is_state_zero() {
    assert_eq!(BlockState::air(), BlockState(0));
}

#[test]
fn full_and_empty_masks() {
    assert_eq!(identify_archetype(SHAPE_FULL), Archetype::Full);
    assert_eq!(identify_archetype(SHAPE_EMPTY), Archetype::Empty);
}

#[test]
fn quarter_has_one_sub_voxel_left() {
    assert_eq!(identify_archetype(0b1111_1110), Archetype::Quarter);
    assert_eq!(identify_archetype(0b0111_1111), Archetype::Quarter);
}

#[test]
fn slabs_and_vertical_slabs() {
    assert_eq!(identify_archetype(0x0F), Archetype::Slab);
    assert_eq!(identify_archetype(0xF0), Archetype::Slab);
    for m in [0xCCu8, 0x33, 0xAA, 0x55] {
        assert_eq!(identify_archetype(m), Archetype::VerticalSlab);
    }
}

#[test]
fn stairs_in_every_orientation() {
    for m in [0b0000_0011u8, 0b0000_1100, 0b0011_0000, 0b1100_0000, 0b0000_0101, 0b0000_1010, 0b0101_0000, 0b1010_0000] {
        assert_eq!(identify_archetype(m), Archetype::Stair);
    }
}

#[test]
fn other_shapes_are_irregular_with_their_volume() {
    assert_eq!(identify_archetype(0b0000_0001), Archetype::Irregular(7));
    assert_eq!(identify_archetype(0b0001_0001), Archetype::Irregular(6));
    assert_eq!(identify_archetype(0b1001_0110), Archetype::Irregular(4));
    assert_eq!(identify_archetype(0b0000_0111), Archetype::Irregular(5));
    assert_eq!(identify_archetype(0b0011_1111), Archetype::Irregular(2));
}

#[test]
fn every_mask_has_a_consistent_class() {
    for m in 0..=255u8 {
        let missing = m.count_ones() as u8;
        let expected_volume = 8 - missing;
        match identify_archetype(m) {
            Archetype::Full => assert_eq!(missing, 0),
            Archetype::Empty => assert_eq!(missing, 8),
            Archetype::Quarter => assert_eq!(missing, 7),
            Archetype::Slab | Archetype::VerticalSlab => assert_eq!(missing, 4),
            Archetype::Stair => assert_eq!(missing, 2),
            Archetype::Irregular(v) => assert_eq!(v, expected_volume),
        }
    }
}

#[test]
fn block_clone_keeps_every_field() {
    let b = Block { base_id: 17, namespace: "anantham".to_string(), name: "stone".to_string(), is_fractional: true, state_count: 256 };
    let c = b.clone();
    assert_eq!(c.base_id, 17);
    assert_eq!(c.namespace, "anantham");
    assert_eq!(c.name, "stone");
    assert!(c.is_fractional);
    assert_eq!(c.state_count, 256);
}

fn turned_a_quarter(m: u8) -> u8 {
    ((m & 0x11) << 2) | ((m & 0x22) >> 1) | ((m & 0x44) << 1) | ((m & 0x88) >> 2)
}

#[test]
fn archetype_is_the_same_after_a_quarter_turn_or_flip() {
    for m in 0..=255u8 {
        assert_eq!(identify_archetype(turned_a_quarter(m)), identify_archetype(m));
        assert_eq!(identify_archetype(m.rotate_left(4)), identify_archetype(m));
    }
    assert_eq!(turned_a_quarter(0b0000_0011), 0b0000_0101);
    assert_eq!(identify_archetype(0b0000_0101), Archetype::Stair);
    assert_eq!(identify_archetype(0b0001_0001), Archetype::Irregular(6));
}

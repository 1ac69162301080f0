use anantham_core::block::{Block, BlockState};
use anantham_core::meshing_registry::{MeshingAttributes, MeshingRegistry};
use anantham_core::pipeline::{register_block_with_meta, BlockMeta};
use anantham_core::registry::{BlockRegistry, PropertyPadder, PropertyRegistry, TableLength};

type Registry = BlockRegistry<PropertyRegistry<u8>>;

#[test]
fn new_registry_is_empty() {
    let reg = Registry::new();
    assert_eq!(reg.registered_states(), 0);
    assert!(reg.get_block(BlockState(0)).is_none());
    assert!(reg.iter_blocks().is_empty());
    assert_eq!(Registry::default().registered_states(), 0);
}

#[test]
fn register_hands_out_consecutive_states() {
    let mut reg = Registry::new();
    let air = reg.register_block("anantham", "air", false);
    let stone = reg.register_block("anantham", "stone", true);
    let dirt = reg.register_block("anantham", "dirt", false);
    assert_eq!((air.base_id, air.state_count), (0, 1));
    assert_eq!((stone.base_id, stone.state_count), (1, 256));
    assert_eq!((dirt.base_id, dirt.state_count), (257, 1));
    assert_eq!(reg.registered_states(), 258);
    assert_eq!(reg.get_block(BlockState(0)).unwrap().name, "air");
    assert_eq!(reg.get_block(BlockState(1)).unwrap().name, "stone");
    assert_eq!(reg.get_block(BlockState(256)).unwrap().name, "stone");
    assert_eq!(reg.get_block_unchecked(BlockState(257)).name, "dirt");
    assert!(reg.get_block(BlockState(258)).is_none());
}

#[test]
fn lookup_by_full_name() {
    let mut reg = Registry::new();
    reg.register_block("anantham", "stone", false);
    reg.register_block("mod", "stone", false);
    let b = reg.get_block_by_name("mod:stone").unwrap();
    assert_eq!((b.namespace.as_str(), b.base_id), ("mod", 1));
    assert_eq!(reg.get_block_by_name("anantham:stone").unwrap().base_id, 0);
    assert!(reg.get_block_by_name("stone").is_none());
    assert!(reg.get_block_by_name("anantham:dirt").is_none());
    let mut names: Vec<String> = reg.iter_blocks().iter().map(|b| format!("{}:{}", b.namespace, b.name)).collect();
    names.sort();
    assert_eq!(names, vec!["anantham:stone".to_string(), "mod:stone".to_string()]);
}

#[test]
fn re_registering_a_name_replaces_it() {
    let mut reg = Registry::new();
    reg.register_block("anantham", "stone", false);
    let second = reg.register_block("anantham", "stone", true);
    assert_eq!(second.base_id, 1);
    assert_eq!(reg.registered_states(), 257);
    assert_eq!(reg.get_block_by_name("anantham:stone").unwrap().base_id, 1);
    assert_eq!(reg.iter_blocks().len(), 1);
    assert_eq!(reg.get_block(BlockState(0)).unwrap().base_id, 0);
}

#[test]
fn property_registry_set_get_and_pad() {
    let mut p: PropertyRegistry<u32> = PropertyRegistry::default();
    assert!(p.data.is_empty());
    p.pad_to(4);
    assert_eq!(p.data, vec![0, 0, 0, 0]);
    p.set(2, 9);
    assert_eq!(p.get(2), 9);
    p.pad_to(2);
    assert_eq!(p.data, vec![0, 0, 9, 0]);
    p.pad_to(6);
    assert_eq!(p.data, vec![0, 0, 9, 0, 0, 0]);
}

#[test]
fn property_for_every_state_of_a_block() {
    let mut p: PropertyRegistry<u8> = PropertyRegistry::default();
    p.pad_to(10);
    let block = Block { base_id: 3, namespace: "a".to_string(), name: "b".to_string(), is_fractional: false, state_count: 4 };
    p.set_for_block(&block, 7);
    assert_eq!(p.data, vec![0, 0, 0, 7, 7, 7, 7, 0, 0, 0]);
}

#[test]
fn meshing_attributes_round_trip() {
    let a = MeshingAttributes::new(true, false, 0xA5, 0xBEEF);
    assert!(a.is_visible());
    assert!(!a.is_transparent());
    assert_eq!(a.fractional_mask(), 0xA5);
    assert_eq!(a.material_id(), 0xBEEF);
    let air = MeshingAttributes::air();
    assert!(!air.is_visible() && air.is_transparent());
    assert_eq!((air.fractional_mask(), air.material_id()), (0, 0));
    let solid = MeshingAttributes::solid();
    assert!(solid.is_visible() && !solid.is_transparent());
    let d = MeshingAttributes::default();
    assert!(!d.is_visible() && d.is_transparent());
}

#[test]
fn meshing_registry_grows_with_air() {
    let mut r = MeshingRegistry::default();
    r.set(3, MeshingAttributes::solid());
    assert_eq!(r.data.len(), 4);
    assert!(r.data[3].is_visible());
    assert!(r.data[..3].iter().all(|a| !a.is_visible() && a.is_transparent()));
    r.set_batch(2, &[MeshingAttributes::new(true, true, 1, 2), MeshingAttributes::new(true, true, 2, 2), MeshingAttributes::new(true, true, 3, 2)]);
    assert_eq!(r.data.len(), 5);
    assert_eq!(r.data.iter().map(|a| a.fractional_mask()).collect::<Vec<_>>(), vec![0, 0, 1, 2, 3]);
    r.set_batch(100, &[]);
    assert_eq!(r.data.len(), 5);
}

#[test]
fn register_with_meta_fills_meshing_attributes() {
    let mut blocks = Registry::new();
    let mut meshing = MeshingRegistry::default();
    let air_meta = BlockMeta { texture_id: "air".to_string(), is_fractional: false, is_visible: false, is_transparent: true };
    let stone_meta = BlockMeta { texture_id: "stone".to_string(), is_fractional: true, is_visible: true, is_transparent: false };
    let air = register_block_with_meta(&mut blocks, &mut meshing, "anantham", "air", &air_meta);
    let stone = register_block_with_meta(&mut blocks, &mut meshing, "anantham", "stone", &stone_meta);
    assert_eq!(air.base_id, 0);
    assert_eq!(stone.base_id, 1);
    assert_eq!(meshing.data.len(), 257);
    assert!(!meshing.data[0].is_visible());
    for s in 1..257usize {
        let a = meshing.data[s];
        assert!(a.is_visible() && !a.is_transparent());
        assert_eq!(a.fractional_mask() as usize, s - 1);
        assert_eq!(a.material_id(), 0);
    }
    assert_eq!(blocks.get_block_by_name("anantham:stone").unwrap().state_count, 256);
}

#[test]
fn registering_blocks_pads_every_table() {
    let mut reg = Registry::new();
    reg.register_block("anantham", "air", false);
    let mut early = PropertyRegistry::<u8>::default();
    early.data.push(9);
    reg.register_property_array(early);
    reg.register_property_array(PropertyRegistry::default());
    assert_eq!(reg.tables()[0].data, vec![9]);
    assert_eq!(reg.tables()[1].data, vec![0]);
    reg.register_block("anantham", "stone", true);
    assert_eq!(reg.registered_states(), 257);
    for t in reg.tables() {
        assert_eq!(t.data.len(), 257);
        assert!(t.data[1..].iter().all(|v| *v == 0));
    }
    assert_eq!(reg.tables()[0].data[0], 9);
    let mut long = PropertyRegistry::<u8>::default();
    long.data = vec![1; 300];
    reg.register_property_array(long);
    assert_eq!(reg.tables()[2].data.len(), 300);
    reg.register_block("anantham", "dirt", false);
    assert_eq!(reg.tables()[2].data.len(), 300);
    assert_eq!(reg.tables()[0].data.len(), 258);
}

#[test]
fn table_lengths_follow_the_registered_states() {
    let mut reg: BlockRegistry<TableLength> = BlockRegistry::new();
    reg.register_property_array(TableLength { entries: 0 });
    assert_eq!(reg.tables()[0].entries, 0);
    reg.register_block("anantham", "air", false);
    reg.register_block("anantham", "stone", true);
    reg.register_property_array(TableLength { entries: 1000 });
    assert_eq!(reg.tables(), &vec![TableLength { entries: 257 }, TableLength { entries: 1000 }]);
    let mut t = TableLength { entries: 5 };
    t.pad_to(3);
    assert_eq!(t.entries, 5);
    t.pad_to(9);
    assert_eq!(t.entries, 9);
}

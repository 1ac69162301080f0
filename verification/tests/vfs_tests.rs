use anantham_core::vfs::{extract_block_id, meta_block_id, BlockPropertyLoader};

fn parts(path: &str) -> Vec<String> {
    path.split('/').map(|s| s.to_string()).collect()
}

#[test]
fn meta_file_names_its_block() {
    assert_eq!(
        meta_block_id(&parts("data/anantham/blocks/stone/meta.ron")),
        Some(("anantham".to_string(), "stone".to_string()))
    );
    assert_eq!(meta_block_id(&parts("anantham/blocks/dirt/meta.ron")), Some(("anantham".to_string(), "dirt".to_string())));
}

#[test]
fn other_files_name_no_block() {
    assert_eq!(meta_block_id(&parts("data/anantham/blocks/stone/mesh.ron")), None);
    assert_eq!(meta_block_id(&parts("data/anantham/items/stone/meta.ron")), None);
    assert_eq!(meta_block_id(&parts("blocks/stone/meta.ron")), None);
    assert_eq!(meta_block_id(&Vec::new()), None);
}

#[test]
fn property_file_id_from_its_directories() {
    assert_eq!(extract_block_id(&parts("data/anantham/blocks/stone/mesh.ron")), Some("anantham:stone".to_string()));
    assert_eq!(extract_block_id(&parts("anantham/blocks/dirt/meshing.ron")), Some("anantham:dirt".to_string()));
    assert_eq!(extract_block_id(&parts("x/y/z/file.ron")), Some("y:z".to_string()));
    assert_eq!(extract_block_id(&parts("anantham/stone/meshing.ron")), Some("anantham:stone".to_string()));
    assert_eq!(extract_block_id(&parts("blocks/stone/meshing.ron")), Some("blocks:stone".to_string()));
    assert_eq!(extract_block_id(&parts("stone/meshing.ron")), None);
    assert_eq!(extract_block_id(&parts("meshing.ron")), None);
}

#[test]
fn loader_keeps_its_extension() {
    let loader: BlockPropertyLoader<u8> = BlockPropertyLoader::new("meshing.ron");
    assert_eq!(loader.extension(), "meshing.ron");
}

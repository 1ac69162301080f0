use vstd::prelude::*;

use crate::block::Block;
use crate::meshing_registry::{MeshingAttributes, MeshingRegistry};
use crate::registry::{full_name, BlockRegistry, PropertyPadder};
use std::sync::Arc;

verus! {

/// The contents of a block's `meta.ron`.
pub struct BlockMeta {
    pub texture_id: String,
    pub is_fractional: bool,
    pub is_visible: bool,
    pub is_transparent: bool,
}

/// Registers a block found on disk and gives each of its states meshing attributes: the
/// block's visibility and transparency, with the state's offset as its fractional mask and
/// material 0.
pub fn register_block_with_meta<P: PropertyPadder>(
    block_registry: &mut BlockRegistry<P>,
    meshing_registry: &mut MeshingRegistry,
    namespace: &str,
    name: &str,
    meta: &BlockMeta,
) -> (r: Arc<Block>)
    requires
        old(block_registry).states().len() + (if meta.is_fractional {
            256int
        } else {
            1int
        }) <= u32::MAX,
    ensures
        r.base_id == old(block_registry).states().len(),
        r.namespace@ == namespace@,
        r.name@ == name@,
        r.is_fractional == meta.is_fractional,
        r.state_count == (if meta.is_fractional {
            256u16
        } else {
            1u16
        }),
        final(block_registry).states() == old(block_registry).states() + Seq::new(
            r.state_count as nat,
            |i: int| *r,
        ),
        final(block_registry).names() == old(block_registry).names().insert(
            full_name(namespace@, name@),
            *r,
        ),
        final(block_registry).table_sizes().len() == old(block_registry).table_sizes().len(),
        forall|t: int|
            0 <= t < final(block_registry).table_sizes().len() ==> #[trigger] final(block_registry).table_sizes()[t]
                >= final(block_registry).states().len(),
        final(meshing_registry).data@.len() == if old(meshing_registry).data@.len() >= r.base_id
            + r.state_count {
            old(meshing_registry).data@.len() as int
        } else {
            r.base_id + r.state_count
        },
        forall|i: int|
            0 <= i < final(meshing_registry).data@.len() ==> #[trigger] final(meshing_registry).data@[i]
                == if r.base_id <= i < r.base_id + r.state_count {
                MeshingAttributes::spec_pack(
                    meta.is_visible,
                    meta.is_transparent,
                    (i - r.base_id) as u8,
                    0,
                )
            } else if i < old(meshing_registry).data@.len() {
                old(meshing_registry).data@[i]
            } else {
                MeshingAttributes::spec_air()
            },
{
    let block = block_registry.register_block(namespace, name, meta.is_fractional);
    let mut batch: Vec<MeshingAttributes> = Vec::with_capacity(256);
    let mut offset: u16 = 0;
    while offset < block.state_count
        invariant
            offset <= block.state_count,
            batch@.len() == offset,
            forall|k: int|
                0 <= k < offset ==> #[trigger] batch@[k] == MeshingAttributes::spec_pack(
                    meta.is_visible,
                    meta.is_transparent,
                    k as u8,
                    0,
                ),
        decreases block.state_count - offset,
    {
        let fractional_mask = offset as u8;
        batch.push(MeshingAttributes::new(meta.is_visible, meta.is_transparent, fractional_mask, 0));
        offset = offset + 1;
    }
    meshing_registry.set_batch(block.base_id, batch.as_slice());
    block
}

} // verus!

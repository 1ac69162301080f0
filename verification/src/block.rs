use vstd::prelude::*;

verus! {

/// A concrete block state: one entry of the global state table.
#[derive(Clone, Copy, PartialEq, Eq, Structural, Hash, Debug)]
pub struct BlockState(pub u32);

impl BlockState {
    /// The empty block, always state 0.
    pub fn air() -> (r: BlockState)
        ensures
            r == BlockState(0),
    {
        BlockState(0)
    }
}

} // verus!

verus! {

/// A shape mask: bit `k` set means sub-voxel `k` of the block's 2x2x2 split is carved away.
/// The mask is reversed so that a block's base state (mask 0) is a full block.
pub type ShapeMask = u8;

/// No sub-voxel missing.
pub const SHAPE_FULL: u8 = 0b0000_0000;

/// Every sub-voxel missing.
pub const SHAPE_EMPTY: u8 = 0b1111_1111;

/// The general shape class of a block state, whatever its rotation.
#[derive(Clone, Copy, Debug, PartialEq, Eq, Structural)]
pub enum Archetype {
    Full,
    /// Not a state that stands in the world: it falls back to air.
    Empty,
    Quarter,
    Slab,
    VerticalSlab,
    Stair,
    /// Custom carving, holding the remaining volume (1 to 7 sub-voxels).
    Irregular(u8),
}

/// The number of set bits among the lowest `n` bits of `m`.
pub open spec fn ones_below(m: u8, n: nat) -> nat
    decreases n,
{
    if n == 0 {
        0
    } else {
        ones_below(m, (n - 1) as nat) + ((m >> ((n - 1) as u8)) & 1u8) as nat
    }
}

/// The number of set bits of `m`.
pub open spec fn ones(m: u8) -> nat {
    ones_below(m, 8)
}

/// The masks of a half block: the top four or the bottom four sub-voxels missing.
pub open spec fn is_slab_mask(m: u8) -> bool {
    m == 0x0F || m == 0xF0
}

/// The masks of a vertical half block: left/right or front/back halves missing.
pub open spec fn is_vertical_slab_mask(m: u8) -> bool {
    m == 0xCC || m == 0x33 || m == 0xAA || m == 0x55
}

/// The masks of a stair: two missing sub-voxels forming a corner column.
pub open spec fn is_stair_mask(m: u8) -> bool {
    m == 0b0000_0011 || m == 0b0000_1100 || m == 0b0011_0000 || m == 0b1100_0000 || m
        == 0b0000_0101 || m == 0b0000_1010 || m == 0b0101_0000 || m == 0b1010_0000
}

/// The shape class that a mask stands for.
pub open spec fn spec_archetype(m: u8) -> Archetype {
    let missing = ones(m);
    if missing == 0 {
        Archetype::Full
    } else if missing == 8 {
        Archetype::Empty
    } else if missing == 7 {
        Archetype::Quarter
    } else if missing == 4 && is_slab_mask(m) {
        Archetype::Slab
    } else if missing == 4 && is_vertical_slab_mask(m) {
        Archetype::VerticalSlab
    } else if missing == 2 && is_stair_mask(m) {
        Archetype::Stair
    } else {
        Archetype::Irregular((8 - missing) as u8)
    }
}

proof fn lemma_ones_below_le(m: u8, n: nat)
    ensures
        ones_below(m, n) <= n,
    decreases n,
{
    if n > 0 {
        lemma_ones_below_le(m, (n - 1) as nat);
        let b = (n - 1) as u8;
        assert((m >> b) & 1u8 <= 1u8) by (bit_vector);
    }
}

/// The mask turned a quarter turn about the vertical axis. Sub-voxel `k` sits at
/// `(k & 1, (k >> 1) & 1, k >> 2)`, the last coordinate vertical (the slab masks split on it);
/// the turn takes `(a, b, y)` to `(b, 1 - a, y)`.
pub open spec fn quarter_turn(m: u8) -> u8 {
    ((m & 0x11) << 2u8) | ((m & 0x22) >> 1u8) | ((m & 0x44) << 1u8) | ((m & 0x88) >> 2u8)
}

/// The mask turned upside down: the top and bottom layers of sub-voxels trade places.
pub open spec fn upside_down(m: u8) -> u8 {
    (m << 4u8) | (m >> 4u8)
}

/// The set bits of `m`, added one by one.
spec fn bit_total(m: u8) -> int {
    (m & 1) as int + ((m >> 1u8) & 1) as int + ((m >> 2u8) & 1) as int + ((m >> 3u8) & 1) as int
        + ((m >> 4u8) & 1) as int + ((m >> 5u8) & 1) as int + ((m >> 6u8) & 1) as int + ((m
        >> 7u8) & 1) as int
}

proof fn lemma_ones_is_bit_total(m: u8)
    ensures
        ones(m) == bit_total(m),
{
    reveal_with_fuel(ones_below, 9);
    assert((m >> 0u8) & 1u8 == m & 1) by (bit_vector);
}

/// A quarter turn about the vertical axis does not change a shape's class: the count of
/// carved sub-voxels and each class of masks (slabs, vertical slabs, stairs) are closed
/// under it.
pub proof fn law_archetype_ignores_quarter_turn(m: u8)
    ensures
        spec_archetype(quarter_turn(m)) == spec_archetype(m),
{
    let r = quarter_turn(m);
    lemma_ones_is_bit_total(m);
    lemma_ones_is_bit_total(r);
    assert(bit_total(quarter_turn(m)) == bit_total(m)) by (bit_vector);
    assert(is_slab_mask(quarter_turn(m)) == is_slab_mask(m)
        && is_vertical_slab_mask(quarter_turn(m)) == is_vertical_slab_mask(m)
        && is_stair_mask(quarter_turn(m)) == is_stair_mask(m)) by (bit_vector);
}

/// Turning a shape upside down does not change its class.
pub proof fn law_archetype_ignores_upside_down(m: u8)
    ensures
        spec_archetype(upside_down(m)) == spec_archetype(m),
{
    let r = upside_down(m);
    lemma_ones_is_bit_total(m);
    lemma_ones_is_bit_total(r);
    assert(bit_total(upside_down(m)) == bit_total(m)) by (bit_vector);
    assert(is_slab_mask(upside_down(m)) == is_slab_mask(m)
        && is_vertical_slab_mask(upside_down(m)) == is_vertical_slab_mask(m)
        && is_stair_mask(upside_down(m)) == is_stair_mask(m)) by (bit_vector);
}

/// Counts the carved-away sub-voxels of a mask.
fn count_missing(mask: u8) -> (r: u8)
    ensures
        r as nat == ones(mask),
        r <= 8,
{
    let mut count: u8 = 0;
    let mut b: u8 = 0;
    while b < 8
        invariant
            b <= 8,
            count as nat == ones_below(mask, b as nat),
            count <= b,
        decreases 8 - b,
    {
        proof {
            lemma_ones_below_le(mask, (b + 1) as nat);
            assert((mask >> b) & 1u8 <= 1u8) by (bit_vector);
        }
        count = count + ((mask >> b) & 1);
        b = b + 1;
    }
    count
}

/// Classifies a shape mask, whatever its rotation.
pub fn identify_archetype(mask: u8) -> (r: Archetype)
    ensures
        r == spec_archetype(mask),
{
    let missing_volume = count_missing(mask);
    let remaining_volume = 8 - missing_volume;
    if missing_volume == 0 {
        Archetype::Full
    } else if missing_volume == 8 {
        Archetype::Empty
    } else if missing_volume == 7 {
        Archetype::Quarter
    } else if missing_volume == 4 {
        if mask == 0x0F || mask == 0xF0 {
            return Archetype::Slab;
        }
        if mask == 0xCC || mask == 0x33 || mask == 0xAA || mask == 0x55 {
            return Archetype::VerticalSlab;
        }
        Archetype::Irregular(remaining_volume)
    } else if missing_volume == 2 {
        let stair_masks: [u8; 8] = [
            0b0000_0011,
            0b0000_1100,
            0b0011_0000,
            0b1100_0000,
            0b0000_0101,
            0b0000_1010,
            0b0101_0000,
            0b1010_0000,
        ];
        let mut found = false;
        let mut k: usize = 0;
        while k < 8
            invariant
                k <= 8,
                stair_masks@ == seq![
                    0b0000_0011u8,
                    0b0000_1100u8,
                    0b0011_0000u8,
                    0b1100_0000u8,
                    0b0000_0101u8,
                    0b0000_1010u8,
                    0b0101_0000u8,
                    0b1010_0000u8,
                ],
                found == exists|q: int| 0 <= q < k && stair_masks@[q] == mask,
            decreases 8 - k,
        {
            if stair_masks[k] == mask {
                found = true;
            }
            k = k + 1;
        }
        proof {
            if is_stair_mask(mask) {
                if mask == 0b0000_0011 { assert(stair_masks@[0] == mask); }
                if mask == 0b0000_1100 { assert(stair_masks@[1] == mask); }
                if mask == 0b0011_0000 { assert(stair_masks@[2] == mask); }
                if mask == 0b1100_0000 { assert(stair_masks@[3] == mask); }
                if mask == 0b0000_0101 { assert(stair_masks@[4] == mask); }
                if mask == 0b0000_1010 { assert(stair_masks@[5] == mask); }
                if mask == 0b0101_0000 { assert(stair_masks@[6] == mask); }
                if mask == 0b1010_0000 { assert(stair_masks@[7] == mask); }
            }
        }
        if found {
            Archetype::Stair
        } else {
            Archetype::Irregular(remaining_volume)
        }
    } else {
        Archetype::Irregular(remaining_volume)
    }
}

} // verus!

verus! {

/// A registered block type. Its states are `base_id .. base_id + state_count`.
pub struct Block {
    pub base_id: u32,
    pub namespace: String,
    pub name: String,
    pub is_fractional: bool,
    pub state_count: u16,
}

impl Clone for Block {
    fn clone(&self) -> (r: Self)
        ensures
            r == *self,
    {
        Block {
            base_id: self.base_id,
            namespace: self.namespace.clone(),
            name: self.name.clone(),
            is_fractional: self.is_fractional,
            state_count: self.state_count,
        }
    }
}

} // verus!

use vstd::prelude::*;

use crate::block::BlockState;
use crate::coords::{in_chunk_bounds, law_local_index_bijective, local_to_index, spec_local_index, IVec3};

verus! {

/// The 4-bit palette index stored for block `i` in a nibble-packed index array:
/// even blocks use the high nibble, odd blocks the low nibble.
pub open spec fn nibble_at(indices: Seq<u8>, i: int) -> u8 {
    if i % 2 == 0 {
        indices[i / 2] >> 4u8
    } else {
        indices[i / 2] & 0x0Fu8
    }
}

/// The entries of a palette that a 16-bit index can reach: the first 65536.
pub open spec fn addressable16(palette: Seq<BlockState>) -> Seq<BlockState> {
    if palette.len() <= 65536 {
        palette
    } else {
        palette.take(65536)
    }
}

/// The byte that results from storing `val` in the nibble of `byte` that block `index` uses.
pub open spec fn byte_with_nibble(byte: u8, index: int, val: u8) -> u8 {
    if index % 2 == 0 {
        (byte & 0x0Fu8) | ((val << 4u8) as u8)
    } else {
        (byte & 0xF0u8) | val
    }
}

proof fn lemma_nibble_bits(b: u8, v: u8)
    requires
        v < 16,
    ensures
        ((b & 0x0Fu8) | ((v << 4u8) as u8)) >> 4u8 == v,
        ((b & 0x0Fu8) | ((v << 4u8) as u8)) & 0x0Fu8 == b & 0x0Fu8,
        ((b & 0xF0u8) | v) >> 4u8 == b >> 4u8,
        ((b & 0xF0u8) | v) & 0x0Fu8 == v,
        b >> 4u8 < 16,
        b & 0x0Fu8 < 16,
{
    assert(((b & 0x0Fu8) | ((v << 4u8) as u8)) >> 4u8 == v) by (bit_vector)
        requires v < 16;
    assert(((b & 0x0Fu8) | ((v << 4u8) as u8)) & 0x0Fu8 == b & 0x0Fu8) by (bit_vector);
    assert(((b & 0xF0u8) | v) >> 4u8 == b >> 4u8) by (bit_vector)
        requires v < 16;
    assert(((b & 0xF0u8) | v) & 0x0Fu8 == v) by (bit_vector)
        requires v < 16;
    assert(b >> 4u8 < 16) by (bit_vector);
    assert(b & 0x0Fu8 < 16) by (bit_vector);
}

proof fn lemma_usize_halves(i: usize)
    ensures
        i >> 1usize == i / 2,
        (i & 1usize == 0) == (i % 2 == 0),
{
    assert(i >> 1usize == i / 2) by (bit_vector);
    assert((i & 1usize == 0) == (i % 2 == 0)) by (bit_vector);
}

/// Reads the 4-bit palette index of block `index` from a nibble-packed array.
pub fn read_paletted4(indices: &[u8], index: usize) -> (r: usize)
    requires
        index / 2 < indices@.len(),
    ensures
        r == nibble_at(indices@, index as int),
        r < 16,
{
    proof {
        lemma_usize_halves(index);
        lemma_nibble_bits(indices@[(index / 2) as int], 0);
    }
    let byte = indices[index / 2];
    if index % 2 == 0 {
        (byte >> 4) as usize
    } else {
        (byte & 0x0F) as usize
    }
}

/// Stores `val` as the 4-bit palette index of block `index` in a nibble-packed array.
/// Only the nibble of `index` changes when `val` fits in four bits.
pub fn write_paletted4_unchecked(indices: &mut [u8], index: usize, val: u8)
    requires
        index / 2 < old(indices)@.len(),
    ensures
        final(indices)@ == old(indices)@.update(
            (index / 2) as int,
            byte_with_nibble(old(indices)@[(index / 2) as int], index as int, val),
        ),
        val < 16 ==> forall|j: int|
            0 <= j < 2 * old(indices)@.len() ==> #[trigger] nibble_at(final(indices)@, j) == if j
                == index {
                val
            } else {
                nibble_at(old(indices)@, j)
            },
{
    let byte_index = index >> 1;
    proof {
        lemma_usize_halves(index);
    }
    let byte = indices[byte_index];
    if (index & 1) == 0 {
        indices[byte_index] = (byte & 0x0F) | (val << 4);
    } else {
        indices[byte_index] = (byte & 0xF0) | val;
    }
    proof {
        if val < 16 {
            lemma_nibble_bits(byte, val);
            assert forall|j: int| 0 <= j < 2 * old(indices)@.len() implies #[trigger] nibble_at(
                final(indices)@,
                j,
            ) == if j == index {
                val
            } else {
                nibble_at(old(indices)@, j)
            } by {
                if j / 2 != index / 2 {
                } else if j != index {
                    vstd::arithmetic::div_mod::lemma_fundamental_div_mod(j, 2);
                    vstd::arithmetic::div_mod::lemma_fundamental_div_mod(index as int, 2);
                    assert(j % 2 != index % 2);
                }
            }
        }
    }
}

} // verus!

verus! {

/// Errors of a single chunk access.
#[derive(Clone, Copy, PartialEq, Eq, Structural, Debug)]
pub enum ChunkError {
    /// A local coordinate was out of chunk bounds.
    OutOfLocalBounds,
    /// The block is not in the registry.
    UnregisteredBlockSet,
}

/// The storage of a 32x32x32 chunk, in one of four memory tiers.
///
/// - `Homogenous`: every block is the same state.
/// - `Paletted4`: up to 16 palette entries, 4 bits per block (two blocks per byte).
/// - `Paletted8`: up to 256 palette entries, one byte per block.
/// - `Paletted16`: a 16-bit palette index per block.
///
/// `wf` is what every operation needs and keeps. Two further properties, `tier_sized` (the
/// palette's size lies in its tier's range) and `palette_distinct` (no state twice), hold of
/// a new chunk and are kept by every write and by compression; the one exception is a
/// single-block write into a homogenous chunk of the state it already holds, which gives the
/// two-entry palette `[s, s]`.
#[derive(Clone)]
pub enum ChunkData {
    Homogenous(BlockState),
    Paletted4 { palette: Vec<BlockState>, indices: Vec<u8> },
    Paletted8 { palette: Vec<BlockState>, indices: Vec<u8> },
    Paletted16 { palette: Vec<BlockState>, indices: Vec<u16> },
}

impl ChunkData {
    /// Index arrays have their fixed size, and every stored index points into the palette.
    pub open spec fn wf(self) -> bool {
        match self {
            ChunkData::Homogenous(_) => true,
            ChunkData::Paletted4 { palette, indices } => {
                &&& indices@.len() == 16384
                &&& palette@.len() <= 16
                &&& forall|i: int|
                    0 <= i < 32768 ==> (#[trigger] nibble_at(indices@, i) as int) < palette@.len()
            },
            ChunkData::Paletted8 { palette, indices } => {
                &&& indices@.len() == 32768
                &&& palette@.len() <= 256
                &&& forall|i: int| 0 <= i < 32768 ==> (#[trigger] indices@[i] as int) < palette@.len()
            },
            ChunkData::Paletted16 { palette, indices } => {
                &&& indices@.len() == 32768
                &&& forall|i: int| 0 <= i < 32768 ==> (#[trigger] indices@[i] as int) < palette@.len()
            },
        }
    }

    /// The state of block `i` (an index in `0..32768`).
    pub open spec fn block_at(self, i: int) -> BlockState {
        match self {
            ChunkData::Homogenous(s) => s,
            ChunkData::Paletted4 { palette, indices } => palette@[nibble_at(indices@, i) as int],
            ChunkData::Paletted8 { palette, indices } => palette@[indices@[i] as int],
            ChunkData::Paletted16 { palette, indices } => palette@[indices@[i] as int],
        }
    }

    /// All 32768 block states, in index order.
    pub open spec fn contents(self) -> Seq<BlockState> {
        Seq::new(32768, |i: int| self.block_at(i))
    }

    /// Whether `state` can be given a 16-bit palette index: a 16-bit palette of 65536 or more
    /// entries takes it only if it already sits among the first 65536 entries.
    pub open spec fn palette_admits(self, state: BlockState) -> bool {
        match self {
            ChunkData::Paletted16 { palette, .. } => palette@.len() < 65536 || addressable16(
                palette@,
            ).contains(state),
            _ => true,
        }
    }
}

/// A chunk of the world: 32x32x32 blocks.
#[derive(Clone)]
pub struct Chunk {
    pub data: ChunkData,
}

impl Default for Chunk {
    fn default() -> (r: Chunk)
        ensures
            r.data == ChunkData::Homogenous(BlockState(0)),
            r.data.wf(),
            r.data.tier_sized(),
            r.data.palette_distinct(),
    {
        Chunk { data: ChunkData::Homogenous(BlockState(0)) }
    }
}

/// A vector of `n` zero bytes.
fn zeroed_u8(n: usize) -> (v: Vec<u8>)
    ensures
        v@.len() == n,
        forall|i: int| 0 <= i < n ==> #[trigger] v@[i] == 0u8,
{
    let mut v: Vec<u8> = Vec::with_capacity(n);
    let mut k: usize = 0;
    while k < n
        invariant
            k <= n,
            v@.len() == k,
            forall|i: int| 0 <= i < k ==> #[trigger] v@[i] == 0u8,
        decreases n - k,
    {
        v.push(0u8);
        k = k + 1;
    }
    v
}

/// The first position of `state` in `palette`, if any.
pub fn palette_position(palette: &Vec<BlockState>, state: BlockState) -> (r: Option<usize>)
    ensures
        match r {
            Some(p) => {
                &&& p < palette@.len()
                &&& palette@[p as int] == state
                &&& forall|q: int| 0 <= q < p ==> palette@[q] != state
            },
            None => !palette@.contains(state),
        },
{
    let mut k: usize = 0;
    while k < palette.len()
        invariant
            k <= palette@.len(),
            forall|q: int| 0 <= q < k ==> palette@[q] != state,
        decreases palette@.len() - k,
    {
        if palette[k] == state {
            return Some(k);
        }
        k = k + 1;
    }
    None
}

proof fn lemma_zero_nibbles(indices: Seq<u8>)
    requires
        forall|i: int| 0 <= i < indices.len() ==> #[trigger] indices[i] == 0u8,
    ensures
        forall|j: int| 0 <= j < 2 * indices.len() ==> #[trigger] nibble_at(indices, j) == 0u8,
{
    assert(0u8 >> 4u8 == 0u8) by (bit_vector);
    assert(0u8 & 0x0Fu8 == 0u8) by (bit_vector);
    assert forall|j: int| 0 <= j < 2 * indices.len() implies #[trigger] nibble_at(indices, j)
        == 0u8 by {
        assert(indices[j / 2] == 0u8);
    }
}

impl Chunk {
    /// The block at flat index `index`, with no bounds check.
    pub fn get_block_unchecked(&self, index: usize) -> (r: BlockState)
        requires
            self.data.wf(),
            index < 32768,
        ensures
            r == self.data.block_at(index as int),
    {
        match &self.data {
            ChunkData::Homogenous(state) => *state,
            ChunkData::Paletted4 { palette, indices } => {
                let p = read_paletted4(indices.as_slice(), index);
                palette[p]
            },
            ChunkData::Paletted8 { palette, indices } => palette[indices[index] as usize],
            ChunkData::Paletted16 { palette, indices } => palette[indices[index] as usize],
        }
    }
}

impl ChunkData {
    /// Checks the storage invariant: index arrays of their fixed size, each entry pointing
    /// into the palette (and a palette within its tier's size).
    pub fn is_well_formed(&self) -> (r: bool)
        ensures
            r == self.wf(),
    {
        match self {
            ChunkData::Homogenous(_) => true,
            ChunkData::Paletted4 { palette, indices } => {
                if indices.len() != 16384 || palette.len() > 16 {
                    return false;
                }
                let mut i: usize = 0;
                while i < 32768
                    invariant
                        *self == (ChunkData::Paletted4 { palette: *palette, indices: *indices }),
                        indices@.len() == 16384,
                        palette@.len() <= 16,
                        i <= 32768,
                        forall|j: int|
                            0 <= j < i ==> (#[trigger] nibble_at(indices@, j) as int) < palette@.len(),
                    decreases 32768 - i,
                {
                    if read_paletted4(indices.as_slice(), i) >= palette.len() {
                        return false;
                    }
                    i = i + 1;
                }
                true
            },
            ChunkData::Paletted8 { palette, indices } => {
                if indices.len() != 32768 || palette.len() > 256 {
                    return false;
                }
                let mut i: usize = 0;
                while i < 32768
                    invariant
                        *self == (ChunkData::Paletted8 { palette: *palette, indices: *indices }),
                        indices@.len() == 32768,
                        palette@.len() <= 256,
                        i <= 32768,
                        forall|j: int| 0 <= j < i ==> (#[trigger] indices@[j] as int) < palette@.len(),
                    decreases 32768 - i,
                {
                    if indices[i] as usize >= palette.len() {
                        return false;
                    }
                    i = i + 1;
                }
                true
            },
            ChunkData::Paletted16 { palette, indices } => {
                if indices.len() != 32768 {
                    return false;
                }
                let mut i: usize = 0;
                while i < 32768
                    invariant
                        *self == (ChunkData::Paletted16 { palette: *palette, indices: *indices }),
                        indices@.len() == 32768,
                        i <= 32768,
                        forall|j: int| 0 <= j < i ==> (#[trigger] indices@[j] as int) < palette@.len(),
                    decreases 32768 - i,
                {
                    if indices[i] as usize >= palette.len() {
                        return false;
                    }
                    i = i + 1;
                }
                true
            },
        }
    }
}

} // verus!

verus! {

/// Promotes a 4-bit chunk to 8-bit indices, storing `new_state` (appended to the palette)
/// at block `target_idx`.
fn upgrade_4_to_8(
    old_palette: &[BlockState],
    old_indices: &[u8],
    target_idx: usize,
    new_state: BlockState,
) -> (r: ChunkData)
    requires
        old_palette@.len() < 256,
        old_indices@.len() == 16384,
        forall|i: int|
            0 <= i < 32768 ==> (#[trigger] nibble_at(old_indices@, i) as int) < old_palette@.len(),
        target_idx < 32768,
    ensures
        r.wf(),
        r is Paletted8,
        r.base_palette() == old_palette@.push(new_state),
        forall|i: int|
            0 <= i < 32768 ==> #[trigger] r.block_at(i) == if i == target_idx {
                new_state
            } else {
                old_palette@[nibble_at(old_indices@, i) as int]
            },
{
    let mut new_palette: Vec<BlockState> = Vec::new();
    let mut k: usize = 0;
    while k < old_palette.len()
        invariant
            k <= old_palette@.len(),
            new_palette@ == old_palette@.subrange(0, k as int),
        decreases old_palette@.len() - k,
    {
        new_palette.push(old_palette[k]);
        k = k + 1;
    }
    assert(new_palette@ == old_palette@);
    new_palette.push(new_state);
    let new_state_idx = (new_palette.len() - 1) as u8;

    let mut new_indices: Vec<u8> = Vec::with_capacity(32768);
    let mut i: usize = 0;
    while i < 32768
        invariant
            i <= 32768,
            old_indices@.len() == 16384,
            new_palette@ == old_palette@.push(new_state),
            new_state_idx as int == old_palette@.len(),
            new_indices@.len() == i,
            forall|j: int|
                0 <= j < i ==> #[trigger] new_indices@[j] == if j == target_idx {
                    new_state_idx
                } else {
                    nibble_at(old_indices@, j)
                },
        decreases 32768 - i,
    {
        if i == target_idx {
            new_indices.push(new_state_idx);
        } else {
            let p = read_paletted4(old_indices, i);
            new_indices.push(p as u8);
        }
        i = i + 1;
    }
    ChunkData::Paletted8 { palette: new_palette, indices: new_indices }
}

/// Promotes an 8-bit chunk to 16-bit indices, storing `new_state` (appended to the palette)
/// at block `target_idx`.
fn upgrade_8_to_16(
    old_palette: &[BlockState],
    old_indices: &[u8],
    target_idx: usize,
    new_state: BlockState,
) -> (r: ChunkData)
    requires
        old_palette@.len() < 65536,
        old_indices@.len() == 32768,
        forall|i: int| 0 <= i < 32768 ==> (#[trigger] old_indices@[i] as int) < old_palette@.len(),
        target_idx < 32768,
    ensures
        r.wf(),
        r is Paletted16,
        r.base_palette() == old_palette@.push(new_state),
        forall|i: int|
            0 <= i < 32768 ==> #[trigger] r.block_at(i) == if i == target_idx {
                new_state
            } else {
                old_palette@[old_indices@[i] as int]
            },
{
    let mut new_palette: Vec<BlockState> = Vec::new();
    let mut k: usize = 0;
    while k < old_palette.len()
        invariant
            k <= old_palette@.len(),
            new_palette@ == old_palette@.subrange(0, k as int),
        decreases old_palette@.len() - k,
    {
        new_palette.push(old_palette[k]);
        k = k + 1;
    }
    assert(new_palette@ == old_palette@);
    new_palette.push(new_state);
    let new_state_idx = (new_palette.len() - 1) as u16;

    let mut new_indices: Vec<u16> = Vec::with_capacity(32768);
    let mut i: usize = 0;
    while i < 32768
        invariant
            i <= 32768,
            old_indices@.len() == 32768,
            new_palette@ == old_palette@.push(new_state),
            new_state_idx as int == old_palette@.len(),
            new_indices@.len() == i,
            forall|j: int|
                0 <= j < i ==> #[trigger] new_indices@[j] == if j == target_idx {
                    new_state_idx
                } else {
                    old_indices@[j] as u16
                },
        decreases 32768 - i,
    {
        if i == target_idx {
            new_indices.push(new_state_idx);
        } else {
            new_indices.push(old_indices[i] as u16);
        }
        i = i + 1;
    }
    ChunkData::Paletted16 { palette: new_palette, indices: new_indices }
}

impl Chunk {
    /// Stores `state` at flat index `index`, moving the chunk to a larger memory tier
    /// when its palette is full. A state missing from the palette is appended to it (a
    /// homogenous chunk always becomes a 4-bit chunk with palette `[old state, state]`).
    #[verifier::spinoff_prover]
    pub fn set_block_unchecked(&mut self, index: usize, state: BlockState)
        requires
            old(self).data.wf(),
            index < 32768,
        ensures
            final(self).data.wf(),
            final(self).data.base_palette() == if !(old(self).data is Homogenous) && old(
                self,
            ).data.base_palette().contains(state) {
                old(self).data.base_palette()
            } else {
                old(self).data.base_palette().push(state)
            },
            old(self).data is Homogenous ==> final(self).data is Paletted4,
            old(self).data is Paletted4 ==> if final(self).data.base_palette().len() <= 16 {
                final(self).data is Paletted4
            } else {
                final(self).data is Paletted8
            },
            old(self).data is Paletted8 ==> if final(self).data.base_palette().len() <= 256 {
                final(self).data is Paletted8
            } else {
                final(self).data is Paletted16
            },
            old(self).data is Paletted16 ==> final(self).data is Paletted16,
            old(self).data.tier_sized() ==> final(self).data.tier_sized(),
            old(self).data.palette_distinct() && !(old(self).data is Homogenous
                && old(self).data.block_at(index as int) == state) ==> final(self).data.palette_distinct(),
            old(self).data.palette_admits(state) ==> forall|i: int|
                0 <= i < 32768 ==> #[trigger] final(self).data.block_at(i) == if i == index {
                    state
                } else {
                    old(self).data.block_at(i)
                },
    {
        let mut data = ChunkData::Homogenous(BlockState(0));
        std::mem::swap(&mut data, &mut self.data);
        let ghost old_data = data;
        let next = match data {
            ChunkData::Homogenous(current_state) => {
                let mut new_palette: Vec<BlockState> = Vec::new();
                new_palette.push(current_state);
                new_palette.push(state);
                let mut new_indices = zeroed_u8(16384);
                proof {
                    lemma_zero_nibbles(new_indices@);
                }
                let ghost zero_indices = new_indices@;
                write_paletted4_unchecked(new_indices.as_mut_slice(), index, 1);
                let r = ChunkData::Paletted4 { palette: new_palette, indices: new_indices };
                proof {
                    assert forall|i: int| 0 <= i < 32768 implies #[trigger] r.block_at(i) == if i
                        == index {
                        state
                    } else {
                        old_data.block_at(i)
                    } by {
                        assert(nibble_at(new_indices@, i) == if i == index {
                            1u8
                        } else {
                            nibble_at(zero_indices, i)
                        });
                    }
                }
                r
            },
            ChunkData::Paletted4 { mut palette, mut indices } => {
                match palette_position(&palette, state) {
                    Some(p_idx) => {
                        let ghost old_indices = indices@;
                        write_paletted4_unchecked(indices.as_mut_slice(), index, p_idx as u8);
                        let r = ChunkData::Paletted4 { palette, indices };
                        proof {
                            assert forall|i: int| 0 <= i < 32768 implies #[trigger] r.block_at(i)
                                == if i == index {
                                state
                            } else {
                                old_data.block_at(i)
                            } by {
                                assert(nibble_at(indices@, i) == if i == index {
                                    p_idx as u8
                                } else {
                                    nibble_at(old_indices, i)
                                });
                            }
                        }
                        r
                    },
                    None => {
                        if palette.len() < 16 {
                            let p_idx = palette.len() as u8;
                            let ghost old_indices = indices@;
                            let ghost old_palette = palette@;
                            palette.push(state);
                            write_paletted4_unchecked(indices.as_mut_slice(), index, p_idx);
                            let r = ChunkData::Paletted4 { palette, indices };
                            proof {
                                assert forall|i: int| 0 <= i < 32768 implies #[trigger] r.block_at(
                                    i,
                                ) == if i == index {
                                    state
                                } else {
                                    old_data.block_at(i)
                                } by {
                                    assert(nibble_at(indices@, i) == if i == index {
                                        p_idx
                                    } else {
                                        nibble_at(old_indices, i)
                                    });
                                    if i != index {
                                        assert((nibble_at(old_indices, i) as int)
                                            < old_palette.len());
                                    }
                                }
                            }
                            r
                        } else {
                            upgrade_4_to_8(palette.as_slice(), indices.as_slice(), index, state)
                        }
                    },
                }
            },
            ChunkData::Paletted8 { mut palette, mut indices } => {
                match palette_position(&palette, state) {
                    Some(p_idx) => {
                        indices[index] = p_idx as u8;
                        let r = ChunkData::Paletted8 { palette, indices };
                        proof {
                            assert forall|i: int| 0 <= i < 32768 implies #[trigger] r.block_at(i)
                                == if i == index {
                                state
                            } else {
                                old_data.block_at(i)
                            } by {}
                        }
                        r
                    },
                    None => {
                        if palette.len() < 256 {
                            let p_idx = palette.len() as u8;
                            let ghost old_indices = indices@;
                            palette.push(state);
                            indices[index] = p_idx;
                            let r = ChunkData::Paletted8 { palette, indices };
                            proof {
                                assert forall|i: int| 0 <= i < 32768 implies #[trigger] r.block_at(
                                    i,
                                ) == if i == index {
                                    state
                                } else {
                                    old_data.block_at(i)
                                } by {
                                    if i != index {
                                        assert(old_indices[i] == indices@[i]);
                                    }
                                }
                            }
                            r
                        } else {
                            upgrade_8_to_16(palette.as_slice(), indices.as_slice(), index, state)
                        }
                    },
                }
            },
            ChunkData::Paletted16 { mut palette, mut indices } => {
                match palette_position(&palette, state) {
                    Some(p_idx) => {
                        proof {
                            if palette@.len() >= 65536 && old_data.palette_admits(state) {
                                let q = choose|q: int|
                                    0 <= q < addressable16(palette@).len() && addressable16(
                                        palette@,
                                    )[q] == state;
                                assert(palette@[q] == state);
                            }
                        }
                        indices[index] = (#[verifier::truncate] (p_idx as u16));
                        let r = ChunkData::Paletted16 { palette, indices };
                        proof {
                            if old_data.palette_admits(state) {
                                assert forall|i: int| 0 <= i < 32768 implies #[trigger] r.block_at(
                                    i,
                                ) == if i == index {
                                    state
                                } else {
                                    old_data.block_at(i)
                                } by {}
                            }
                        }
                        r
                    },
                    None => {
                        let p_idx = (#[verifier::truncate] (palette.len() as u16));
                        let ghost old_indices = indices@;
                        palette.push(state);
                        indices[index] = p_idx;
                        let r = ChunkData::Paletted16 { palette, indices };
                        proof {
                            if old_data.palette_admits(state) {
                                if palette@.len() > 65536 {
                                    assert(addressable16(palette@) =~= addressable16(old_data->Paletted16_palette@));
                                }
                                assert forall|i: int| 0 <= i < 32768 implies #[trigger] r.block_at(
                                    i,
                                ) == if i == index {
                                    state
                                } else {
                                    old_data.block_at(i)
                                } by {
                                    if i != index {
                                        assert(old_indices[i] == indices@[i]);
                                    }
                                }
                            }
                        }
                        r
                    },
                }
            },
        };
        self.data = next;
    }
}

} // verus!

verus! {

impl Chunk {
    /// The block at a local coordinate, or `OutOfLocalBounds` when it lies outside the chunk.
    pub fn get_block(&self, local: IVec3) -> (r: Result<BlockState, ChunkError>)
        requires
            self.data.wf(),
        ensures
            in_chunk_bounds(local) ==> r == Ok::<BlockState, ChunkError>(
                self.data.block_at(spec_local_index(local)),
            ),
            !in_chunk_bounds(local) ==> r == Err::<BlockState, ChunkError>(
                ChunkError::OutOfLocalBounds,
            ),
    {
        if local.x < 0 || local.x >= 32 || local.y < 0 || local.y >= 32 || local.z < 0 || local.z
            >= 32 {
            return Err(ChunkError::OutOfLocalBounds);
        }
        Ok(self.get_block_unchecked(local_to_index(local)))
    }

    /// Stores `state` at a local coordinate. States at or above `registered_states` (the
    /// number of states the block registry has handed out) are refused. Storing the state
    /// that is already there leaves the chunk untouched; any other write is a
    /// `set_block_unchecked` at the coordinate's index.
    pub fn set_block(&mut self, local: IVec3, state: BlockState, registered_states: u32) -> (r:
        Result<(), ChunkError>)
        requires
            old(self).data.wf(),
        ensures
            final(self).data.wf(),
            !in_chunk_bounds(local) ==> r == Err::<(), ChunkError>(ChunkError::OutOfLocalBounds),
            in_chunk_bounds(local) && state.0 >= registered_states ==> r == Err::<(), ChunkError>(
                ChunkError::UnregisteredBlockSet,
            ),
            in_chunk_bounds(local) && state.0 < registered_states ==> r is Ok,
            r is Err ==> *final(self) == *old(self),
            old(self).data.block_at(spec_local_index(local)) == state ==> *final(self) == *old(
                self,
            ),
            r is Ok && old(self).data.palette_admits(state) ==> forall|i: int|
                0 <= i < 32768 ==> #[trigger] final(self).data.block_at(i) == if i
                    == spec_local_index(local) {
                    state
                } else {
                    old(self).data.block_at(i)
                },
            r is Ok && old(self).data.block_at(spec_local_index(local)) != state ==> {
                &&& final(self).data.base_palette() == if !(old(self).data is Homogenous) && old(
                    self,
                ).data.base_palette().contains(state) {
                    old(self).data.base_palette()
                } else {
                    old(self).data.base_palette().push(state)
                }
                &&& old(self).data is Homogenous ==> final(self).data is Paletted4
                &&& old(self).data is Paletted4 ==> if final(self).data.base_palette().len() <= 16 {
                    final(self).data is Paletted4
                } else {
                    final(self).data is Paletted8
                }
                &&& old(self).data is Paletted8 ==> if final(self).data.base_palette().len() <= 256 {
                    final(self).data is Paletted8
                } else {
                    final(self).data is Paletted16
                }
                &&& old(self).data is Paletted16 ==> final(self).data is Paletted16
            },
            old(self).data.tier_sized() ==> final(self).data.tier_sized(),
            old(self).data.palette_distinct() ==> final(self).data.palette_distinct(),
    {
        if local.x < 0 || local.x >= 32 || local.y < 0 || local.y >= 32 || local.z < 0 || local.z
            >= 32 {
            return Err(ChunkError::OutOfLocalBounds);
        }
        if state.0 >= registered_states {
            return Err(ChunkError::UnregisteredBlockSet);
        }
        let index = local_to_index(local);
        if self.get_block_unchecked(index) == state {
            return Ok(());
        }
        self.set_block_unchecked(index, state);
        Ok(())
    }
}

} // verus!

verus! {

/// The block states after writing each `(index, state)` of `deltas` in order over `blocks`.
pub open spec fn apply_deltas(blocks: Seq<BlockState>, deltas: Seq<(usize, BlockState)>) -> Seq<
    BlockState,
>
    decreases deltas.len(),
{
    if deltas.len() == 0 {
        blocks
    } else {
        apply_deltas(blocks, deltas.drop_last()).update(deltas.last().0 as int, deltas.last().1)
    }
}

/// No state appears twice in `states`.
pub open spec fn distinct_states(states: Seq<BlockState>) -> bool {
    forall|a: int, b: int| 0 <= a < b < states.len() ==> states[a] != states[b]
}

/// The smallest tier whose palette holds `n` entries.
pub open spec fn tier_for_palette(n: int) -> int {
    if n <= 1 {
        0
    } else if n <= 16 {
        1
    } else if n <= 256 {
        2
    } else {
        3
    }
}

/// `base` followed by each state of `deltas` that is not already present, in first-appearance
/// order.
pub open spec fn merged_palette(base: Seq<BlockState>, deltas: Seq<(usize, BlockState)>) -> Seq<
    BlockState,
>
    decreases deltas.len(),
{
    if deltas.len() == 0 {
        base
    } else {
        let m = merged_palette(base, deltas.drop_last());
        if m.contains(deltas.last().1) {
            m
        } else {
            m.push(deltas.last().1)
        }
    }
}

impl ChunkData {
    /// The palette a batch write starts from: the single state of a homogenous chunk,
    /// or the chunk's palette.
    pub open spec fn base_palette(self) -> Seq<BlockState> {
        match self {
            ChunkData::Homogenous(s) => seq![s],
            ChunkData::Paletted4 { palette, .. } => palette@,
            ChunkData::Paletted8 { palette, .. } => palette@,
            ChunkData::Paletted16 { palette, .. } => palette@,
        }
    }

    /// The memory tier: 0 homogenous, 1 with 4-bit indices, 2 with 8-bit, 3 with 16-bit.
    pub open spec fn tier(self) -> int {
        match self {
            ChunkData::Homogenous(_) => 0,
            ChunkData::Paletted4 { .. } => 1,
            ChunkData::Paletted8 { .. } => 2,
            ChunkData::Paletted16 { .. } => 3,
        }
    }

    /// The palette's size lies in its tier's range: 2 to 16 entries with 4-bit indices, 17 to
    /// 256 with 8-bit, 257 or more with 16-bit.
    pub open spec fn tier_sized(self) -> bool {
        match self {
            ChunkData::Homogenous(_) => true,
            ChunkData::Paletted4 { palette, .. } => 2 <= palette@.len() <= 16,
            ChunkData::Paletted8 { palette, .. } => 17 <= palette@.len() <= 256,
            ChunkData::Paletted16 { palette, .. } => palette@.len() >= 257,
        }
    }

    /// No state appears twice in the palette.
    pub open spec fn palette_distinct(self) -> bool {
        distinct_states(self.base_palette())
    }

    /// Every state written by `deltas` gets a 16-bit palette index: it sits among the first
    /// 65536 entries of the merged palette.
    pub open spec fn batch_admits(self, deltas: Seq<(usize, BlockState)>) -> bool {
        forall|k: int|
            0 <= k < deltas.len() ==> #[trigger] addressable16(
                merged_palette(self.base_palette(), deltas),
            ).contains(deltas[k].1)
    }
}

proof fn lemma_apply_deltas_step(blocks: Seq<BlockState>, deltas: Seq<(usize, BlockState)>, k: int)
    requires
        0 <= k < deltas.len(),
    ensures
        apply_deltas(blocks, deltas.take(k + 1)) == apply_deltas(blocks, deltas.take(k)).update(
            deltas[k].0 as int,
            deltas[k].1,
        ),
{
    assert(deltas.take(k + 1).drop_last() =~= deltas.take(k));
}

proof fn lemma_apply_deltas_len(blocks: Seq<BlockState>, deltas: Seq<(usize, BlockState)>)
    requires
        forall|k: int| 0 <= k < deltas.len() ==> (#[trigger] deltas[k].0 as int) < blocks.len(),
    ensures
        apply_deltas(blocks, deltas).len() == blocks.len(),
    decreases deltas.len(),
{
    if deltas.len() > 0 {
        let d0 = deltas.drop_last();
        assert forall|k: int| 0 <= k < d0.len() implies (#[trigger] d0[k].0 as int) < blocks.len() by {
            assert(d0[k] == deltas[k]);
        }
        lemma_apply_deltas_len(blocks, d0);
    }
}

proof fn lemma_merged_step(base: Seq<BlockState>, deltas: Seq<(usize, BlockState)>, k: int)
    requires
        0 <= k < deltas.len(),
    ensures
        merged_palette(base, deltas.take(k + 1)) == if merged_palette(
            base,
            deltas.take(k),
        ).contains(deltas[k].1) {
            merged_palette(base, deltas.take(k))
        } else {
            merged_palette(base, deltas.take(k)).push(deltas[k].1)
        },
{
    assert(deltas.take(k + 1).drop_last() =~= deltas.take(k));
}

/// Merging new states into a palette without repeats keeps it without repeats.
proof fn lemma_merged_distinct(base: Seq<BlockState>, deltas: Seq<(usize, BlockState)>)
    requires
        distinct_states(base),
    ensures
        distinct_states(merged_palette(base, deltas)),
    decreases deltas.len(),
{
    if deltas.len() > 0 {
        lemma_merged_distinct(base, deltas.drop_last());
        let m = merged_palette(base, deltas.drop_last());
        let x = deltas.last().1;
        if !m.contains(x) {
            let m2 = m.push(x);
            assert forall|a: int, b: int| 0 <= a < b < m2.len() implies m2[a] != m2[b] by {
                if b == m.len() {
                    assert(m2[a] == m[a]);
                }
            }
        }
    }
}

/// The merged palette starts with the base palette and holds every state that `deltas` writes.
proof fn lemma_merged_props(base: Seq<BlockState>, deltas: Seq<(usize, BlockState)>)
    ensures
        merged_palette(base, deltas).len() >= base.len(),
        merged_palette(base, deltas).take(base.len() as int) == base,
        forall|k: int|
            0 <= k < deltas.len() ==> #[trigger] merged_palette(base, deltas).contains(
                deltas[k].1,
            ),
        merged_palette(base, deltas).len() <= base.len() + deltas.len(),
    decreases deltas.len(),
{
    if deltas.len() > 0 {
        let d0 = deltas.drop_last();
        lemma_merged_props(base, d0);
        let m = merged_palette(base, d0);
        assert forall|k: int| 0 <= k < deltas.len() implies #[trigger] merged_palette(
            base,
            deltas,
        ).contains(deltas[k].1) by {
            if k < deltas.len() - 1 {
                assert(d0[k] == deltas[k]);
                assert(m.contains(d0[k].1));
                let q = choose|q: int| 0 <= q < m.len() && m[q] == d0[k].1;
                if !m.contains(deltas.last().1) {
                    assert(m.push(deltas.last().1)[q] == deltas[k].1);
                }
            } else {
                if !m.contains(deltas.last().1) {
                    assert(m.push(deltas.last().1)[m.len() as int] == deltas.last().1);
                }
            }
        }
        if !m.contains(deltas.last().1) {
            assert(m.push(deltas.last().1).take(base.len() as int) =~= m.take(base.len() as int));
        }
    } else {
        assert(base.take(base.len() as int) =~= base);
    }
}

/// A copy of a slice of states.
fn copy_states(states: &[BlockState]) -> (v: Vec<BlockState>)
    ensures
        v@ == states@,
{
    let mut v: Vec<BlockState> = Vec::new();
    let mut k: usize = 0;
    while k < states.len()
        invariant
            k <= states@.len(),
            v@ == states@.subrange(0, k as int),
        decreases states@.len() - k,
    {
        v.push(states[k]);
        k = k + 1;
    }
    assert(v@ =~= states@);
    v
}

/// The palette a batch write needs: the current palette (or the single homogenous state)
/// followed by each new state of `deltas` in first-appearance order.
fn collect_unique_states(data: &ChunkData, deltas: &[(usize, BlockState)]) -> (v: Vec<BlockState>)
    ensures
        v@ == merged_palette(data.base_palette(), deltas@),
{
    let mut unique_states = match data {
        ChunkData::Homogenous(state) => {
            let mut v: Vec<BlockState> = Vec::new();
            v.push(*state);
            v
        },
        ChunkData::Paletted4 { palette, .. } => copy_states(palette.as_slice()),
        ChunkData::Paletted8 { palette, .. } => copy_states(palette.as_slice()),
        ChunkData::Paletted16 { palette, .. } => copy_states(palette.as_slice()),
    };
    assert(unique_states@ =~= data.base_palette());
    assert(deltas@.take(0) =~= Seq::<(usize, BlockState)>::empty());
    let mut k: usize = 0;
    while k < deltas.len()
        invariant
            k <= deltas@.len(),
            unique_states@ == merged_palette(data.base_palette(), deltas@.take(k as int)),
        decreases deltas@.len() - k,
    {
        let state = deltas[k].1;
        proof {
            lemma_merged_step(data.base_palette(), deltas@, k as int);
        }
        match palette_position(&unique_states, state) {
            Some(_) => {},
            None => {
                unique_states.push(state);
            },
        }
        k = k + 1;
    }
    assert(deltas@.take(deltas@.len() as int) =~= deltas@);
    unique_states
}

} // verus!

verus! {

proof fn lemma_deltas_bounded_take(deltas: Seq<(usize, BlockState)>, k: int)
    requires
        0 <= k <= deltas.len(),
        forall|j: int| 0 <= j < deltas.len() ==> (#[trigger] deltas[j].0) < 32768,
    ensures
        forall|j: int| 0 <= j < deltas.take(k).len() ==> (#[trigger] deltas.take(k)[j].0) < 32768,
{
    assert forall|j: int| 0 <= j < deltas.take(k).len() implies (#[trigger] deltas.take(k)[j].0)
        < 32768 by {
        assert(deltas.take(k)[j] == deltas[j]);
    }
}

/// Writes the palette position of each delta's state into a nibble-packed index array.
fn write_deltas_p4(
    palette: &Vec<BlockState>,
    indices: &mut Vec<u8>,
    deltas: &[(usize, BlockState)],
    Ghost(base): Ghost<Seq<BlockState>>,
)
    requires
        palette@.len() <= 16,
        old(indices)@.len() == 16384,
        base.len() == 32768,
        forall|i: int|
            0 <= i < 32768 ==> (#[trigger] nibble_at(old(indices)@, i) as int) < palette@.len(),
        forall|i: int|
            0 <= i < 32768 ==> palette@[#[trigger] nibble_at(old(indices)@, i) as int] == base[i],
        forall|k: int| 0 <= k < deltas@.len() ==> (#[trigger] deltas@[k].0) < 32768,
        forall|k: int| 0 <= k < deltas@.len() ==> palette@.contains(#[trigger] deltas@[k].1),
    ensures
        final(indices)@.len() == 16384,
        forall|i: int|
            0 <= i < 32768 ==> (#[trigger] nibble_at(final(indices)@, i) as int) < palette@.len(),
        forall|i: int|
            0 <= i < 32768 ==> palette@[#[trigger] nibble_at(final(indices)@, i) as int]
                == apply_deltas(base, deltas@)[i],
{
    assert(deltas@.take(0) =~= Seq::<(usize, BlockState)>::empty());
    let mut k: usize = 0;
    while k < deltas.len()
        invariant
            k <= deltas@.len(),
            palette@.len() <= 16,
            indices@.len() == 16384,
            base.len() == 32768,
            forall|j: int| 0 <= j < deltas@.len() ==> (#[trigger] deltas@[j].0) < 32768,
            forall|j: int| 0 <= j < deltas@.len() ==> palette@.contains(#[trigger] deltas@[j].1),
            forall|i: int|
                0 <= i < 32768 ==> (#[trigger] nibble_at(indices@, i) as int) < palette@.len(),
            forall|i: int|
                0 <= i < 32768 ==> palette@[#[trigger] nibble_at(indices@, i) as int]
                    == apply_deltas(base, deltas@.take(k as int))[i],
        decreases deltas@.len() - k,
    {
        let (idx, state) = deltas[k];
        assert(palette@.contains(deltas@[k as int].1));
        let p = match palette_position(palette, state) {
            Some(p) => p,
            None => {
                proof {
                    assert(false);
                }
                0
            },
        };
        let ghost prev = indices@;
        write_paletted4_unchecked(indices.as_mut_slice(), idx, p as u8);
        proof {
            lemma_apply_deltas_step(base, deltas@, k as int);
            lemma_deltas_bounded_take(deltas@, k as int);
            lemma_apply_deltas_len(base, deltas@.take(k as int));
            assert forall|i: int| 0 <= i < 32768 implies palette@[#[trigger] nibble_at(
                indices@,
                i,
            ) as int] == apply_deltas(base, deltas@.take(k + 1))[i] by {
                assert(nibble_at(indices@, i) == if i == idx {
                    p as u8
                } else {
                    nibble_at(prev, i)
                });
            }
            assert forall|i: int| 0 <= i < 32768 implies (#[trigger] nibble_at(indices@, i) as int)
                < palette@.len() by {
                assert(nibble_at(indices@, i) == if i == idx {
                    p as u8
                } else {
                    nibble_at(prev, i)
                });
            }
        }
        k = k + 1;
    }
    assert(deltas@.take(deltas@.len() as int) =~= deltas@);
}

/// Writes the palette position of each delta's state into a byte index array.
fn write_deltas_p8(
    palette: &Vec<BlockState>,
    indices: &mut Vec<u8>,
    deltas: &[(usize, BlockState)],
    Ghost(base): Ghost<Seq<BlockState>>,
)
    requires
        palette@.len() <= 256,
        old(indices)@.len() == 32768,
        base.len() == 32768,
        forall|i: int| 0 <= i < 32768 ==> (#[trigger] old(indices)@[i] as int) < palette@.len(),
        forall|i: int| 0 <= i < 32768 ==> palette@[#[trigger] old(indices)@[i] as int] == base[i],
        forall|k: int| 0 <= k < deltas@.len() ==> (#[trigger] deltas@[k].0) < 32768,
        forall|k: int| 0 <= k < deltas@.len() ==> palette@.contains(#[trigger] deltas@[k].1),
    ensures
        final(indices)@.len() == 32768,
        forall|i: int| 0 <= i < 32768 ==> (#[trigger] final(indices)@[i] as int) < palette@.len(),
        forall|i: int|
            0 <= i < 32768 ==> palette@[#[trigger] final(indices)@[i] as int] == apply_deltas(
                base,
                deltas@,
            )[i],
{
    assert(deltas@.take(0) =~= Seq::<(usize, BlockState)>::empty());
    let mut k: usize = 0;
    while k < deltas.len()
        invariant
            k <= deltas@.len(),
            palette@.len() <= 256,
            indices@.len() == 32768,
            base.len() == 32768,
            forall|j: int| 0 <= j < deltas@.len() ==> (#[trigger] deltas@[j].0) < 32768,
            forall|j: int| 0 <= j < deltas@.len() ==> palette@.contains(#[trigger] deltas@[j].1),
            forall|i: int| 0 <= i < 32768 ==> (#[trigger] indices@[i] as int) < palette@.len(),
            forall|i: int|
                0 <= i < 32768 ==> palette@[#[trigger] indices@[i] as int] == apply_deltas(
                    base,
                    deltas@.take(k as int),
                )[i],
        decreases deltas@.len() - k,
    {
        let (idx, state) = deltas[k];
        assert(palette@.contains(deltas@[k as int].1));
        let p = match palette_position(palette, state) {
            Some(p) => p,
            None => {
                proof {
                    assert(false);
                }
                0
            },
        };
        indices[idx] = p as u8;
        proof {
            lemma_apply_deltas_step(base, deltas@, k as int);
            lemma_deltas_bounded_take(deltas@, k as int);
            lemma_apply_deltas_len(base, deltas@.take(k as int));
        }
        k = k + 1;
    }
    assert(deltas@.take(deltas@.len() as int) =~= deltas@);
}

/// Writes the palette position of each delta's state into a 16-bit index array.
fn write_deltas_p16(
    palette: &Vec<BlockState>,
    indices: &mut Vec<u16>,
    deltas: &[(usize, BlockState)],
    Ghost(base): Ghost<Seq<BlockState>>,
)
    requires
        old(indices)@.len() == 32768,
        base.len() == 32768,
        forall|i: int| 0 <= i < 32768 ==> (#[trigger] old(indices)@[i] as int) < palette@.len(),
        forall|i: int| 0 <= i < 32768 ==> palette@[#[trigger] old(indices)@[i] as int] == base[i],
        forall|k: int| 0 <= k < deltas@.len() ==> (#[trigger] deltas@[k].0) < 32768,
        forall|k: int| 0 <= k < deltas@.len() ==> palette@.contains(#[trigger] deltas@[k].1),
    ensures
        final(indices)@.len() == 32768,
        forall|i: int| 0 <= i < 32768 ==> (#[trigger] final(indices)@[i] as int) < palette@.len(),
        (forall|k: int|
            0 <= k < deltas@.len() ==> addressable16(palette@).contains(#[trigger] deltas@[k].1))
            ==> forall|i: int|
            0 <= i < 32768 ==> palette@[#[trigger] final(indices)@[i] as int] == apply_deltas(
                base,
                deltas@,
            )[i],
{
    assert(deltas@.take(0) =~= Seq::<(usize, BlockState)>::empty());
    let ghost admits = forall|j: int|
        0 <= j < deltas@.len() ==> addressable16(palette@).contains(#[trigger] deltas@[j].1);
    let mut k: usize = 0;
    while k < deltas.len()
        invariant
            k <= deltas@.len(),
            indices@.len() == 32768,
            base.len() == 32768,
            admits == forall|j: int|
                0 <= j < deltas@.len() ==> addressable16(palette@).contains(#[trigger] deltas@[j].1),
            forall|j: int| 0 <= j < deltas@.len() ==> (#[trigger] deltas@[j].0) < 32768,
            forall|j: int| 0 <= j < deltas@.len() ==> palette@.contains(#[trigger] deltas@[j].1),
            forall|i: int| 0 <= i < 32768 ==> (#[trigger] indices@[i] as int) < palette@.len(),
            admits ==> forall|i: int|
                0 <= i < 32768 ==> palette@[#[trigger] indices@[i] as int] == apply_deltas(
                    base,
                    deltas@.take(k as int),
                )[i],
        decreases deltas@.len() - k,
    {
        let (idx, state) = deltas[k];
        assert(palette@.contains(deltas@[k as int].1));
        let p = match palette_position(palette, state) {
            Some(p) => p,
            None => {
                proof {
                    assert(false);
                }
                0
            },
        };
        proof {
            if admits {
                assert(addressable16(palette@).contains(deltas@[k as int].1));
                let q = choose|q: int|
                    0 <= q < addressable16(palette@).len() && addressable16(palette@)[q] == state;
                assert(palette@[q] == state);
            }
        }
        indices[idx] = (#[verifier::truncate] (p as u16));
        proof {
            lemma_apply_deltas_step(base, deltas@, k as int);
            lemma_deltas_bounded_take(deltas@, k as int);
            lemma_apply_deltas_len(base, deltas@.take(k as int));
        }
        k = k + 1;
    }
    assert(deltas@.take(deltas@.len() as int) =~= deltas@);
}

} // verus!

verus! {

/// A vector of `n` copies of `val`.
fn filled_u8(n: usize, val: u8) -> (v: Vec<u8>)
    ensures
        v@.len() == n,
        forall|i: int| 0 <= i < n ==> #[trigger] v@[i] == val,
{
    let mut v: Vec<u8> = Vec::with_capacity(n);
    let mut k: usize = 0;
    while k < n
        invariant
            k <= n,
            v@.len() == k,
            forall|i: int| 0 <= i < k ==> #[trigger] v@[i] == val,
        decreases n - k,
    {
        v.push(val);
        k = k + 1;
    }
    v
}

/// A vector of `n` copies of `val`.
fn filled_u16(n: usize, val: u16) -> (v: Vec<u16>)
    ensures
        v@.len() == n,
        forall|i: int| 0 <= i < n ==> #[trigger] v@[i] == val,
{
    let mut v: Vec<u16> = Vec::with_capacity(n);
    let mut k: usize = 0;
    while k < n
        invariant
            k <= n,
            v@.len() == k,
            forall|i: int| 0 <= i < k ==> #[trigger] v@[i] == val,
        decreases n - k,
    {
        v.push(val);
        k = k + 1;
    }
    v
}

/// The position of `state` in `palette`, known to be present.
fn position_of_present(palette: &Vec<BlockState>, state: BlockState) -> (p: usize)
    requires
        palette@.contains(state),
    ensures
        p < palette@.len(),
        palette@[p as int] == state,
        forall|q: int| 0 <= q < p ==> palette@[q] != state,
{
    match palette_position(palette, state) {
        Some(p) => p,
        None => {
            proof {
                assert(false);
            }
            0
        },
    }
}

/// Re-expresses nibble-packed indices into `old_palette` as byte indices into `new_palette`,
/// which starts with `old_palette`.
fn remap_p4_to_u8(old_palette: &Vec<BlockState>, old_indices: &Vec<u8>, new_palette: &Vec<BlockState>) -> (v: Vec<u8>)
    requires
        old_indices@.len() == 16384,
        old_palette@.len() <= 16,
        new_palette@.len() <= 256,
        new_palette@.len() >= old_palette@.len(),
        new_palette@.take(old_palette@.len() as int) == old_palette@,
        forall|i: int|
            0 <= i < 32768 ==> (#[trigger] nibble_at(old_indices@, i) as int) < old_palette@.len(),
    ensures
        v@.len() == 32768,
        forall|i: int| 0 <= i < 32768 ==> (#[trigger] v@[i] as int) < new_palette@.len(),
        forall|i: int|
            0 <= i < 32768 ==> new_palette@[#[trigger] v@[i] as int] == old_palette@[nibble_at(
                old_indices@,
                i,
            ) as int],
{
    let mut v: Vec<u8> = Vec::with_capacity(32768);
    let mut i: usize = 0;
    while i < 32768
        invariant
            i <= 32768,
            old_indices@.len() == 16384,
            old_palette@.len() <= 16,
            new_palette@.len() <= 256,
            new_palette@.len() >= old_palette@.len(),
            new_palette@.take(old_palette@.len() as int) == old_palette@,
            forall|j: int|
                0 <= j < 32768 ==> (#[trigger] nibble_at(old_indices@, j) as int)
                    < old_palette@.len(),
            v@.len() == i,
            forall|j: int| 0 <= j < i ==> (#[trigger] v@[j] as int) < new_palette@.len(),
            forall|j: int|
                0 <= j < i ==> new_palette@[#[trigger] v@[j] as int] == old_palette@[nibble_at(
                    old_indices@,
                    j,
                ) as int],
        decreases 32768 - i,
    {
        let old_p = read_paletted4(old_indices.as_slice(), i);
        let state = old_palette[old_p];
        assert(new_palette@[old_p as int] == new_palette@.take(old_palette@.len() as int)[old_p as int]);
        let q = position_of_present(new_palette, state);
        v.push(q as u8);
        i = i + 1;
    }
    v
}

/// Re-expresses nibble-packed indices into `old_palette` as 16-bit indices into `new_palette`,
/// which starts with `old_palette`.
fn remap_p4_to_u16(old_palette: &Vec<BlockState>, old_indices: &Vec<u8>, new_palette: &Vec<BlockState>) -> (v: Vec<u16>)
    requires
        old_indices@.len() == 16384,
        old_palette@.len() <= 16,
        new_palette@.len() >= old_palette@.len(),
        new_palette@.take(old_palette@.len() as int) == old_palette@,
        forall|i: int|
            0 <= i < 32768 ==> (#[trigger] nibble_at(old_indices@, i) as int) < old_palette@.len(),
    ensures
        v@.len() == 32768,
        forall|i: int| 0 <= i < 32768 ==> (#[trigger] v@[i] as int) < new_palette@.len(),
        forall|i: int|
            0 <= i < 32768 ==> new_palette@[#[trigger] v@[i] as int] == old_palette@[nibble_at(
                old_indices@,
                i,
            ) as int],
{
    let mut v: Vec<u16> = Vec::with_capacity(32768);
    let mut i: usize = 0;
    while i < 32768
        invariant
            i <= 32768,
            old_indices@.len() == 16384,
            old_palette@.len() <= 16,
            new_palette@.len() >= old_palette@.len(),
            new_palette@.take(old_palette@.len() as int) == old_palette@,
            forall|j: int|
                0 <= j < 32768 ==> (#[trigger] nibble_at(old_indices@, j) as int)
                    < old_palette@.len(),
            v@.len() == i,
            forall|j: int| 0 <= j < i ==> (#[trigger] v@[j] as int) < new_palette@.len(),
            forall|j: int|
                0 <= j < i ==> new_palette@[#[trigger] v@[j] as int] == old_palette@[nibble_at(
                    old_indices@,
                    j,
                ) as int],
        decreases 32768 - i,
    {
        let old_p = read_paletted4(old_indices.as_slice(), i);
        let state = old_palette[old_p];
        assert(new_palette@[old_p as int] == new_palette@.take(old_palette@.len() as int)[old_p as int]);
        let q = position_of_present(new_palette, state);
        v.push(q as u16);
        i = i + 1;
    }
    v
}

/// Re-expresses byte indices into `old_palette` as 16-bit indices into `new_palette`,
/// which starts with `old_palette`.
fn remap_p8_to_u16(old_palette: &Vec<BlockState>, old_indices: &Vec<u8>, new_palette: &Vec<BlockState>) -> (v: Vec<u16>)
    requires
        old_indices@.len() == 32768,
        old_palette@.len() <= 256,
        new_palette@.len() >= old_palette@.len(),
        new_palette@.take(old_palette@.len() as int) == old_palette@,
        forall|i: int| 0 <= i < 32768 ==> (#[trigger] old_indices@[i] as int) < old_palette@.len(),
    ensures
        v@.len() == 32768,
        forall|i: int| 0 <= i < 32768 ==> (#[trigger] v@[i] as int) < new_palette@.len(),
        forall|i: int|
            0 <= i < 32768 ==> new_palette@[#[trigger] v@[i] as int] == old_palette@[old_indices@[i] as int],
{
    let mut v: Vec<u16> = Vec::with_capacity(32768);
    let mut i: usize = 0;
    while i < 32768
        invariant
            i <= 32768,
            old_indices@.len() == 32768,
            old_palette@.len() <= 256,
            new_palette@.len() >= old_palette@.len(),
            new_palette@.take(old_palette@.len() as int) == old_palette@,
            forall|j: int| 0 <= j < 32768 ==> (#[trigger] old_indices@[j] as int) < old_palette@.len(),
            v@.len() == i,
            forall|j: int| 0 <= j < i ==> (#[trigger] v@[j] as int) < new_palette@.len(),
            forall|j: int|
                0 <= j < i ==> new_palette@[#[trigger] v@[j] as int] == old_palette@[old_indices@[j] as int],
        decreases 32768 - i,
    {
        let old_p = old_indices[i] as usize;
        let state = old_palette[old_p];
        assert(new_palette@[old_p as int] == new_palette@.take(old_palette@.len() as int)[old_p as int]);
        let q = position_of_present(new_palette, state);
        v.push(q as u16);
        i = i + 1;
    }
    v
}

} // verus!

verus! {

proof fn lemma_apply_deltas_constant(s: BlockState, deltas: Seq<(usize, BlockState)>)
    requires
        forall|k: int| 0 <= k < deltas.len() ==> (#[trigger] deltas[k]).1 == s,
        forall|k: int| 0 <= k < deltas.len() ==> (#[trigger] deltas[k].0) < 32768,
    ensures
        apply_deltas(Seq::new(32768, |i: int| s), deltas) == Seq::new(32768, |i: int| s),
    decreases deltas.len(),
{
    if deltas.len() > 0 {
        let d0 = deltas.drop_last();
        assert forall|k: int| 0 <= k < d0.len() implies (#[trigger] d0[k]).1 == s by {
            assert(d0[k] == deltas[k]);
        }
        assert forall|k: int| 0 <= k < d0.len() implies (#[trigger] d0[k].0) < 32768 by {
            assert(d0[k] == deltas[k]);
        }
        lemma_apply_deltas_constant(s, d0);
        assert(deltas.last() == deltas[deltas.len() - 1]);
        assert(Seq::new(32768, |i: int| s).update(deltas.last().0 as int, deltas.last().1)
            =~= Seq::new(32768, |i: int| s));
    }
}

impl Chunk {
    /// Applies several `(index, state)` writes, in order, reallocating the index storage at
    /// most once: the palette is first extended with every new state, and the chunk moves to
    /// the smallest tier that holds the extended palette when its own tier cannot.
    #[verifier::spinoff_prover]
    pub fn set_block_batch_unchecked(&mut self, deltas: &[(usize, BlockState)])
        requires
            old(self).data.wf(),
            forall|k: int| 0 <= k < deltas@.len() ==> (#[trigger] deltas@[k].0) < 32768,
        ensures
            final(self).data.wf(),
            old(self).data.batch_admits(deltas@) ==> final(self).data.contents() == apply_deltas(
                old(self).data.contents(),
                deltas@,
            ),
            deltas@.len() == 0 ==> final(self).data == old(self).data,
            final(self).data.base_palette() == merged_palette(old(self).data.base_palette(), deltas@),
            final(self).data.tier() == if old(self).data.tier() >= tier_for_palette(
                merged_palette(old(self).data.base_palette(), deltas@).len() as int,
            ) {
                old(self).data.tier()
            } else {
                tier_for_palette(merged_palette(old(self).data.base_palette(), deltas@).len() as int)
            },
            old(self).data.tier_sized() ==> final(self).data.tier_sized(),
            old(self).data.palette_distinct() ==> final(self).data.palette_distinct(),
    {
        if deltas.len() == 0 {
            proof {
                assert(self.data.contents() == apply_deltas(self.data.contents(), deltas@));
            }
            return;
        }
        proof {
            lemma_merged_props(self.data.base_palette(), deltas@);
            if self.data.palette_distinct() {
                lemma_merged_distinct(self.data.base_palette(), deltas@);
            }
        }
        let unique_states = collect_unique_states(&self.data, deltas);
        let required_size = unique_states.len();
        let mut data = ChunkData::Homogenous(BlockState(0));
        std::mem::swap(&mut data, &mut self.data);
        let ghost old_data = data;
        let ghost base = old_data.contents();
        let ghost admits = old_data.batch_admits(deltas@);
        proof {
            lemma_merged_props(old_data.base_palette(), deltas@);
            lemma_apply_deltas_len(base, deltas@);
            assert forall|k: int| 0 <= k < deltas@.len() implies unique_states@.contains(
                #[trigger] deltas@[k].1,
            ) by {
                assert(merged_palette(old_data.base_palette(), deltas@).contains(deltas@[k].1));
            }
        }
        let next = match data {
            ChunkData::Homogenous(state) => {
                proof {
                    assert(unique_states@[0] == unique_states@.take(1)[0]);
                }
                if required_size <= 1 {
                    proof {
                        assert forall|k: int| 0 <= k < deltas@.len() implies (
                        #[trigger] deltas@[k]).1 == state by {
                            assert(unique_states@.contains(deltas@[k].1));
                        }
                        lemma_apply_deltas_constant(state, deltas@);
                        assert(base =~= Seq::new(32768, |i: int| state));
                        assert(unique_states@ =~= seq![state]);
                    }
                    ChunkData::Homogenous(state)
                } else if required_size <= 16 {
                    let mut new_indices = zeroed_u8(16384);
                    proof {
                        lemma_zero_nibbles(new_indices@);
                    }
                    write_deltas_p4(&unique_states, &mut new_indices, deltas, Ghost(base));
                    ChunkData::Paletted4 { palette: unique_states, indices: new_indices }
                } else if required_size <= 256 {
                    let p = position_of_present(&unique_states, state);
                    let mut new_indices = filled_u8(32768, p as u8);
                    write_deltas_p8(&unique_states, &mut new_indices, deltas, Ghost(base));
                    ChunkData::Paletted8 { palette: unique_states, indices: new_indices }
                } else {
                    let p = position_of_present(&unique_states, state);
                    let mut new_indices = filled_u16(32768, p as u16);
                    write_deltas_p16(&unique_states, &mut new_indices, deltas, Ghost(base));
                    ChunkData::Paletted16 { palette: unique_states, indices: new_indices }
                }
            },
            ChunkData::Paletted4 { palette, mut indices } => {
                if required_size <= 16 {
                    proof {
                        assert forall|i: int| 0 <= i < 32768 implies unique_states@[#[trigger] nibble_at(
                            indices@,
                            i,
                        ) as int] == base[i] by {
                            let n = nibble_at(indices@, i) as int;
                            assert(unique_states@[n] == unique_states@.take(palette@.len() as int)[n]);
                        }
                    }
                    write_deltas_p4(&unique_states, &mut indices, deltas, Ghost(base));
                    ChunkData::Paletted4 { palette: unique_states, indices }
                } else if required_size <= 256 {
                    let mut new_indices = remap_p4_to_u8(&palette, &indices, &unique_states);
                    write_deltas_p8(&unique_states, &mut new_indices, deltas, Ghost(base));
                    ChunkData::Paletted8 { palette: unique_states, indices: new_indices }
                } else {
                    let mut new_indices = remap_p4_to_u16(&palette, &indices, &unique_states);
                    write_deltas_p16(&unique_states, &mut new_indices, deltas, Ghost(base));
                    ChunkData::Paletted16 { palette: unique_states, indices: new_indices }
                }
            },
            ChunkData::Paletted8 { palette, mut indices } => {
                if required_size <= 256 {
                    proof {
                        assert forall|i: int| 0 <= i < 32768 implies unique_states@[#[trigger] indices@[i] as int] == base[i] by {
                            let n = indices@[i] as int;
                            assert(unique_states@[n] == unique_states@.take(palette@.len() as int)[n]);
                        }
                    }
                    write_deltas_p8(&unique_states, &mut indices, deltas, Ghost(base));
                    ChunkData::Paletted8 { palette: unique_states, indices }
                } else {
                    let mut new_indices = remap_p8_to_u16(&palette, &indices, &unique_states);
                    write_deltas_p16(&unique_states, &mut new_indices, deltas, Ghost(base));
                    ChunkData::Paletted16 { palette: unique_states, indices: new_indices }
                }
            },
            ChunkData::Paletted16 { palette, mut indices } => {
                proof {
                    assert forall|i: int| 0 <= i < 32768 implies unique_states@[#[trigger] indices@[i] as int] == base[i] by {
                        let n = indices@[i] as int;
                        assert(unique_states@[n] == unique_states@.take(palette@.len() as int)[n]);
                    }
                }
                write_deltas_p16(&unique_states, &mut indices, deltas, Ghost(base));
                ChunkData::Paletted16 { palette: unique_states, indices }
            },
        };
        proof {
            if admits {
                assert(next.contents() =~= apply_deltas(base, deltas@));
            }
        }
        self.data = next;
    }
}

} // verus!

verus! {

/// Reading back the nibble of a block just written gives the written 4-bit value, and every
/// other block's nibble is unchanged.
pub proof fn law_nibble_write_then_read(indices: Seq<u8>, index: int, val: u8)
    requires
        0 <= index,
        index / 2 < indices.len(),
        val < 16,
    ensures
        nibble_at(indices.update(index / 2, byte_with_nibble(indices[index / 2], index, val)), index)
            == val,
        forall|j: int|
            0 <= j < 2 * indices.len() && j != index ==> #[trigger] nibble_at(
                indices.update(index / 2, byte_with_nibble(indices[index / 2], index, val)),
                j,
            ) == nibble_at(indices, j),
{
    let updated = indices.update(index / 2, byte_with_nibble(indices[index / 2], index, val));
    lemma_nibble_bits(indices[index / 2], val);
    assert forall|j: int| 0 <= j < 2 * indices.len() && j != index implies #[trigger] nibble_at(
        updated,
        j,
    ) == nibble_at(indices, j) by {
        if j / 2 == index / 2 {
            vstd::arithmetic::div_mod::lemma_fundamental_div_mod(j, 2);
            vstd::arithmetic::div_mod::lemma_fundamental_div_mod(index, 2);
            assert(j % 2 != index % 2);
        }
    }
}

/// Reading back a block just written gives the written state, and every other block reads
/// as it did before the write.
pub proof fn law_read_after_write(
    before: ChunkData,
    after: ChunkData,
    local: IVec3,
    state: BlockState,
    other: IVec3,
)
    requires
        in_chunk_bounds(local),
        in_chunk_bounds(other),
        forall|i: int|
            0 <= i < 32768 ==> #[trigger] after.block_at(i) == if i == spec_local_index(local) {
                state
            } else {
                before.block_at(i)
            },
    ensures
        after.block_at(spec_local_index(local)) == state,
        other != local ==> after.block_at(spec_local_index(other)) == before.block_at(
            spec_local_index(other),
        ),
{
    law_local_index_bijective(local, other);
    law_local_index_bijective(other, local);
}

/// A batch of one write is that write.
pub proof fn law_single_delta(blocks: Seq<BlockState>, index: usize, state: BlockState)
    ensures
        apply_deltas(blocks, seq![(index, state)]) == blocks.update(index as int, state),
{
    let d = seq![(index, state)];
    assert(d.drop_last() =~= Seq::<(usize, BlockState)>::empty());
    assert(apply_deltas(blocks, d.drop_last()) == blocks);
    assert(d.last() == (index, state));
}

/// Applying two batches one after the other is applying their concatenation.
pub proof fn law_deltas_concat(
    blocks: Seq<BlockState>,
    first: Seq<(usize, BlockState)>,
    second: Seq<(usize, BlockState)>,
)
    ensures
        apply_deltas(blocks, first + second) == apply_deltas(apply_deltas(blocks, first), second),
    decreases second.len(),
{
    if second.len() == 0 {
        assert(first + second =~= first);
    } else {
        law_deltas_concat(blocks, first, second.drop_last());
        assert((first + second).drop_last() =~= first + second.drop_last());
        assert((first + second).last() == second.last());
    }
}

/// After a batch, a block that no write touched keeps its old state.
pub proof fn law_untouched_block_keeps_state(blocks: Seq<BlockState>, deltas: Seq<(usize, BlockState)>, i: int)
    requires
        0 <= i < blocks.len(),
        forall|k: int| 0 <= k < deltas.len() ==> (#[trigger] deltas[k].0 as int) < blocks.len(),
        forall|k: int| 0 <= k < deltas.len() ==> (#[trigger] deltas[k].0) != i,
    ensures
        apply_deltas(blocks, deltas)[i] == blocks[i],
    decreases deltas.len(),
{
    if deltas.len() > 0 {
        let d0 = deltas.drop_last();
        assert forall|k: int| 0 <= k < d0.len() implies (#[trigger] d0[k].0 as int) < blocks.len()
            && d0[k].0 != i by {
            assert(d0[k] == deltas[k]);
        }
        law_untouched_block_keeps_state(blocks, d0, i);
        lemma_apply_deltas_len(blocks, d0);
        assert(deltas[deltas.len() - 1].0 != i);
    }
}

/// After a batch, a block holds the state of the last write to it.
pub proof fn law_last_write_wins(blocks: Seq<BlockState>, deltas: Seq<(usize, BlockState)>, k: int)
    requires
        0 <= k < deltas.len(),
        forall|j: int| 0 <= j < deltas.len() ==> (#[trigger] deltas[j].0 as int) < blocks.len(),
        forall|m: int| k < m < deltas.len() ==> (#[trigger] deltas[m].0) != deltas[k].0,
    ensures
        apply_deltas(blocks, deltas)[deltas[k].0 as int] == deltas[k].1,
    decreases deltas.len(),
{
    let d0 = deltas.drop_last();
    lemma_apply_deltas_len(blocks, d0);
    if k < deltas.len() - 1 {
        assert forall|j: int| 0 <= j < d0.len() implies (#[trigger] d0[j].0 as int) < blocks.len() by {
            assert(d0[j] == deltas[j]);
        }
        assert forall|m: int| k < m < d0.len() implies (#[trigger] d0[m].0) != d0[k].0 by {
            assert(d0[m] == deltas[m]);
        }
        law_last_write_wins(blocks, d0, k);
        assert(d0[k] == deltas[k]);
        assert(deltas[deltas.len() - 1].0 != deltas[k].0);
    }
}

} // verus!

use vstd::prelude::*;

verus! {

/// How a block state gets meshed, packed into one word:
/// bit 0 visible, bit 1 transparent, bits 8-15 the fractional shape mask,
/// bits 16-31 the material id.
#[derive(Clone, Copy, Debug)]
pub struct MeshingAttributes {
    packed_data: u32,
}

impl MeshingAttributes {
    /// Whether faces of this block are drawn.
    pub closed spec fn spec_visible(self) -> bool {
        self.packed_data & 1u32 != 0
    }

    /// Whether neighbouring faces show through this block.
    pub closed spec fn spec_transparent(self) -> bool {
        self.packed_data & 2u32 != 0
    }

    /// The fractional shape mask.
    pub closed spec fn spec_fractional_mask(self) -> u8 {
        ((self.packed_data >> 8u32) & 0xFFu32) as u8
    }

    /// The material id.
    pub closed spec fn spec_material_id(self) -> u16 {
        ((self.packed_data >> 16u32) & 0xFFFFu32) as u16
    }

    /// The packed form of four attributes.
    pub closed spec fn spec_pack(
        is_visible: bool,
        is_transparent: bool,
        fractional_mask: u8,
        material_id: u16,
    ) -> Self {
        MeshingAttributes {
            packed_data: ((if is_visible {
                1u32
            } else {
                0u32
            }) | ((if is_transparent {
                1u32
            } else {
                0u32
            }) << 1u32)) | ((fractional_mask as u32) << 8u32) | ((material_id as u32) << 16u32),
        }
    }

    proof fn lemma_pack_fields(
        is_visible: bool,
        is_transparent: bool,
        fractional_mask: u8,
        material_id: u16,
    )
        ensures
            Self::spec_pack(is_visible, is_transparent, fractional_mask, material_id).spec_visible()
                == is_visible,
            Self::spec_pack(is_visible, is_transparent, fractional_mask, material_id).spec_transparent()
                == is_transparent,
            Self::spec_pack(is_visible, is_transparent, fractional_mask, material_id).spec_fractional_mask()
                == fractional_mask,
            Self::spec_pack(is_visible, is_transparent, fractional_mask, material_id).spec_material_id()
                == material_id,
    {
        let v: u32 = if is_visible {
            1
        } else {
            0
        };
        let t: u32 = if is_transparent {
            1
        } else {
            0
        };
        let fm = fractional_mask as u32;
        let mi = material_id as u32;
        assert(((v | (t << 1u32)) | (fm << 8u32) | (mi << 16u32)) & 1u32 == v) by (bit_vector)
            requires
                v <= 1,
                t <= 1,
                fm < 256,
                mi < 65536,
        ;
        assert(((v | (t << 1u32)) | (fm << 8u32) | (mi << 16u32)) & 2u32 == t << 1u32)
            by (bit_vector)
            requires
                v <= 1,
                t <= 1,
                fm < 256,
                mi < 65536,
        ;
        assert(t << 1u32 == 0 <==> t == 0) by (bit_vector)
            requires
                t <= 1,
        ;
        assert((((v | (t << 1u32)) | (fm << 8u32) | (mi << 16u32)) >> 8u32) & 0xFFu32 == fm)
            by (bit_vector)
            requires
                v <= 1,
                t <= 1,
                fm < 256,
                mi < 65536,
        ;
        assert((((v | (t << 1u32)) | (fm << 8u32) | (mi << 16u32)) >> 16u32) & 0xFFFFu32 == mi)
            by (bit_vector)
            requires
                v <= 1,
                t <= 1,
                fm < 256,
                mi < 65536,
        ;
    }

    /// Packs the four attributes; each getter gives back what was packed.
    pub fn new(is_visible: bool, is_transparent: bool, fractional_mask: u8, material_id: u16) -> (r:
        Self)
        ensures
            r == Self::spec_pack(is_visible, is_transparent, fractional_mask, material_id),
            r.spec_visible() == is_visible,
            r.spec_transparent() == is_transparent,
            r.spec_fractional_mask() == fractional_mask,
            r.spec_material_id() == material_id,
    {
        let v: u32 = if is_visible {
            1
        } else {
            0
        };
        let t: u32 = if is_transparent {
            1
        } else {
            0
        };
        let flags: u32 = v | (t << 1u32);
        let mask: u32 = (fractional_mask as u32) << 8u32;
        let mat: u32 = (material_id as u32) << 16u32;
        let packed = flags | mask | mat;
        proof {
            Self::lemma_pack_fields(is_visible, is_transparent, fractional_mask, material_id);
        }
        MeshingAttributes { packed_data: packed }
    }

    /// The attributes of air.
    pub open spec fn spec_air() -> Self {
        Self::spec_pack(false, true, 0, 0)
    }

    /// Attributes of air: invisible and transparent.
    pub fn air() -> (r: Self)
        ensures
            r == Self::spec_air(),
            !r.spec_visible(),
            r.spec_transparent(),
            r.spec_fractional_mask() == 0,
            r.spec_material_id() == 0,
    {
        Self::new(false, true, 0, 0)
    }

    /// Attributes of a plain solid block: visible and opaque.
    pub fn solid() -> (r: Self)
        ensures
            r.spec_visible(),
            !r.spec_transparent(),
            r.spec_fractional_mask() == 0,
            r.spec_material_id() == 0,
    {
        Self::new(true, false, 0, 0)
    }

    pub fn is_visible(&self) -> (r: bool)
        ensures
            r == self.spec_visible(),
    {
        (self.packed_data & 0x1) != 0
    }

    pub fn is_transparent(&self) -> (r: bool)
        ensures
            r == self.spec_transparent(),
    {
        (self.packed_data & 0x2) != 0
    }

    pub fn fractional_mask(&self) -> (r: u8)
        ensures
            r == self.spec_fractional_mask(),
    {
        ((self.packed_data >> 8) & 0xFF) as u8
    }

    pub fn material_id(&self) -> (r: u16)
        ensures
            r == self.spec_material_id(),
    {
        ((self.packed_data >> 16) & 0xFFFF) as u16
    }
}

impl Default for MeshingAttributes {
    fn default() -> (r: Self)
        ensures
            !r.spec_visible(),
            r.spec_transparent(),
            r.spec_fractional_mask() == 0,
            r.spec_material_id() == 0,
    {
        Self::air()
    }
}


/// The meshing attributes of every block state, by state id.
pub struct MeshingRegistry {
    pub data: Vec<MeshingAttributes>,
}

impl Default for MeshingRegistry {
    fn default() -> (r: Self)
        ensures
            r.data@.len() == 0,
    {
        MeshingRegistry { data: Vec::new() }
    }
}

impl MeshingRegistry {
    /// Stores the attributes of one state, growing the table with air attributes as needed.
    pub fn set(&mut self, state_id: u32, value: MeshingAttributes)
        requires
            state_id as int + 1 <= usize::MAX,
        ensures
            final(self).data@.len() == if old(self).data@.len() > state_id as int {
                old(self).data@.len() as int
            } else {
                state_id as int + 1
            },
            final(self).data@[state_id as int] == value,
            forall|i: int|
                0 <= i < final(self).data@.len() && i != state_id ==> #[trigger] final(self).data@[i]
                    == if i < old(self).data@.len() {
                    old(self).data@[i]
                } else {
                    MeshingAttributes::spec_air()
                },
    {
        let target_len = (state_id as usize) + 1;
        if target_len > self.data.len() {
            self.data.resize(target_len, MeshingAttributes::air());
        }
        self.data.set(state_id as usize, value);
    }

    /// Stores the attributes of consecutive states from `base_id`, growing the table with
    /// air attributes as needed.
    pub fn set_batch(&mut self, base_id: u32, values: &[MeshingAttributes])
        requires
            base_id as int + values@.len() <= usize::MAX,
        ensures
            values@.len() == 0 ==> final(self).data@ == old(self).data@,
            values@.len() > 0 ==> final(self).data@.len() == if old(self).data@.len() >= base_id
                + values@.len() {
                old(self).data@.len() as int
            } else {
                base_id + values@.len()
            },
            values@.len() > 0 ==> forall|i: int|
                0 <= i < final(self).data@.len() ==> #[trigger] final(self).data@[i] == if base_id
                    <= i < base_id + values@.len() {
                    values@[i - base_id]
                } else if i < old(self).data@.len() {
                    old(self).data@[i]
                } else {
                    MeshingAttributes::spec_air()
                },
    {
        if values.len() == 0 {
            return;
        }
        let start = base_id as usize;
        let end = start + values.len();
        if end > self.data.len() {
            self.data.resize(end, MeshingAttributes::air());
        }
        let ghost grown = self.data@;
        let mut k: usize = 0;
        while k < values.len()
            invariant
                k <= values@.len(),
                start == base_id,
                end == start + values@.len(),
                self.data@.len() == grown.len(),
                grown.len() >= end,
                forall|i: int|
                    0 <= i < self.data@.len() ==> #[trigger] self.data@[i] == if start <= i < start + k {
                        values@[i - start]
                    } else {
                        grown[i]
                    },
            decreases values@.len() - k,
        {
            self.data.set(start + k, values[k]);
            k = k + 1;
        }
    }
}


/// Each getter gives back what was packed.
pub proof fn law_attributes_round_trip(
    is_visible: bool,
    is_transparent: bool,
    fractional_mask: u8,
    material_id: u16,
)
    ensures
        MeshingAttributes::spec_pack(is_visible, is_transparent, fractional_mask, material_id).spec_visible()
            == is_visible,
        MeshingAttributes::spec_pack(is_visible, is_transparent, fractional_mask, material_id).spec_transparent()
            == is_transparent,
        MeshingAttributes::spec_pack(is_visible, is_transparent, fractional_mask, material_id).spec_fractional_mask()
            == fractional_mask,
        MeshingAttributes::spec_pack(is_visible, is_transparent, fractional_mask, material_id).spec_material_id()
            == material_id,
{
    MeshingAttributes::lemma_pack_fields(is_visible, is_transparent, fractional_mask, material_id);
}

} // verus!

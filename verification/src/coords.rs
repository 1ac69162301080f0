use vstd::prelude::*;

verus! {

/// Edge length of a chunk, in blocks.
pub const CHUNK_SIZE: usize = 32;

/// Number of blocks in a chunk.
pub const CHUNK_VOLUME: usize = 32768;

/// An integer 3-vector, used for block and chunk coordinates.
#[derive(Clone, Copy, PartialEq, Eq, Structural, Debug, Hash)]
pub struct IVec3 {
    pub x: i32,
    pub y: i32,
    pub z: i32,
}

impl IVec3 {
    pub fn new(x: i32, y: i32, z: i32) -> (r: IVec3)
        ensures
            r.x == x,
            r.y == y,
            r.z == z,
    {
        IVec3 { x, y, z }
    }
}

} // verus!

verus! {

/// Whether a local coordinate lies inside a chunk (each axis in `0..32`).
pub open spec fn in_chunk_bounds(local: IVec3) -> bool {
    0 <= local.x < 32 && 0 <= local.y < 32 && 0 <= local.z < 32
}

/// The flat index of a local coordinate: x-major, then y, then z.
pub open spec fn spec_local_index(local: IVec3) -> int {
    local.x + local.y * 32 + local.z * 1024
}

/// Every intermediate step of the 32-bit index arithmetic stays in `i32` range.
pub open spec fn local_index_fits_i32(local: IVec3) -> bool {
    &&& i32::MIN <= local.y * 32 <= i32::MAX
    &&& i32::MIN <= local.z * 1024 <= i32::MAX
    &&& i32::MIN <= local.x + local.y * 32 <= i32::MAX
    &&& i32::MIN <= spec_local_index(local) <= i32::MAX
}

/// Flattens a local coordinate into an index into a chunk's block array.
pub fn local_to_index(local: IVec3) -> (r: usize)
    requires
        local_index_fits_i32(local),
    ensures
        r == spec_local_index(local) as usize,
        spec_local_index(local) >= 0 ==> r == spec_local_index(local),
        in_chunk_bounds(local) ==> r < 32768,
{
    (#[verifier::truncate] ((local.x + local.y * 32 + local.z * 1024) as usize))
}

} // verus!

verus! {

/// Adding a multiple of 32 to `x` adds to its quotient by 32 and leaves its remainder.
proof fn lemma_split32(x: int, k: int)
    ensures
        x == (x / 32) * 32 + x % 32,
        0 <= x % 32 < 32,
        (x + k * 32) / 32 == x / 32 + k,
        (x + k * 32) % 32 == x % 32,
{
    vstd::arithmetic::div_mod::lemma_fundamental_div_mod(x, 32);
    vstd::arithmetic::div_mod::lemma_mod_bound(x, 32);
    vstd::arithmetic::div_mod::lemma_fundamental_div_mod_converse(x + k * 32, 32, x / 32 + k, x % 32);
}

/// Floor division and non-negative remainder of a coordinate by the chunk size.
fn split_axis(v: i32) -> (r: (i32, i32))
    ensures
        r.0 == v / 32,
        r.1 == v % 32,
        r.0 * 32 + r.1 == v,
        0 <= r.1 < 32,
{
    let shifted: u64 = (v as i64 + 2147483648i64) as u64;
    let q: u64 = shifted / 32;
    let rem: u64 = shifted % 32;
    proof {
        assert(shifted as int == v + 2147483648);
        lemma_split32(v as int, 67108864);
    }
    ((q as i64 - 67108864i64) as i32, rem as i32)
}

/// Splits a world coordinate into its chunk's origin (a multiple of 32 on each axis) and the
/// coordinate within that chunk (each axis in `0..32`).
pub fn global_to_local(global: IVec3) -> (r: (IVec3, IVec3))
    ensures
        r.0.x == (global.x / 32) * 32,
        r.0.y == (global.y / 32) * 32,
        r.0.z == (global.z / 32) * 32,
        r.1.x == global.x % 32,
        r.1.y == global.y % 32,
        r.1.z == global.z % 32,
        in_chunk_bounds(r.1),
        r.0.x + r.1.x == global.x,
        r.0.y + r.1.y == global.y,
        r.0.z + r.1.z == global.z,
{
    let (qx, rx) = split_axis(global.x);
    let (qy, ry) = split_axis(global.y);
    let (qz, rz) = split_axis(global.z);
    let chunk_coord = IVec3::new(qx * 32, qy * 32, qz * 32);
    let local_coord = IVec3::new(rx, ry, rz);
    (chunk_coord, local_coord)
}

} // verus!

verus! {

/// The origins of the six chunks next to the chunk at `pos`, ordered -X, +X, -Y, +Y, -Z, +Z.
pub fn neighbor_chunk_origins(pos: IVec3) -> (r: [IVec3; 6])
    requires
        i32::MIN + 32 <= pos.x <= i32::MAX - 32,
        i32::MIN + 32 <= pos.y <= i32::MAX - 32,
        i32::MIN + 32 <= pos.z <= i32::MAX - 32,
    ensures
        r@[0] == (IVec3 { x: (pos.x - 32) as i32, y: pos.y, z: pos.z }),
        r@[1] == (IVec3 { x: (pos.x + 32) as i32, y: pos.y, z: pos.z }),
        r@[2] == (IVec3 { x: pos.x, y: (pos.y - 32) as i32, z: pos.z }),
        r@[3] == (IVec3 { x: pos.x, y: (pos.y + 32) as i32, z: pos.z }),
        r@[4] == (IVec3 { x: pos.x, y: pos.y, z: (pos.z - 32) as i32 }),
        r@[5] == (IVec3 { x: pos.x, y: pos.y, z: (pos.z + 32) as i32 }),
{
    [
        IVec3::new(pos.x - 32, pos.y, pos.z),
        IVec3::new(pos.x + 32, pos.y, pos.z),
        IVec3::new(pos.x, pos.y - 32, pos.z),
        IVec3::new(pos.x, pos.y + 32, pos.z),
        IVec3::new(pos.x, pos.y, pos.z - 32),
        IVec3::new(pos.x, pos.y, pos.z + 32),
    ]
}

} // verus!

verus! {

/// Flattening is a bijection from in-chunk coordinates onto `0..32768`.
pub proof fn law_local_index_bijective(a: IVec3, b: IVec3)
    requires
        in_chunk_bounds(a),
        in_chunk_bounds(b),
    ensures
        0 <= spec_local_index(a) < 32768,
        spec_local_index(a) == spec_local_index(b) <==> a == b,
{
    lemma_index_digits(a);
    lemma_index_digits(b);
}

/// The coordinates of an in-chunk position are the base-32 digits of its flat index.
proof fn lemma_index_digits(a: IVec3)
    requires
        in_chunk_bounds(a),
    ensures
        0 <= spec_local_index(a) < 32768,
        a.x == spec_local_index(a) % 32,
        a.y == (spec_local_index(a) / 32) % 32,
        a.z == (spec_local_index(a) / 32) / 32,
{
    let i = spec_local_index(a);
    let upper = a.y + a.z * 32;
    assert(i == upper * 32 + a.x);
    vstd::arithmetic::div_mod::lemma_fundamental_div_mod_converse(i, 32, upper, a.x as int);
    vstd::arithmetic::div_mod::lemma_fundamental_div_mod_converse(upper, 32, a.z as int, a.y as int);
}

/// Splitting a world coordinate undoes building it from a chunk origin and an in-chunk
/// coordinate.
pub proof fn law_split_undoes_join(origin: i32, local: i32)
    requires
        origin % 32 == 0,
        0 <= local < 32,
        i32::MIN <= origin + local <= i32::MAX,
    ensures
        ((origin + local) / 32) * 32 == origin,
        (origin + local) % 32 == local,
{
    lemma_split32(origin as int, 0);
    vstd::arithmetic::div_mod::lemma_fundamental_div_mod_converse(
        origin + local,
        32,
        origin / 32,
        local as int,
    );
}

} // verus!

use vstd::prelude::*;

use crate::block::BlockState;
use crate::chunk::{apply_deltas, ChunkError};
use crate::coords::{global_to_local, local_to_index, spec_local_index, IVec3};

verus! {

/// Errors of a world access.
#[derive(Clone, Copy, Debug, PartialEq, Eq, Structural)]
pub enum WorldAccessError {
    /// The chunk coordinate is not among the loaded chunks.
    ChunkNotLoaded(IVec3),
    /// The chunk entity exists but lacks its chunk data.
    EcsStateInvalid,
    /// A chunk-level error.
    ChunkError(ChunkError),
}

impl From<ChunkError> for WorldAccessError {
    fn from(err: ChunkError) -> (r: WorldAccessError) {
        WorldAccessError::ChunkError(err)
    }
}

impl vstd::std_specs::convert::FromSpecImpl<ChunkError> for WorldAccessError {
    open spec fn obeys_from_spec() -> bool {
        true
    }

    open spec fn from_spec(err: ChunkError) -> WorldAccessError {
        WorldAccessError::ChunkError(err)
    }
}

/// The origin of the chunk holding a world coordinate.
pub open spec fn chunk_of(global: IVec3) -> IVec3 {
    IVec3 {
        x: ((global.x / 32) * 32) as i32,
        y: ((global.y / 32) * 32) as i32,
        z: ((global.z / 32) * 32) as i32,
    }
}

/// The flat index, within its chunk, of a world coordinate.
pub open spec fn index_in_chunk(global: IVec3) -> int {
    spec_local_index(IVec3 { x: (global.x % 32) as i32, y: (global.y % 32) as i32, z: (global.z % 32) as i32 })
}

/// The writes of `deltas` that land in the chunk with origin `key`, as `(index, state)`
/// pairs in the order they were given.
pub open spec fn deltas_for(deltas: Seq<(IVec3, BlockState)>, key: IVec3) -> Seq<(usize, BlockState)>
    decreases deltas.len(),
{
    if deltas.len() == 0 {
        Seq::empty()
    } else {
        let rest = deltas_for(deltas.drop_last(), key);
        if chunk_of(deltas.last().0) == key {
            rest.push((index_in_chunk(deltas.last().0) as usize, deltas.last().1))
        } else {
            rest
        }
    }
}

proof fn lemma_deltas_for_step(deltas: Seq<(IVec3, BlockState)>, k: int, key: IVec3)
    requires
        0 <= k < deltas.len(),
    ensures
        deltas_for(deltas.take(k + 1), key) == if chunk_of(deltas[k].0) == key {
            deltas_for(deltas.take(k), key).push((index_in_chunk(deltas[k].0) as usize, deltas[k].1))
        } else {
            deltas_for(deltas.take(k), key)
        },
{
    assert(deltas.take(k + 1).drop_last() =~= deltas.take(k));
}

proof fn lemma_deltas_for_absent(deltas: Seq<(IVec3, BlockState)>, key: IVec3)
    requires
        forall|k: int| 0 <= k < deltas.len() ==> chunk_of(#[trigger] deltas[k].0) != key,
    ensures
        deltas_for(deltas, key) == Seq::<(usize, BlockState)>::empty(),
    decreases deltas.len(),
{
    if deltas.len() > 0 {
        let d0 = deltas.drop_last();
        assert forall|k: int| 0 <= k < d0.len() implies chunk_of(#[trigger] d0[k].0) != key by {
            assert(d0[k] == deltas[k]);
        }
        lemma_deltas_for_absent(d0, key);
        assert(chunk_of(deltas[deltas.len() - 1].0) != key);
    }
}

/// The position of the group for chunk `key`, if any.
fn group_position(groups: &Vec<(IVec3, Vec<(usize, BlockState)>)>, key: IVec3) -> (r: Option<usize>)
    ensures
        match r {
            Some(p) => p < groups@.len() && groups@[p as int].0 == key,
            None => forall|q: int| 0 <= q < groups@.len() ==> (#[trigger] groups@[q]).0 != key,
        },
{
    let mut p: usize = 0;
    while p < groups.len()
        invariant
            p <= groups@.len(),
            forall|q: int| 0 <= q < p ==> (#[trigger] groups@[q]).0 != key,
        decreases groups@.len() - p,
    {
        if groups[p].0 == key {
            return Some(p);
        }
        p = p + 1;
    }
    None
}

/// Groups world-coordinate writes by chunk: one group per chunk that some write lands in,
/// each holding that chunk's writes as `(index, state)` pairs
/// in the order they were given.
#[verifier::spinoff_prover]
pub fn group_deltas_by_chunk(global_deltas: &[(IVec3, BlockState)]) -> (r: Vec<(IVec3, Vec<(usize, BlockState)>)>)
    ensures
        forall|g: int, h: int| 0 <= g < h < r@.len() ==> (#[trigger] r@[g]).0 != (#[trigger] r@[h]).0,
        forall|g: int| 0 <= g < r@.len() ==> (#[trigger] r@[g]).1@ == deltas_for(global_deltas@, r@[g].0),
        forall|g: int| 0 <= g < r@.len() ==> (#[trigger] r@[g]).1@.len() > 0,
        forall|k: int|
            0 <= k < global_deltas@.len() ==> exists|g: int|
                0 <= g < r@.len() && (#[trigger] r@[g]).0 == chunk_of(#[trigger] global_deltas@[k].0),
{
    let mut r: Vec<(IVec3, Vec<(usize, BlockState)>)> = Vec::new();
    let ghost d = global_deltas@;
    let mut k: usize = 0;
    assert(d.take(0) =~= Seq::<(IVec3, BlockState)>::empty());
    while k < global_deltas.len()
        invariant
            k <= d.len(),
            d == global_deltas@,
            forall|g: int, h: int| 0 <= g < h < r@.len() ==> (#[trigger] r@[g]).0 != (#[trigger] r@[h]).0,
            forall|g: int| 0 <= g < r@.len() ==> (#[trigger] r@[g]).1@ == deltas_for(d.take(k as int), r@[g].0),
            forall|g: int| 0 <= g < r@.len() ==> (#[trigger] r@[g]).1@.len() > 0,
            forall|j: int|
                0 <= j < k ==> exists|g: int| 0 <= g < r@.len() && (#[trigger] r@[g]).0 == chunk_of(#[trigger] global_deltas@[j].0),
        decreases d.len() - k,
    {
        let (global, state) = global_deltas[k];
        let (chunk_coord, local_coord) = global_to_local(global);
        let index = local_to_index(local_coord);
        assert(chunk_coord == chunk_of(global));
        assert(index as int == index_in_chunk(global));
        let ghost old_r = r@;
        let ghost mut pos: int = 0;
        proof {
            assert forall|g: int| 0 <= g < old_r.len() implies #[trigger] deltas_for(d.take(k + 1), old_r[g].0)
                == if old_r[g].0 == chunk_coord {
                deltas_for(d.take(k as int), old_r[g].0).push((index, state))
            } else {
                deltas_for(d.take(k as int), old_r[g].0)
            } by {
                lemma_deltas_for_step(d, k as int, old_r[g].0);
            }
        }
        match group_position(&r, chunk_coord) {
            Some(p) => {
                let mut entry = r.remove(p);
                entry.1.push((index, state));
                r.insert(p, entry);
                proof {
                    pos = p as int;
                    assert forall|g: int| 0 <= g < r@.len() implies (#[trigger] r@[g]).0 == old_r[g].0
                        && (g != p ==> r@[g] == old_r[g]) by {}
                }
            },
            None => {
                let mut fresh: Vec<(usize, BlockState)> = Vec::new();
                fresh.push((index, state));
                r.push((chunk_coord, fresh));
                proof {
                    pos = old_r.len() as int;
                    assert forall|j: int| 0 <= j < k implies chunk_of(#[trigger] d.take(k as int)[j].0) != chunk_coord by {
                        assert(d.take(k as int)[j] == d[j]);
                        let g = choose|g: int| 0 <= g < old_r.len() && (#[trigger] old_r[g]).0 == chunk_of(#[trigger] global_deltas@[j].0);
                    }
                    lemma_deltas_for_absent(d.take(k as int), chunk_coord);
                    lemma_deltas_for_step(d, k as int, chunk_coord);
                    assert(r@[old_r.len() as int].1@ =~= deltas_for(d.take(k + 1), chunk_coord));
                }
            },
        }
        proof {
            assert(0 <= pos < r@.len() && r@[pos].0 == chunk_coord);
            assert forall|j: int| 0 <= j < k + 1 implies exists|g: int| 0 <= g < r@.len() && (#[trigger] r@[g]).0
                == chunk_of(#[trigger] global_deltas@[j].0) by {
                if j == k {
                    assert(r@[pos].0 == chunk_of(global_deltas@[j].0));
                } else {
                    let g = choose|g: int| 0 <= g < old_r.len() && (#[trigger] old_r[g]).0 == chunk_of(#[trigger] global_deltas@[j].0);
                    assert(r@[g].0 == old_r[g].0);
                }
            }
        }
        k = k + 1;
    }
    assert(d.take(d.len() as int) =~= d);
    r
}

} // verus!

verus! {

/// The blocks of a world after writing each `(position, state)` of `deltas` in order.
pub open spec fn world_after(world: spec_fn(IVec3) -> BlockState, deltas: Seq<(IVec3, BlockState)>) -> spec_fn(
    IVec3,
) -> BlockState
    decreases deltas.len(),
{
    if deltas.len() == 0 {
        world
    } else {
        let w = world_after(world, deltas.drop_last());
        let last = deltas.last();
        |g: IVec3| if g == last.0 {
            last.1
        } else {
            w(g)
        }
    }
}

/// The world position of block `i` of the chunk with origin `key`.
pub open spec fn block_position(key: IVec3, i: int) -> IVec3 {
    IVec3 { x: (key.x + i % 32) as i32, y: (key.y + (i / 32) % 32) as i32, z: (key.z + i / 1024) as i32 }
}

/// The blocks of the chunk with origin `key`, in index order.
pub open spec fn chunk_blocks(world: spec_fn(IVec3) -> BlockState, key: IVec3) -> Seq<BlockState> {
    Seq::new(32768, |i: int| world(block_position(key, i)))
}

/// Whether `key` is a chunk origin: every coordinate a multiple of 32.
pub open spec fn is_chunk_origin(key: IVec3) -> bool {
    key.x % 32 == 0 && key.y % 32 == 0 && key.z % 32 == 0
}

proof fn lemma_origin_room(v: i32)
    requires
        v % 32 == 0,
    ensures
        v + 31 <= i32::MAX,
        v == (v / 32) * 32,
{
    vstd::arithmetic::div_mod::lemma_fundamental_div_mod(v as int, 32);
}

/// Adding `r` in `0..32` to a multiple of 32 keeps its quotient and gives remainder `r`.
proof fn lemma_within_chunk(base: int, r: int)
    requires
        base % 32 == 0,
        0 <= r < 32,
    ensures
        (base + r) / 32 == base / 32,
        (base + r) % 32 == r,
{
    vstd::arithmetic::div_mod::lemma_fundamental_div_mod(base, 32);
    vstd::arithmetic::div_mod::lemma_fundamental_div_mod_converse(base + r, 32, base / 32, r);
}

/// A flat index in `0..32768` is made of its three base-32 digits.
proof fn lemma_index_parts(i: int)
    requires
        0 <= i < 32768,
    ensures
        0 <= i % 32 < 32,
        0 <= (i / 32) % 32 < 32,
        0 <= i / 1024 < 32,
        i == i % 32 + ((i / 32) % 32) * 32 + (i / 1024) * 1024,
{
    vstd::arithmetic::div_mod::lemma_fundamental_div_mod(i, 32);
    vstd::arithmetic::div_mod::lemma_fundamental_div_mod(i / 32, 32);
    vstd::arithmetic::div_mod::lemma_mod_bound(i, 32);
    vstd::arithmetic::div_mod::lemma_mod_bound(i / 32, 32);
    vstd::arithmetic::div_mod::lemma_div_denominator(i, 32, 32);
    vstd::arithmetic::div_mod::lemma_fundamental_div_mod(i, 1024);
    vstd::arithmetic::div_mod::lemma_mod_bound(i, 1024);
}

proof fn lemma_index_range(g: IVec3)
    ensures
        0 <= index_in_chunk(g) < 32768,
{
    vstd::arithmetic::div_mod::lemma_mod_bound(g.x as int, 32);
    vstd::arithmetic::div_mod::lemma_mod_bound(g.y as int, 32);
    vstd::arithmetic::div_mod::lemma_mod_bound(g.z as int, 32);
}

proof fn lemma_position_of_index(key: IVec3, g: IVec3)
    requires
        is_chunk_origin(key),
        chunk_of(g) == key,
    ensures
        block_position(key, index_in_chunk(g)) == g,
{
    let lx = (g.x % 32) as int;
    let ly = (g.y % 32) as int;
    let lz = (g.z % 32) as int;
    let i = index_in_chunk(g);
    vstd::arithmetic::div_mod::lemma_fundamental_div_mod(g.x as int, 32);
    vstd::arithmetic::div_mod::lemma_fundamental_div_mod(g.y as int, 32);
    vstd::arithmetic::div_mod::lemma_fundamental_div_mod(g.z as int, 32);
    lemma_index_range(g);
    lemma_index_parts(i);
    assert(i == lx + ly * 32 + lz * 1024);
    vstd::arithmetic::div_mod::lemma_fundamental_div_mod_converse(i, 32, ly + lz * 32, lx);
    vstd::arithmetic::div_mod::lemma_fundamental_div_mod_converse(ly + lz * 32, 32, lz, ly);
    vstd::arithmetic::div_mod::lemma_div_denominator(i, 32, 32);
}

proof fn lemma_chunk_of_position(key: IVec3, i: int)
    requires
        is_chunk_origin(key),
        0 <= i < 32768,
    ensures
        chunk_of(block_position(key, i)) == key,
{
    lemma_origin_room(key.x);
    lemma_origin_room(key.y);
    lemma_origin_room(key.z);
    lemma_index_parts(i);
    lemma_within_chunk(key.x as int, i % 32);
    lemma_within_chunk(key.y as int, (i / 32) % 32);
    lemma_within_chunk(key.z as int, i / 1024);
}

proof fn lemma_position_injective(key: IVec3, g: IVec3, i: int)
    requires
        is_chunk_origin(key),
        0 <= i < 32768,
        block_position(key, i) == g,
    ensures
        i == index_in_chunk(g),
{
    lemma_origin_room(key.x);
    lemma_origin_room(key.y);
    lemma_origin_room(key.z);
    lemma_index_parts(i);
    lemma_within_chunk(key.x as int, i % 32);
    lemma_within_chunk(key.y as int, (i / 32) % 32);
    lemma_within_chunk(key.z as int, i / 1024);
}

/// Writing a batch into the world chunk by chunk is writing it block by block: the writes
/// that land in a chunk, applied in order to that chunk, leave it holding exactly what the
/// whole batch leaves in the world there.
pub proof fn law_grouped_batch_matches_world(
    world: spec_fn(IVec3) -> BlockState,
    deltas: Seq<(IVec3, BlockState)>,
    key: IVec3,
)
    requires
        is_chunk_origin(key),
    ensures
        apply_deltas(chunk_blocks(world, key), deltas_for(deltas, key)) == chunk_blocks(
            world_after(world, deltas),
            key,
        ),
    decreases deltas.len(),
{
    if deltas.len() == 0 {
    } else {
        let d0 = deltas.drop_last();
        law_grouped_batch_matches_world(world, d0, key);
        let (g, s) = deltas.last();
        lemma_index_range(g);
        let before = chunk_blocks(world_after(world, d0), key);
        let after = chunk_blocks(world_after(world, deltas), key);
        if chunk_of(g) == key {
            assert(deltas_for(deltas, key) == deltas_for(d0, key).push((index_in_chunk(g) as usize, s)));
            assert(deltas_for(deltas, key).drop_last() =~= deltas_for(d0, key));
            assert(after =~= before.update(index_in_chunk(g), s)) by {
                assert forall|i: int| 0 <= i < 32768 implies #[trigger] after[i] == before.update(index_in_chunk(g), s)[i] by {
                    if i == index_in_chunk(g) {
                        lemma_position_of_index(key, g);
                    } else if block_position(key, i) == g {
                        lemma_position_injective(key, g, i);
                    }
                }
            }
        } else {
            assert(after =~= before) by {
                assert forall|i: int| 0 <= i < 32768 implies #[trigger] after[i] == before[i] by {
                    lemma_chunk_of_position(key, i);
                }
            }
        }
    }
}

} // verus!

verus! {

/// The height of block `i` of a chunk: its `y` coordinate, `i` being `x + 32 y + 1024 z`.
pub open spec fn index_height(i: int) -> int {
    (i / 32) % 32
}

/// Writes that fill the bottom `height` layers of a chunk with `state`: one write for each
/// block whose height is below `height`, in increasing block order.
pub fn ground_layer_deltas(state: BlockState, height: usize) -> (r: Vec<(usize, BlockState)>)
    ensures
        forall|k: int|
            0 <= k < r@.len() ==> {
                &&& (#[trigger] r@[k]).1 == state
                &&& r@[k].0 < 32768
                &&& index_height(r@[k].0 as int) < height
            },
        forall|a: int, b: int| 0 <= a < b < r@.len() ==> (#[trigger] r@[a]).0 < (#[trigger] r@[b]).0,
        forall|i: int|
            0 <= i < 32768 && index_height(i) < height ==> exists|k: int|
                0 <= k < r@.len() && (#[trigger] r@[k]).0 == i,
{
    let mut r: Vec<(usize, BlockState)> = Vec::new();
    let mut i: usize = 0;
    while i < 32768
        invariant
            i <= 32768,
            forall|k: int|
                0 <= k < r@.len() ==> {
                    &&& (#[trigger] r@[k]).1 == state
                    &&& r@[k].0 < i
                    &&& index_height(r@[k].0 as int) < height
                },
            forall|a: int, b: int|
                0 <= a < b < r@.len() ==> (#[trigger] r@[a]).0 < (#[trigger] r@[b]).0,
            forall|j: int|
                0 <= j < i && index_height(j) < height ==> exists|k: int|
                    0 <= k < r@.len() && (#[trigger] r@[k]).0 == j,
        decreases 32768 - i,
    {
        let ghost before = r@;
        if (i / 32) % 32 < height {
            r.push((i, state));
            assert forall|j: int|
                0 <= j < i + 1 && index_height(j) < height implies exists|k: int|
                    0 <= k < r@.len() && (#[trigger] r@[k]).0 == j by {
                if j == i {
                    assert(r@[r@.len() - 1].0 == j);
                } else {
                    let k = choose|k: int| 0 <= k < before.len() && (#[trigger] before[k]).0 == j;
                    assert(r@[k] == before[k]);
                }
            }
        }
        i = i + 1;
    }
    r
}

} // verus!

verus! {

/// The height of a block is its y coordinate: block `(x, y, z)` of a chunk, numbered
/// `x + 32 y + 1024 z`, has height `y`. So the writes of `ground_layer_deltas(state, h)` are
/// exactly the blocks with `y < h`.
pub proof fn law_height_is_the_y_coordinate(x: int, y: int, z: int)
    requires
        0 <= x < 32,
        0 <= y < 32,
        0 <= z < 32,
    ensures
        index_height(x + 32 * y + 1024 * z) == y,
{
    assert((x + 32 * y + 1024 * z) / 32 == y + 32 * z) by (nonlinear_arith)
        requires
            0 <= x < 32,
            0 <= y < 32,
            0 <= z < 32,
    ;
    assert((y + 32 * z) % 32 == y) by (nonlinear_arith)
        requires
            0 <= y < 32,
            0 <= z,
    ;
}

} // verus!

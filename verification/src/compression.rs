use vstd::prelude::*;

use crate::block::BlockState;
use crate::chunk::{
    distinct_states, nibble_at, read_paletted4, tier_for_palette, write_paletted4_unchecked, ChunkData,
};

verus! {

/// Whether some block `i` in `0..32768` has palette index `p` under `idx`.
pub open spec fn index_used(idx: spec_fn(int) -> int, p: int) -> bool {
    exists|i: int| 0 <= i < 32768 && #[trigger] idx(i) == p
}

/// How many of the palette indices `0..n` some block uses under `idx`.
pub open spec fn count_used(idx: spec_fn(int) -> int, n: int) -> nat
    decreases n,
{
    if n <= 0 {
        0
    } else {
        count_used(idx, n - 1) + if index_used(idx, n - 1) {
            1nat
        } else {
            0nat
        }
    }
}

/// The entries among the first `n` of `palette` whose index some block uses under `idx`,
/// in palette order.
pub open spec fn used_entries(palette: Seq<BlockState>, idx: spec_fn(int) -> int, n: int) -> Seq<
    BlockState,
>
    decreases n,
{
    if n <= 0 {
        Seq::empty()
    } else {
        used_entries(palette, idx, n - 1) + if index_used(idx, n - 1) {
            seq![palette[n - 1]]
        } else {
            Seq::empty()
        }
    }
}

/// Some used entry among the first `n` is mapped to new position `q`.
spec fn position_reached(mapping: Seq<usize>, idx: spec_fn(int) -> int, n: int, q: int) -> bool {
    exists|p: int| 0 <= p < n && index_used(idx, p) && #[trigger] mapping[p] == q
}

/// `s` is one of the first `n` entries of `palette`.
spec fn among_first(palette: Seq<BlockState>, n: int, s: BlockState) -> bool {
    exists|k: int| 0 <= k < n && #[trigger] palette[k] == s
}

/// The used entries of a palette without repeats have no repeats, and each is an entry of
/// the palette's first `n`.
proof fn lemma_used_entries_distinct(palette: Seq<BlockState>, idx: spec_fn(int) -> int, n: int)
    requires
        distinct_states(palette),
        n <= palette.len(),
    ensures
        distinct_states(used_entries(palette, idx, n)),
        forall|q: int|
            0 <= q < used_entries(palette, idx, n).len() ==> among_first(
                palette,
                n,
                #[trigger] used_entries(palette, idx, n)[q],
            ),
    decreases n,
{
    if n > 0 {
        lemma_used_entries_distinct(palette, idx, n - 1);
        let m = used_entries(palette, idx, n - 1);
        let u = used_entries(palette, idx, n);
        if index_used(idx, n - 1) {
            assert(u =~= m.push(palette[n - 1]));
            assert forall|a: int, b: int| 0 <= a < b < u.len() implies u[a] != u[b] by {
                assert(u[a] == m[a]);
                assert(among_first(palette, n - 1, m[a]));
                if b == m.len() {
                    let k = choose|k: int| 0 <= k < n - 1 && #[trigger] palette[k] == m[a];
                    assert(palette[k] != palette[n - 1]);
                } else {
                    assert(u[b] == m[b]);
                }
            }
            assert forall|q: int| 0 <= q < u.len() implies among_first(palette, n, #[trigger] u[q]) by {
                if q < m.len() {
                    assert(u[q] == m[q]);
                    assert(among_first(palette, n - 1, m[q]));
                    let k = choose|k: int| 0 <= k < n - 1 && #[trigger] palette[k] == m[q];
                    assert(palette[k] == u[q]);
                } else {
                    assert(palette[n - 1] == u[q]);
                }
            }
        } else {
            assert(u =~= m);
            assert forall|q: int| 0 <= q < u.len() implies among_first(palette, n, #[trigger] u[q]) by {
                assert(among_first(palette, n - 1, m[q]));
                let k = choose|k: int| 0 <= k < n - 1 && #[trigger] palette[k] == m[q];
                assert(palette[k] == u[q]);
            }
        }
    }
}

proof fn lemma_used_entries_len(palette: Seq<BlockState>, idx: spec_fn(int) -> int, n: int)
    ensures
        used_entries(palette, idx, n).len() == count_used(idx, n),
    decreases n,
{
    if n > 0 {
        lemma_used_entries_len(palette, idx, n - 1);
    }
}

impl ChunkData {
    /// The palette index that block `i` stores (0 for a homogenous chunk).
    pub open spec fn palette_index(self, i: int) -> int {
        match self {
            ChunkData::Homogenous(_) => 0,
            ChunkData::Paletted4 { indices, .. } => nibble_at(indices@, i) as int,
            ChunkData::Paletted8 { indices, .. } => indices@[i] as int,
            ChunkData::Paletted16 { indices, .. } => indices@[i] as int,
        }
    }

    /// The number of palette entries (counted by index) that some block uses.
    pub open spec fn used_count(self) -> nat {
        match self {
            ChunkData::Homogenous(_) => 1,
            ChunkData::Paletted4 { palette, .. } => count_used(
                |i: int| self.palette_index(i),
                palette@.len() as int,
            ),
            ChunkData::Paletted8 { palette, .. } => count_used(
                |i: int| self.palette_index(i),
                palette@.len() as int,
            ),
            ChunkData::Paletted16 { palette, .. } => count_used(
                |i: int| self.palette_index(i),
                palette@.len() as int,
            ),
        }
    }

    /// The chunk is in the tier its number of used palette entries calls for.
    pub open spec fn settled(self) -> bool {
        self.tier() == tier_for_palette(self.used_count() as int)
    }

    /// The palette entries that some block uses, in palette order: the palette a compacted
    /// chunk gets.
    pub open spec fn used_palette(self) -> Seq<BlockState> {
        used_entries(
            self.base_palette(),
            |i: int| self.palette_index(i),
            self.base_palette().len() as int,
        )
    }
}

proof fn lemma_count_used_le(idx: spec_fn(int) -> int, n: int)
    ensures
        count_used(idx, n) <= if n < 0 {
            0
        } else {
            n
        },
    decreases n,
{
    if n > 0 {
        lemma_count_used_le(idx, n - 1);
    }
}

/// Counts the palette entries that some block uses, and builds the compacted palette (the
/// used entries, in palette order) together with the map from old to new positions.
#[verifier::spinoff_prover]
fn analyze_usage<F: Fn(usize) -> usize>(
    palette: &[BlockState],
    get_idx: F,
    Ghost(idx): Ghost<spec_fn(int) -> int>,
) -> (r: (usize, Vec<BlockState>, Vec<usize>))
    requires
        forall|i: usize| i < 32768 ==> #[trigger] get_idx.requires((i,)),
        forall|i: usize, v: usize| i < 32768 && #[trigger] get_idx.ensures((i,), v) ==> v == idx(i as int),
        forall|i: int| 0 <= i < 32768 ==> 0 <= #[trigger] idx(i) < palette@.len(),
    ensures
        r.0 == r.1@.len(),
        r.0 == count_used(idx, palette@.len() as int),
        r.1@ == used_entries(palette@, idx, palette@.len() as int),
        r.2@.len() == palette@.len(),
        forall|p: int|
            0 <= p < palette@.len() && index_used(idx, p) ==> (#[trigger] r.2@[p] as int) < r.0
                && r.1@[r.2@[p] as int] == palette@[p],
        forall|q: int| 0 <= q < r.0 ==> #[trigger] position_reached(r.2@, idx, palette@.len() as int, q),
{
    let mut used: Vec<bool> = Vec::with_capacity(palette.len());
    let mut k: usize = 0;
    while k < palette.len()
        invariant
            k <= palette@.len(),
            used@.len() == k,
            forall|p: int| 0 <= p < k ==> !#[trigger] used@[p],
        decreases palette@.len() - k,
    {
        used.push(false);
        k = k + 1;
    }
    let mut i: usize = 0;
    while i < 32768
        invariant
            i <= 32768,
            used@.len() == palette@.len(),
            forall|j: usize| j < 32768 ==> #[trigger] get_idx.requires((j,)),
            forall|j: usize, v: usize| j < 32768 && #[trigger] get_idx.ensures((j,), v) ==> v == idx(j as int),
            forall|j: int| 0 <= j < 32768 ==> 0 <= #[trigger] idx(j) < palette@.len(),
            forall|p: int|
                0 <= p < palette@.len() ==> (#[trigger] used@[p] <==> exists|j: int|
                    0 <= j < i && #[trigger] idx(j) == p),
        decreases 32768 - i,
    {
        let p = get_idx(i);
        assert(p == idx(i as int));
        used.set(p, true);
        proof {
            assert forall|q: int| 0 <= q < palette@.len() implies (#[trigger] used@[q] <==> exists|j: int|
                0 <= j < i + 1 && #[trigger] idx(j) == q) by {
                if q == p {
                    assert(idx(i as int) == q);
                }
                if exists|j: int| 0 <= j < i + 1 && #[trigger] idx(j) == q {
                    let j = choose|j: int| 0 <= j < i + 1 && #[trigger] idx(j) == q;
                    if j != i {
                        assert(exists|j: int| 0 <= j < i && #[trigger] idx(j) == q);
                    }
                }
            }
        }
        i = i + 1;
    }
    assert forall|p: int| 0 <= p < palette@.len() implies (#[trigger] used@[p] <==> index_used(idx, p)) by {}

    let mut new_palette: Vec<BlockState> = Vec::with_capacity(16);
    let mut mapping: Vec<usize> = Vec::with_capacity(palette.len());
    let mut k: usize = 0;
    while k < palette.len()
        invariant
            k <= palette@.len(),
            mapping@.len() == k,
            forall|p: int| 0 <= p < k ==> #[trigger] mapping@[p] == 0,
        decreases palette@.len() - k,
    {
        mapping.push(0);
        k = k + 1;
    }
    let mut old_idx: usize = 0;
    while old_idx < palette.len()
        invariant
            old_idx <= palette@.len(),
            used@.len() == palette@.len(),
            mapping@.len() == palette@.len(),
            forall|p: int| 0 <= p < palette@.len() ==> (#[trigger] used@[p] <==> index_used(idx, p)),
            new_palette@ == used_entries(palette@, idx, old_idx as int),
            forall|p: int|
                0 <= p < old_idx && index_used(idx, p) ==> (#[trigger] mapping@[p] as int)
                    < new_palette@.len() && new_palette@[mapping@[p] as int] == palette@[p],
            forall|q: int|
                0 <= q < new_palette@.len() ==> #[trigger] position_reached(mapping@, idx, old_idx as int, q),
        decreases palette@.len() - old_idx,
    {
        proof {
            lemma_used_entries_len(palette@, idx, old_idx as int);
        }
        let ghost mapping_pre = mapping@;
        let ghost len_pre = new_palette@.len();
        if used[old_idx] {
            mapping.set(old_idx, new_palette.len());
            new_palette.push(palette[old_idx]);
        }
        assert(new_palette@ =~= used_entries(palette@, idx, old_idx + 1));
        assert forall|q: int| 0 <= q < new_palette@.len() implies #[trigger] position_reached(
            mapping@,
            idx,
            old_idx + 1,
            q,
        ) by {
            if q < len_pre {
                assert(position_reached(mapping_pre, idx, old_idx as int, q));
                let p = choose|p: int| 0 <= p < old_idx && index_used(idx, p) && #[trigger] mapping_pre[p] == q;
                assert(mapping@[p] == mapping_pre[p]);
            } else {
                assert(mapping@[old_idx as int] == q);
            }
        }
        old_idx = old_idx + 1;
    }
    proof {
        lemma_used_entries_len(palette@, idx, palette@.len() as int);
    }
    (new_palette.len(), new_palette, mapping)
}

} // verus!

verus! {

proof fn lemma_count_all_used(idx: spec_fn(int) -> int, n: int)
    requires
        forall|p: int| 0 <= p < n ==> index_used(idx, p),
    ensures
        count_used(idx, n) == if n < 0 {
            0
        } else {
            n
        },
    decreases n,
{
    if n > 0 {
        lemma_count_all_used(idx, n - 1);
        assert(index_used(idx, n - 1));
    }
}

/// A chunk rebuilt through a position map that reaches every new palette position from a
/// used old entry uses each of its `n2` palette entries.
proof fn lemma_remapped_all_used(idx: spec_fn(int) -> int, out: ChunkData, mapping: Seq<usize>, n2: int)
    requires
        0 <= n2,
        forall|i: int| 0 <= i < 32768 ==> 0 <= #[trigger] idx(i) < mapping.len(),
        forall|i: int| 0 <= i < 32768 ==> #[trigger] out.palette_index(i) == mapping[idx(i)] as int,
        forall|q: int| 0 <= q < n2 ==> #[trigger] position_reached(mapping, idx, mapping.len() as int, q),
    ensures
        count_used(|i: int| out.palette_index(i), n2) == n2,
{
    let idx2 = |i: int| out.palette_index(i);
    assert forall|q: int| 0 <= q < n2 implies index_used(idx2, q) by {
        assert(position_reached(mapping, idx, mapping.len() as int, q));
        let p = choose|p: int| 0 <= p < mapping.len() && index_used(idx, p) && #[trigger] mapping[p] == q;
        let i = choose|i: int| 0 <= i < 32768 && #[trigger] idx(i) == p;
        assert(idx2(i) == q);
    }
    lemma_count_all_used(idx2, n2);
}

proof fn lemma_count_used_positive(idx: spec_fn(int) -> int, n: int)
    requires
        0 <= idx(0) < n,
    ensures
        count_used(idx, n) >= 1,
    decreases n,
{
    if n - 1 == idx(0) {
        assert(index_used(idx, idx(0)));
    } else {
        lemma_count_used_positive(idx, n - 1);
    }
}

/// Facts shared by every branch of a compression: each block's new palette position holds
/// the block's state, and a compacted palette of at most one entry means a uniform chunk.
proof fn lemma_compacted(
    d: ChunkData,
    palette: Seq<BlockState>,
    r: (usize, Vec<BlockState>, Vec<usize>),
)
    requires
        d.wf(),
        !(d is Homogenous),
        palette == d.base_palette(),
        forall|i: int| 0 <= i < 32768 ==> 0 <= #[trigger] d.palette_index(i) < palette.len(),
        forall|i: int| 0 <= i < 32768 ==> #[trigger] d.block_at(i) == palette[d.palette_index(i)],
        r.0 == r.1@.len(),
        r.0 == count_used(|i: int| d.palette_index(i), palette.len() as int),
        r.2@.len() == palette.len(),
        forall|p: int|
            0 <= p < palette.len() && index_used(|i: int| d.palette_index(i), p) ==> (
            #[trigger] r.2@[p] as int) < r.0 && r.1@[r.2@[p] as int] == palette[p],
    ensures
        r.0 >= 1,
        forall|i: int|
            0 <= i < 32768 ==> (#[trigger] r.2@[d.palette_index(i)] as int) < r.0
                && r.1@[r.2@[d.palette_index(i)] as int] == d.block_at(i),
        r.0 <= 1 ==> forall|i: int| 0 <= i < 32768 ==> #[trigger] d.block_at(i) == r.1@[0],
        r.0 <= 1 ==> r.1@[0] == d.block_at(0),
{
    let idx = |i: int| d.palette_index(i);
    lemma_count_used_positive(idx, palette.len() as int);
    assert forall|i: int| 0 <= i < 32768 implies (#[trigger] r.2@[d.palette_index(i)] as int) < r.0
        && r.1@[r.2@[d.palette_index(i)] as int] == d.block_at(i) by {
        assert(idx(i) == d.palette_index(i));
        assert(index_used(idx, d.palette_index(i)));
    }
    if r.0 <= 1 {
        assert forall|i: int| 0 <= i < 32768 implies #[trigger] d.block_at(i) == r.1@[0] by {
            assert((r.2@[d.palette_index(i)] as int) < r.0);
        }
    }
}

/// Tries to move a chunk to a smaller memory tier: it counts the palette entries that some
/// block still uses and, when they fit a smaller tier, rebuilds the chunk there with the
/// compacted palette. The block states never change, and the chunk that results (or the
/// input, when nothing is returned) is in the tier its number of used entries calls for:
/// one entry homogenous, up to 16 four-bit, up to 256 eight-bit, more sixteen-bit. So
/// nothing is returned exactly for a settled chunk, and a returned chunk is settled: a
/// second attempt on it returns nothing.
#[verifier::spinoff_prover]
pub fn attempt_compression(data: ChunkData) -> (r: Option<ChunkData>)
    requires
        data.wf(),
    ensures
        match r {
            Some(d) => d.wf() && d.contents() == data.contents(),
            None => true,
        },
        data is Homogenous ==> r is None,
        !(data is Homogenous) && data.used_count() <= 1 ==> r == Some(
            ChunkData::Homogenous(data.block_at(0)),
        ),
        data is Paletted4 && data.used_count() > 1 ==> r is None,
        data is Paletted8 && 1 < data.used_count() <= 16 ==> (r matches Some(ChunkData::Paletted4 { palette, .. }) && palette@ == data.used_palette() && palette@.len() == data.used_count()),
        data is Paletted8 && data.used_count() > 16 ==> r is None,
        data is Paletted16 && 1 < data.used_count() <= 16 ==> (r matches Some(ChunkData::Paletted4 { palette, .. }) && palette@ == data.used_palette() && palette@.len() == data.used_count()),
        data is Paletted16 && 16 < data.used_count() <= 256 ==> (r matches Some(ChunkData::Paletted8 { palette, .. }) && palette@ == data.used_palette() && palette@.len() == data.used_count()),
        data is Paletted16 && data.used_count() > 256 ==> r is None,
        (match r {
            Some(d) => d,
            None => data,
        }).tier() == tier_for_palette(data.used_count() as int),
        r is None <==> data.settled(),
        r matches Some(d) ==> d.used_count() == data.used_count() && d.settled(),
        r matches Some(d) ==> d.tier_sized() && (data.palette_distinct() ==> d.palette_distinct()),
{
    let ghost d = data;
    let ghost idx = |i: int| d.palette_index(i);
    proof {
        lemma_count_used_le(idx, d.base_palette().len() as int);
        if d.palette_distinct() {
            lemma_used_entries_distinct(d.base_palette(), idx, d.base_palette().len() as int);
        }
    }
    match data {
        ChunkData::Homogenous(_) => None,
        ChunkData::Paletted4 { palette, indices } => {
            let get_idx = |i: usize| -> (v: usize)
                requires
                    i < 32768,
                    indices@.len() == 16384,
                ensures
                    v == nibble_at(indices@, i as int),
                { read_paletted4(indices.as_slice(), i) };
            let r = analyze_usage(palette.as_slice(), get_idx, Ghost(idx));
            proof {
                lemma_compacted(d, palette@, r);
            }
            let (used_count, new_palette, _) = r;
            if used_count <= 1 {
                let state = if new_palette.len() > 0 {
                    new_palette[0]
                } else {
                    BlockState(0)
                };
                let out = ChunkData::Homogenous(state);
                proof {
                    assert(out.contents() =~= d.contents());
                    assert(out.used_count() == 1);
                }
                Some(out)
            } else {
                None
            }
        },
        ChunkData::Paletted8 { palette, indices } => {
            let get_idx = |i: usize| -> (v: usize)
                requires
                    i < 32768,
                    indices@.len() == 32768,
                ensures
                    v == indices@[i as int] as usize,
                { indices[i] as usize };
            let r = analyze_usage(palette.as_slice(), get_idx, Ghost(idx));
            proof {
                lemma_compacted(d, palette@, r);
            }
            let (used_count, new_palette, mapping) = r;
            if used_count <= 1 {
                let state = if new_palette.len() > 0 {
                    new_palette[0]
                } else {
                    BlockState(0)
                };
                let out = ChunkData::Homogenous(state);
                proof {
                    assert(out.contents() =~= d.contents());
                    assert(out.used_count() == 1);
                }
                Some(out)
            } else if used_count <= 16 {
                let mut new_indices: Vec<u8> = Vec::with_capacity(16384);
                let mut k: usize = 0;
                while k < 16384
                    invariant
                        k <= 16384,
                        new_indices@.len() == k,
                    decreases 16384 - k,
                {
                    new_indices.push(0u8);
                    k = k + 1;
                }
                let mut i: usize = 0;
                while i < 32768
                    invariant
                        i <= 32768,
                        new_indices@.len() == 16384,
                        indices@.len() == 32768,
                        mapping@.len() == palette@.len(),
                        used_count <= 16,
                        forall|j: int| 0 <= j < 32768 ==> (#[trigger] indices@[j] as int) < palette@.len(),
                        forall|j: int|
                            0 <= j < 32768 ==> (#[trigger] mapping@[d.palette_index(j)] as int) < used_count,
                        forall|j: int| 0 <= j < 32768 ==> #[trigger] d.palette_index(j) == indices@[j] as int,
                        forall|j: int|
                            0 <= j < i ==> #[trigger] nibble_at(new_indices@, j) as int
                                == mapping@[indices@[j] as int] as int,
                    decreases 32768 - i,
                {
                    let old_p_idx = indices[i] as usize;
                    assert(d.palette_index(i as int) == old_p_idx);
                    let new_p_idx = mapping[old_p_idx] as u8;
                    let ghost prev = new_indices@;
                    write_paletted4_unchecked(new_indices.as_mut_slice(), i, new_p_idx);
                    proof {
                        assert forall|j: int| 0 <= j < i + 1 implies #[trigger] nibble_at(new_indices@, j) as int
                            == mapping@[indices@[j] as int] as int by {
                            assert(nibble_at(new_indices@, j) == if j == i {
                                new_p_idx
                            } else {
                                nibble_at(prev, j)
                            });
                        }
                    }
                    i = i + 1;
                }
                let out = ChunkData::Paletted4 { palette: new_palette, indices: new_indices };
                proof {
                    assert forall|j: int| 0 <= j < 32768 implies #[trigger] out.palette_index(j)
                        == mapping@[idx(j)] as int by {
                        assert(d.palette_index(j) == indices@[j] as int);
                    }
                    assert forall|j: int| 0 <= j < 32768 implies 0 <= #[trigger] idx(j) < mapping@.len() by {
                        assert(d.palette_index(j) == indices@[j] as int);
                    }
                    lemma_remapped_all_used(idx, out, mapping@, used_count as int);
                    assert forall|j: int| 0 <= j < 32768 implies (#[trigger] nibble_at(new_indices@, j) as int)
                        < new_palette@.len() by {
                        assert(d.palette_index(j) == indices@[j] as int);
                    }
                    assert forall|j: int| 0 <= j < 32768 implies #[trigger] out.block_at(j) == d.block_at(j) by {
                        assert(d.palette_index(j) == indices@[j] as int);
                    }
                    assert(out.contents() =~= d.contents());
                }
                Some(out)
            } else {
                None
            }
        },
        ChunkData::Paletted16 { palette, indices } => {
            let get_idx = |i: usize| -> (v: usize)
                requires
                    i < 32768,
                    indices@.len() == 32768,
                ensures
                    v == indices@[i as int] as usize,
                { indices[i] as usize };
            let r = analyze_usage(palette.as_slice(), get_idx, Ghost(idx));
            proof {
                lemma_compacted(d, palette@, r);
            }
            let (used_count, new_palette, mapping) = r;
            if used_count <= 1 {
                let state = if new_palette.len() > 0 {
                    new_palette[0]
                } else {
                    BlockState(0)
                };
                let out = ChunkData::Homogenous(state);
                proof {
                    assert(out.contents() =~= d.contents());
                    assert(out.used_count() == 1);
                }
                Some(out)
            } else if used_count <= 16 {
                let mut new_indices: Vec<u8> = Vec::with_capacity(16384);
                let mut k: usize = 0;
                while k < 16384
                    invariant
                        k <= 16384,
                        new_indices@.len() == k,
                    decreases 16384 - k,
                {
                    new_indices.push(0u8);
                    k = k + 1;
                }
                let mut i: usize = 0;
                while i < 32768
                    invariant
                        i <= 32768,
                        new_indices@.len() == 16384,
                        indices@.len() == 32768,
                        mapping@.len() == palette@.len(),
                        used_count <= 16,
                        forall|j: int| 0 <= j < 32768 ==> (#[trigger] indices@[j] as int) < palette@.len(),
                        forall|j: int|
                            0 <= j < 32768 ==> (#[trigger] mapping@[d.palette_index(j)] as int) < used_count,
                        forall|j: int| 0 <= j < 32768 ==> #[trigger] d.palette_index(j) == indices@[j] as int,
                        forall|j: int|
                            0 <= j < i ==> #[trigger] nibble_at(new_indices@, j) as int
                                == mapping@[indices@[j] as int] as int,
                    decreases 32768 - i,
                {
                    let old_p_idx = indices[i] as usize;
                    assert(d.palette_index(i as int) == old_p_idx);
                    let new_p_idx = mapping[old_p_idx] as u8;
                    let ghost prev = new_indices@;
                    write_paletted4_unchecked(new_indices.as_mut_slice(), i, new_p_idx);
                    proof {
                        assert forall|j: int| 0 <= j < i + 1 implies #[trigger] nibble_at(new_indices@, j) as int
                            == mapping@[indices@[j] as int] as int by {
                            assert(nibble_at(new_indices@, j) == if j == i {
                                new_p_idx
                            } else {
                                nibble_at(prev, j)
                            });
                        }
                    }
                    i = i + 1;
                }
                let out = ChunkData::Paletted4 { palette: new_palette, indices: new_indices };
                proof {
                    assert forall|j: int| 0 <= j < 32768 implies #[trigger] out.palette_index(j)
                        == mapping@[idx(j)] as int by {
                        assert(d.palette_index(j) == indices@[j] as int);
                    }
                    assert forall|j: int| 0 <= j < 32768 implies 0 <= #[trigger] idx(j) < mapping@.len() by {
                        assert(d.palette_index(j) == indices@[j] as int);
                    }
                    lemma_remapped_all_used(idx, out, mapping@, used_count as int);
                    assert forall|j: int| 0 <= j < 32768 implies (#[trigger] nibble_at(new_indices@, j) as int)
                        < new_palette@.len() by {
                        assert(d.palette_index(j) == indices@[j] as int);
                    }
                    assert forall|j: int| 0 <= j < 32768 implies #[trigger] out.block_at(j) == d.block_at(j) by {
                        assert(d.palette_index(j) == indices@[j] as int);
                    }
                    assert(out.contents() =~= d.contents());
                }
                Some(out)
            } else if used_count <= 256 {
                let mut new_indices: Vec<u8> = Vec::with_capacity(32768);
                let mut i: usize = 0;
                while i < 32768
                    invariant
                        i <= 32768,
                        new_indices@.len() == i,
                        indices@.len() == 32768,
                        mapping@.len() == palette@.len(),
                        used_count <= 256,
                        forall|j: int| 0 <= j < 32768 ==> (#[trigger] indices@[j] as int) < palette@.len(),
                        forall|j: int|
                            0 <= j < 32768 ==> (#[trigger] mapping@[d.palette_index(j)] as int) < used_count,
                        forall|j: int| 0 <= j < 32768 ==> #[trigger] d.palette_index(j) == indices@[j] as int,
                        forall|j: int|
                            0 <= j < i ==> #[trigger] new_indices@[j] as int
                                == mapping@[indices@[j] as int] as int,
                    decreases 32768 - i,
                {
                    let old_p_idx = indices[i] as usize;
                    assert(d.palette_index(i as int) == old_p_idx);
                    new_indices.push(mapping[old_p_idx] as u8);
                    i = i + 1;
                }
                let out = ChunkData::Paletted8 { palette: new_palette, indices: new_indices };
                proof {
                    assert forall|j: int| 0 <= j < 32768 implies #[trigger] out.palette_index(j)
                        == mapping@[idx(j)] as int by {
                        assert(d.palette_index(j) == indices@[j] as int);
                    }
                    assert forall|j: int| 0 <= j < 32768 implies 0 <= #[trigger] idx(j) < mapping@.len() by {
                        assert(d.palette_index(j) == indices@[j] as int);
                    }
                    lemma_remapped_all_used(idx, out, mapping@, used_count as int);
                    assert forall|j: int| 0 <= j < 32768 implies (#[trigger] new_indices@[j] as int)
                        < new_palette@.len() by {
                        assert(d.palette_index(j) == indices@[j] as int);
                    }
                    assert forall|j: int| 0 <= j < 32768 implies #[trigger] out.block_at(j) == d.block_at(j) by {
                        assert(d.palette_index(j) == indices@[j] as int);
                    }
                    assert(out.contents() =~= d.contents());
                }
                Some(out)
            } else {
                None
            }
        },
    }
}

} // verus!

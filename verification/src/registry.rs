use vstd::prelude::*;

use crate::block::{Block, BlockState};
use std::sync::Arc;

verus! {

/// A flat per-state property table: entry `i` holds the property of block state `i`.
pub struct PropertyRegistry<T> {
    pub data: Vec<T>,
}

impl<T> Default for PropertyRegistry<T> {
    fn default() -> (r: Self)
        ensures
            r.data@.len() == 0,
    {
        PropertyRegistry { data: Vec::new() }
    }
}

/// A property table that the block registry grows so that every registered state has an
/// entry.
pub trait PropertyPadder {
    /// How many state entries the table holds.
    spec fn entry_count(&self) -> nat;

    /// Grows the table to `new_size` entries; a table that holds at least that many keeps
    /// its size.
    fn pad_to(&mut self, new_size: usize)
        ensures
            final(self).entry_count() == if old(self).entry_count() >= new_size {
                old(self).entry_count()
            } else {
                new_size as nat
            },
    ;
}

impl<T: Default + Clone> PropertyPadder for PropertyRegistry<T> {
    open spec fn entry_count(&self) -> nat {
        self.data@.len()
    }

    /// Extends the table to `total_states` entries with default values; a longer table is
    /// left as it is.
    fn pad_to(&mut self, total_states: usize)
        ensures
            old(self).data@.len() >= total_states ==> final(self).data@ == old(self).data@,
            old(self).data@.len() < total_states ==> {
                &&& final(self).data@.len() == total_states
                &&& final(self).data@.take(old(self).data@.len() as int) == old(self).data@
                &&& exists|d: T|
                    call_ensures(T::default, (), d) && forall|i: int|
                        old(self).data@.len() <= i < total_states ==> cloned(
                            d,
                            #[trigger] final(self).data@[i],
                        )
            },
    {
        if self.data.len() < total_states {
            let d = T::default();
            let ghost dv = d;
            self.data.resize(total_states, d);
            assert(self.data@.take(old(self).data@.len() as int) =~= self.data@.subrange(
                0,
                old(self).data@.len() as int,
            ));
            assert(call_ensures(T::default, (), dv));
        }
    }
}

/// The length that a table kept elsewhere must have: the registry grows it as it hands out
/// states, and the holder of the table resizes the table to it.
#[derive(Clone, Copy, Debug, PartialEq, Eq, Structural)]
pub struct TableLength {
    pub entries: usize,
}

impl PropertyPadder for TableLength {
    open spec fn entry_count(&self) -> nat {
        self.entries as nat
    }

    fn pad_to(&mut self, new_size: usize) {
        if self.entries < new_size {
            self.entries = new_size;
        }
    }
}

impl<T: Default + Clone> PropertyRegistry<T> {
    /// Overwrites the property of one state.
    pub fn set(&mut self, state_id: u32, value: T)
        requires
            (state_id as int) < old(self).data@.len(),
        ensures
            final(self).data@ == old(self).data@.update(state_id as int, value),
    {
        self.data.set(state_id as usize, value);
    }

    /// A copy of the property of one state.
    pub fn get(&self, state_id: u32) -> (r: T)
        requires
            (state_id as int) < self.data@.len(),
        ensures
            cloned(self.data@[state_id as int], r),
    {
        self.data[state_id as usize].clone()
    }

    /// Gives every state of `block` the property `value`.
    pub fn set_for_block(&mut self, block: &Block, value: T)
        requires
            block.base_id + block.state_count <= old(self).data@.len(),
            block.base_id + block.state_count <= u32::MAX,
        ensures
            final(self).data@.len() == old(self).data@.len(),
            forall|i: int|
                0 <= i < old(self).data@.len() ==> if block.base_id <= i < block.base_id
                    + block.state_count {
                    cloned(value, #[trigger] final(self).data@[i])
                } else {
                    final(self).data@[i] == old(self).data@[i]
                },
    {
        let mut offset: u16 = 0;
        while offset < block.state_count
            invariant
                offset <= block.state_count,
                block.base_id + block.state_count <= self.data@.len(),
                block.base_id + block.state_count <= u32::MAX,
                self.data@.len() == old(self).data@.len(),
                forall|i: int|
                    0 <= i < old(self).data@.len() ==> if block.base_id <= i < block.base_id
                        + offset {
                        cloned(value, #[trigger] self.data@[i])
                    } else {
                        self.data@[i] == old(self).data@[i]
                    },
            decreases block.state_count - offset,
        {
            let v = value.clone();
            self.set(block.base_id + offset as u32, v);
            offset = offset + 1;
        }
    }
}

} // verus!

verus! {

/// The full name of a block: namespace, a colon, then name.
pub open spec fn full_name(namespace: Seq<char>, name: Seq<char>) -> Seq<char> {
    namespace + seq![':'] + name
}

/// The table of registered blocks: each block by its full name, and each block state's
/// block. Registering a block hands out the next `state_count` state ids.
///
/// The name table is a list of (full name, block) pairs in which no full name occurs twice
/// and each key is its block's `namespace:name` (the type invariant `inv`); `names()` reads
/// it as a map.
///
/// The registry also holds the property tables handed to `register_property_array`, and
/// grows each of them whenever it hands out states: every table always has an entry for
/// every registered state.
pub struct BlockRegistry<P: PropertyPadder> {
    name_to_block: Vec<(String, Arc<Block>)>,
    state_to_block: Vec<Arc<Block>>,
    padders: Vec<P>,
}

impl<P: PropertyPadder> BlockRegistry<P> {
    #[verifier::type_invariant]
    spec fn inv(self) -> bool {
        &&& forall|i: int, j: int|
            0 <= i < j < self.name_to_block@.len() ==> (#[trigger] self.name_to_block@[i]).0@
                != (#[trigger] self.name_to_block@[j]).0@
        &&& forall|i: int|
            0 <= i < self.name_to_block@.len() ==> (#[trigger] self.name_to_block@[i]).0@ == full_name(
                self.name_to_block@[i].1.namespace@,
                self.name_to_block@[i].1.name@,
            )
        &&& self.state_to_block@.len() <= u32::MAX
        &&& forall|s: int|
            0 <= s < self.state_to_block@.len() ==> (#[trigger] self.state_to_block@[s]).base_id
                <= s < self.state_to_block@[s].base_id + self.state_to_block@[s].state_count
        &&& forall|t: int|
            0 <= t < self.padders@.len() ==> (#[trigger] self.padders@[t]).entry_count()
                >= self.state_to_block@.len()
    }

    /// The number of entries of each registered property table, in registration order.
    pub closed spec fn table_sizes(self) -> Seq<nat> {
        self.padders@.map_values(|p: P| p.entry_count())
    }

    /// The block of each state id, in id order.
    pub closed spec fn states(self) -> Seq<Block> {
        self.state_to_block@.map_values(|b: Arc<Block>| *b)
    }

    /// Whether a block is registered under `name`.
    pub closed spec fn has_name(self, name: Seq<char>) -> bool {
        exists|i: int| 0 <= i < self.name_to_block@.len() && (#[trigger] self.name_to_block@[i]).0@ == name
    }

    /// The registered blocks by full name.
    pub closed spec fn names(self) -> Map<Seq<char>, Block> {
        Map::new(
            |k: Seq<char>| self.has_name(k),
            |k: Seq<char>|
                *self.name_to_block@[choose|i: int|
                    0 <= i < self.name_to_block@.len() && (#[trigger] self.name_to_block@[i]).0@
                        == k].1,
        )
    }

    /// An empty registry.
    pub fn new() -> (r: Self)
        ensures
            r.states().len() == 0,
            r.names() == Map::<Seq<char>, Block>::empty(),
            r.table_sizes().len() == 0,
    {
        let r = BlockRegistry { name_to_block: Vec::new(), state_to_block: Vec::new(), padders: Vec::new() };
        assert(r.table_sizes() =~= Seq::<nat>::empty());
        assert(r.names() =~= Map::<Seq<char>, Block>::empty());
        r
    }

    /// The number of state ids handed out so far.
    pub fn registered_states(&self) -> (r: u32)
        ensures
            r == self.states().len(),
    {
        proof {
            use_type_invariant(self);
        }
        self.state_to_block.len() as u32
    }

    /// The block that owns state `state`, if that state has been handed out.
    pub fn get_block(&self, state: BlockState) -> (r: Option<Arc<Block>>)
        ensures
            (state.0 as int) < self.states().len() ==> (r matches Some(b) && *b == self.states()[state.0 as int]),
            (state.0 as int) >= self.states().len() ==> r is None,
            r matches Some(b) ==> b.base_id <= state.0 < b.base_id + b.state_count,
    {
        proof {
            use_type_invariant(self);
        }
        if (state.0 as usize) < self.state_to_block.len() {
            Some(Arc::clone(&self.state_to_block[state.0 as usize]))
        } else {
            None
        }
    }

    /// The block that owns state `state`, which must have been handed out.
    pub fn get_block_unchecked(&self, state: BlockState) -> (r: Arc<Block>)
        requires
            (state.0 as int) < self.states().len(),
        ensures
            *r == self.states()[state.0 as int],
            r.base_id <= state.0 < r.base_id + r.state_count,
    {
        proof {
            use_type_invariant(self);
        }
        Arc::clone(&self.state_to_block[state.0 as usize])
    }

    /// The block registered under a full name (`namespace:name`).
    pub fn get_block_by_name(&self, full_name: &str) -> (r: Option<Arc<Block>>)
        ensures
            self.names().contains_key(full_name@) ==> (r matches Some(b) && *b == self.names()[full_name@]),
            !self.names().contains_key(full_name@) ==> r is None,
    {
        proof {
            use_type_invariant(self);
        }
        let key = full_name.to_owned();
        let mut i: usize = 0;
        while i < self.name_to_block.len()
            invariant
                i <= self.name_to_block@.len(),
                self.inv(),
                key@ == full_name@,
                forall|j: int| 0 <= j < i ==> (#[trigger] self.name_to_block@[j]).0@ != full_name@,
            decreases self.name_to_block@.len() - i,
        {
            if self.name_to_block[i].0 == key {
                proof {
                    assert(self.has_name(full_name@));
                    let c = choose|c: int|
                        0 <= c < self.name_to_block@.len() && (#[trigger] self.name_to_block@[c]).0@
                            == full_name@;
                    assert(c == i);
                }
                return Some(Arc::clone(&self.name_to_block[i].1));
            }
            i = i + 1;
        }
        None
    }

    /// Whether `b` is registered under some name.
    pub open spec fn lists_block(self, b: Block) -> bool {
        exists|n: Seq<char>| #[trigger] self.names().contains_key(n) && self.names()[n] == b
    }

    /// Every registered block, once for each name it is registered under.
    pub fn iter_blocks(&self) -> (r: Vec<Arc<Block>>)
        ensures
            forall|k1: int, k2: int| 0 <= k1 < k2 < r@.len() ==> *#[trigger] r@[k1] != *#[trigger] r@[k2],
            forall|k: int| 0 <= k < r@.len() ==> self.lists_block(*#[trigger] r@[k]),
            forall|n: Seq<char>|
                #[trigger] self.names().contains_key(n) ==> exists|k: int|
                    0 <= k < r@.len() && *r@[k] == self.names()[n],
    {
        proof {
            use_type_invariant(self);
        }
        let mut r: Vec<Arc<Block>> = Vec::new();
        let mut i: usize = 0;
        while i < self.name_to_block.len()
            invariant
                i <= self.name_to_block@.len(),
                self.inv(),
                r@.len() == i,
                forall|k: int| 0 <= k < i ==> *#[trigger] r@[k] == *self.name_to_block@[k].1,
            decreases self.name_to_block@.len() - i,
        {
            r.push(Arc::clone(&self.name_to_block[i].1));
            i = i + 1;
        }
        proof {
            assert forall|k1: int, k2: int| 0 <= k1 < k2 < r@.len() implies *#[trigger] r@[k1]
                != *#[trigger] r@[k2] by {
                assert(self.name_to_block@[k1].0@ != self.name_to_block@[k2].0@);
            }
            assert forall|k: int| 0 <= k < r@.len() implies self.lists_block(*#[trigger] r@[k]) by {
                let n = self.name_to_block@[k].0@;
                assert(self.has_name(n));
                let c = choose|c: int|
                    0 <= c < self.name_to_block@.len() && (#[trigger] self.name_to_block@[c]).0@ == n;
                assert(c == k);
                assert(self.names().contains_key(n) && self.names()[n] == *r@[k]);
            }
            assert forall|n: Seq<char>| #[trigger] self.names().contains_key(n) implies exists|k: int|
                0 <= k < r@.len() && *r@[k] == self.names()[n] by {
                let c = choose|c: int|
                    0 <= c < self.name_to_block@.len() && (#[trigger] self.name_to_block@[c]).0@ == n;
                assert(*r@[c] == self.names()[n]);
            }
        }
        r
    }
}


/// Grows every table to `total` entries.
fn pad_tables<P: PropertyPadder>(padders: &mut Vec<P>, total: usize)
    ensures
        final(padders)@.len() == old(padders)@.len(),
        forall|t: int|
            0 <= t < final(padders)@.len() ==> (#[trigger] final(padders)@[t]).entry_count() == if old(
                padders,
            )@[t].entry_count() >= total {
                old(padders)@[t].entry_count()
            } else {
                total as nat
            },
{
    let len = padders.len();
    let mut k: usize = 0;
    while k < len
        invariant
            k <= len,
            padders@.len() == len,
            len == old(padders)@.len(),
            forall|t: int|
                0 <= t < len ==> (#[trigger] padders@[t]).entry_count() == if t < k {
                    if old(padders)@[t].entry_count() >= total {
                        old(padders)@[t].entry_count()
                    } else {
                        total as nat
                    }
                } else {
                    old(padders)@[t].entry_count()
                },
        decreases len - k,
    {
        padders[k].pad_to(total);
        k = k + 1;
    }
}

impl<P: PropertyPadder> BlockRegistry<P> {
    /// Hands a property table to the registry: it is grown at once to an entry for every
    /// state registered so far, and grown again by every later registration.
    pub fn register_property_array(&mut self, table: P)
        ensures
            final(self).states() == old(self).states(),
            final(self).names() == old(self).names(),
            final(self).table_sizes() == old(self).table_sizes().push(
                if table.entry_count() >= old(self).states().len() {
                    table.entry_count()
                } else {
                    old(self).states().len()
                },
            ),
            forall|t: int|
                0 <= t < final(self).table_sizes().len() ==> #[trigger] final(self).table_sizes()[t]
                    >= final(self).states().len(),
    {
        proof {
            use_type_invariant(&*self);
        }
        let ghost old_sizes = self.table_sizes();
        let mut table = table;
        let total = self.state_to_block.len();
        table.pad_to(total);
        let ghost padded = table;
        let mut padders: Vec<P> = Vec::new();
        std::mem::swap(&mut padders, &mut self.padders);
        let ghost before = padders@;
        padders.push(table);
        proof {
            assert(padders@.len() == before.len() + 1);
            assert(padders@ == before.push(padded));
            assert forall|t: int| 0 <= t < padders@.len() implies (#[trigger] padders@[t]).entry_count()
                >= total by {
                if t < before.len() {
                    assert(padders@[t] == before[t]);
                }
            }
        }
        self.padders = padders;
        proof {
            assert(self.table_sizes() =~= old_sizes.push(padded.entry_count()));
        }
    }
}

impl<P: PropertyPadder> BlockRegistry<P> {
    /// The property tables handed to the registry, in registration order.
    pub fn tables(&self) -> (r: &Vec<P>)
        ensures
            r@.map_values(|p: P| p.entry_count()) == self.table_sizes(),
    {
        &self.padders
    }
}

impl<P: PropertyPadder> Default for BlockRegistry<P> {
    fn default() -> (r: Self)
        ensures
            r.states().len() == 0,
            r.names() == Map::<Seq<char>, Block>::empty(),
            r.table_sizes().len() == 0,
    {
        BlockRegistry::new()
    }
}

/// The position of the entry named `key`, if any.
fn name_position(names: &Vec<(String, Arc<Block>)>, key: &String) -> (r: Option<usize>)
    ensures
        match r {
            Some(p) => p < names@.len() && names@[p as int].0@ == key@,
            None => forall|j: int| 0 <= j < names@.len() ==> (#[trigger] names@[j]).0@ != key@,
        },
{
    let mut pos: usize = 0;
    while pos < names.len()
        invariant
            pos <= names@.len(),
            forall|j: int| 0 <= j < pos ==> (#[trigger] names@[j]).0@ != key@,
        decreases names@.len() - pos,
    {
        if names[pos].0 == *key {
            return Some(pos);
        }
        pos = pos + 1;
    }
    None
}

impl<P: PropertyPadder> BlockRegistry<P> {
    /// Registers a block: it gets the next free state ids (256 for a fractional block, one
    /// otherwise) and is entered under `namespace:name`, replacing an earlier block of that
    /// full name in the name table. Every property table is then grown to an entry for each
    /// registered state; a longer table keeps its length.
    #[verifier::spinoff_prover]
    pub fn register_block(&mut self, namespace: &str, name: &str, is_fractional: bool) -> (r: Arc<
        Block,
    >)
        requires
            old(self).states().len() + (if is_fractional {
                256int
            } else {
                1int
            }) <= u32::MAX,
        ensures
            r.base_id == old(self).states().len(),
            r.namespace@ == namespace@,
            r.name@ == name@,
            r.is_fractional == is_fractional,
            r.state_count == (if is_fractional {
                256u16
            } else {
                1u16
            }),
            final(self).states() == old(self).states() + Seq::new(r.state_count as nat, |i: int| *r),
            final(self).names() == old(self).names().insert(full_name(namespace@, name@), *r),
            final(self).table_sizes().len() == old(self).table_sizes().len(),
            forall|t: int|
                0 <= t < final(self).table_sizes().len() ==> #[trigger] final(self).table_sizes()[t]
                    == if old(self).table_sizes()[t] >= final(self).states().len() {
                    old(self).table_sizes()[t]
                } else {
                    final(self).states().len()
                },
            forall|t: int|
                0 <= t < final(self).table_sizes().len() ==> #[trigger] final(self).table_sizes()[t]
                    >= final(self).states().len(),
    {
        proof {
            use_type_invariant(&*self);
        }
        let ghost old_sizes = self.table_sizes();
        let ghost old_states = self.states();
        let ghost old_names = self.names();
        let ghost old_table = self.name_to_block@;
        let base_id = self.state_to_block.len() as u32;
        let state_count: u16 = if is_fractional {
            256
        } else {
            1
        };
        let block = Arc::new(
            Block {
                base_id,
                namespace: namespace.to_owned(),
                name: name.to_owned(),
                is_fractional,
                state_count,
            },
        );
        let mut full = namespace.to_owned();
        full.append(":");
        full.append(name);
        proof {
            reveal_strlit(":");
            assert(full@ == full_name(namespace@, name@));
        }

        let mut names: Vec<(String, Arc<Block>)> = Vec::new();
        std::mem::swap(&mut names, &mut self.name_to_block);
        let mut states: Vec<Arc<Block>> = Vec::new();
        std::mem::swap(&mut states, &mut self.state_to_block);
        assert(names@ == old_table);

        let position = name_position(&names, &full);
        let found = position.is_some();
        let pos: usize = match position {
            Some(p) => p,
            None => 0,
        };
        let ghost key = full@;
        if found {
            names.set(pos, (full, Arc::clone(&block)));
        } else {
            names.push((full, Arc::clone(&block)));
        }
        let ghost new_table = names@;
        proof {
            assert forall|i: int, j: int|
                0 <= i < j < new_table.len() implies (#[trigger] new_table[i]).0@
                    != (#[trigger] new_table[j]).0@ by {
                if found {
                    if i != pos && j != pos {
                        assert(new_table[i] == old_table[i]);
                        assert(new_table[j] == old_table[j]);
                    } else if i == pos {
                        assert(new_table[j] == old_table[j]);
                        assert(old_table[i].0@ == key);
                    } else {
                        assert(new_table[i] == old_table[i]);
                        assert(old_table[j].0@ == key);
                    }
                } else {
                    assert(new_table[i] == old_table[i]);
                    if j < old_table.len() {
                        assert(new_table[j] == old_table[j]);
                    }
                }
            }
            assert forall|i: int| 0 <= i < new_table.len() implies (#[trigger] new_table[i]).0@ == full_name(
                new_table[i].1.namespace@,
                new_table[i].1.name@,
            ) by {
                if (found && i != pos) || (!found && i < old_table.len()) {
                    assert(new_table[i] == old_table[i]);
                }
            }
        }

        let mut k: u16 = 0;
        while k < state_count
            invariant
                k <= state_count,
                states@.len() == old_states.len() + k,
                old_states.len() + state_count <= u32::MAX,
                base_id == old_states.len(),
                block.base_id == base_id,
                block.state_count == state_count,
                states@.map_values(|b: Arc<Block>| *b) == old_states + Seq::new(k as nat, |i: int| *block),
                forall|s: int|
                    0 <= s < states@.len() ==> (#[trigger] states@[s]).base_id <= s < states@[s].base_id
                        + states@[s].state_count,
            decreases state_count - k,
        {
            let ghost before = states@;
            states.push(Arc::clone(&block));
            proof {
                assert forall|s: int|
                    0 <= s < states@.len() implies (#[trigger] states@[s]).base_id <= s < states@[s].base_id
                        + states@[s].state_count by {
                    if s < before.len() {
                        assert(states@[s] == before[s]);
                    }
                }
                assert(states@.map_values(|b: Arc<Block>| *b) =~= old_states + Seq::new((k + 1) as nat, |i: int| *block)) by {
                    assert(states@.map_values(|b: Arc<Block>| *b) =~= before.map_values(|b: Arc<Block>| *b).push(*block));
                }
            }
            k = k + 1;
        }
        let mut padders: Vec<P> = Vec::new();
        std::mem::swap(&mut padders, &mut self.padders);
        let total = states.len();
        pad_tables(&mut padders, total);
        self.name_to_block = names;
        self.state_to_block = states;
        self.padders = padders;
        proof {
            assert(self.table_sizes() =~= old_sizes.map_values(
                |n: nat| if n >= total { n } else { total as nat },
            ));
            assert(self.name_to_block@ == new_table);
            assert forall|n: Seq<char>| #[trigger] self.names().contains_key(n) == old_names.insert(key, *block).contains_key(n)
                && (self.names().contains_key(n) ==> self.names()[n] == old_names.insert(key, *block)[n]) by {
                if n == key {
                    if found {
                        assert(new_table[pos as int].0@ == key);
                    } else {
                        assert(new_table[old_table.len() as int].0@ == key);
                    }
                    assert(self.has_name(n));
                    let c = choose|c: int| 0 <= c < new_table.len() && (#[trigger] new_table[c]).0@ == n;
                    if found {
                        assert(c == pos);
                    } else {
                        assert(c == old_table.len());
                    }
                } else {
                    if self.has_name(n) {
                        let c = choose|c: int| 0 <= c < new_table.len() && (#[trigger] new_table[c]).0@ == n;
                        assert(new_table[c] == old_table[c]);
                        assert(old_names.contains_key(n));
                        let c0 = choose|c: int| 0 <= c < old_table.len() && (#[trigger] old_table[c]).0@ == n;
                        assert(c0 == c);
                    }
                    if old_names.contains_key(n) {
                        let c0 = choose|c: int| 0 <= c < old_table.len() && (#[trigger] old_table[c]).0@ == n;
                        assert(new_table[c0] == old_table[c0]);
                        assert(self.has_name(n));
                    }
                }
            }
            assert(self.names().dom() =~= old_names.insert(key, *block).dom());
            assert forall|n: Seq<char>| #[trigger] self.names().dom().contains(n) implies self.names()[n] == old_names.insert(key, *block)[n] by {
                assert(self.names().contains_key(n));
            }
            assert(self.names() =~= old_names.insert(key, *block));
        }
        block
    }
}

} // verus!

//! The blocks of a region: a sparse map from positions to block states in
//! which a position without an entry holds air.

use crate::block_state::{air, BlockState, BlockStateView};
use crate::vector::Vector3;
use std::collections::HashMap;
use vstd::prelude::*;
use vstd::std_specs::hash::spec_keys_iter;
use vstd::std_specs::iter::IteratorSpec;

verus! {

broadcast use vstd::std_specs::hash::group_hash_axioms;

/// The number under which a position is kept: its three components, each
/// moved into the unsigned range, side by side in 32 bits each.
spec fn key_of(p: Vector3<i32>) -> u128 {
    ((p.x + 0x8000_0000) + (p.y + 0x8000_0000) * 0x1_0000_0000 + (p.z + 0x8000_0000)
        * 0x1_0000_0000_0000_0000) as u128
}

/// The position that is kept under a number.
spec fn position_of(key: u128) -> Vector3<i32> {
    Vector3 {
        x: ((key % 0x1_0000_0000) - 0x8000_0000) as i32,
        y: (((key / 0x1_0000_0000) % 0x1_0000_0000) - 0x8000_0000) as i32,
        z: ((key / 0x1_0000_0000_0000_0000) - 0x8000_0000) as i32,
    }
}

/// Whether a number is that of some position.
spec fn is_key(key: u128) -> bool {
    key < 0x1_0000_0000_0000_0000_0000_0000
}

proof fn lemma_key_of(p: Vector3<i32>)
    ensures
        is_key(key_of(p)),
        position_of(key_of(p)) == p,
{
}

proof fn lemma_position_of(key: u128)
    requires
        is_key(key),
    ensures
        key_of(position_of(key)) == key,
{
}

fn key(p: &Vector3<i32>) -> (k: u128)
    ensures
        k == key_of(*p),
{
    let x = (p.x as i64 + 0x8000_0000) as u128;
    let y = (p.y as i64 + 0x8000_0000) as u128;
    let z = (p.z as i64 + 0x8000_0000) as u128;
    x + y * 0x1_0000_0000 + z * 0x1_0000_0000_0000_0000
}

fn position(k: u128) -> (p: Vector3<i32>)
    requires
        is_key(k),
    ensures
        p == position_of(k),
{
    let x = (k % 0x1_0000_0000) as i64 - 0x8000_0000;
    let y = ((k / 0x1_0000_0000) % 0x1_0000_0000) as i64 - 0x8000_0000;
    let z = (k / 0x1_0000_0000_0000_0000) as i64 - 0x8000_0000;
    Vector3 { x: x as i32, y: y as i32, z: z as i32 }
}

/// A map from positions to the block states that differ from air.
pub struct BlockMap {
    cells: HashMap<u128, BlockState>,
}

impl View for BlockMap {
    type V = Map<Vector3<i32>, BlockStateView>;

    closed spec fn view(&self) -> Map<Vector3<i32>, BlockStateView> {
        Map::new(
            |p: Vector3<i32>| self.cells@.contains_key(key_of(p)),
            |p: Vector3<i32>| self.cells@[key_of(p)]@,
        )
    }
}

impl BlockMap {
    #[verifier::type_invariant]
    spec fn well_formed(&self) -> bool {
        forall|k: u128| #[trigger]
            self.cells@.contains_key(k) ==> is_key(k) && self.cells@[k]@ != air()
    }

    /// Whether no position is given the state of air: it holds of every map.
    pub open spec fn sparse(&self) -> bool {
        forall|p: Vector3<i32>| #[trigger] self@.contains_key(p) ==> self@[p] != air()
    }

    /// A map without blocks.
    pub fn new() -> (blocks: BlockMap)
        ensures
            blocks@ == Map::<Vector3<i32>, BlockStateView>::empty(),
    {
        let blocks = BlockMap { cells: HashMap::new() };
        assert(blocks@ =~= Map::<Vector3<i32>, BlockStateView>::empty());
        blocks
    }

    /// Nothing happens here; the call tells its caller that no position of
    /// the map is given the state of air.
    pub fn check_sparse(&self)
        ensures
            self.sparse(),
    {
        proof {
            use_type_invariant(self);
        }
    }

    /// The number of positions that hold a block.
    pub fn len(&self) -> (count: usize)
        ensures
            self@.dom().finite(),
            count == self@.dom().len(),
    {
        proof {
            use_type_invariant(self);
            let keys = self.cells@.dom();
            let f = |k: u128| position_of(k);
            assert(keys.map(f) =~= self@.dom()) by {
                assert forall|p: Vector3<i32>| keys.map(f).contains(p) == self@.dom().contains(
                    p,
                ) by {
                    lemma_key_of(p);
                    if keys.map(f).contains(p) {
                        let k = choose|k: u128| keys.contains(k) && f(k) == p;
                        lemma_position_of(k);
                    }
                    if self@.dom().contains(p) {
                        assert(keys.contains(key_of(p)) && f(key_of(p)) == p);
                    }
                }
            }
            assert(vstd::relations::injective_on(f, keys)) by {
                assert forall|a: u128, b: u128|
                    keys.contains(a) && keys.contains(b) && #[trigger] f(a) == #[trigger] f(
                        b,
                    ) implies a == b by {
                    lemma_position_of(a);
                    lemma_position_of(b);
                }
            }
            vstd::set_lib::lemma_map_size(keys, self@.dom(), f);
        }
        self.cells.len()
    }

    /// The block at `pos`, if the position holds one.
    pub fn get(&self, pos: &Vector3<i32>) -> (block: Option<&BlockState>)
        ensures
            match block {
                Some(state) => self@.contains_key(*pos) && self@[*pos] == state@ && state@
                    != air(),
                None => !self@.contains_key(*pos),
            },
    {
        proof {
            use_type_invariant(self);
        }
        let k = key(pos);
        self.cells.get(&k)
    }

    /// Whether the position `pos` holds a block.
    pub fn contains_key(&self, pos: &Vector3<i32>) -> (found: bool)
        ensures
            found == self@.contains_key(*pos),
    {
        let k = key(pos);
        self.cells.contains_key(&k)
    }

    /// Put `state` at `pos`. Air is not kept: putting it there takes away
    /// the block that the position held.
    pub fn set(&mut self, pos: Vector3<i32>, state: BlockState)
        ensures
            final(self)@ == if state@ == air() {
                old(self)@.remove(pos)
            } else {
                old(self)@.insert(pos, state@)
            },
    {
        proof {
            use_type_invariant(&*self);
        }
        let ghost before = self@;
        let k = key(&pos);
        let mut cells: HashMap<u128, BlockState> = HashMap::new();
        std::mem::swap(&mut self.cells, &mut cells);
        if state.is_air() {
            cells.remove(&k);
            std::mem::swap(&mut self.cells, &mut cells);
            proof {
                assert forall|p: Vector3<i32>| p != pos implies key_of(p) != k by {
                    lemma_key_of(p);
                    lemma_key_of(pos);
                }
                assert(self@ =~= before.remove(pos));
            }
        } else {
            cells.insert(k, state);
            std::mem::swap(&mut self.cells, &mut cells);
            proof {
                assert forall|p: Vector3<i32>| p != pos implies key_of(p) != k by {
                    lemma_key_of(p);
                    lemma_key_of(pos);
                }
                lemma_key_of(pos);
                assert(self@ =~= before.insert(pos, state@));
            }
        }
    }

    /// The positions that hold a block, each once, in no particular order.
    pub fn keys(&self) -> (positions: Vec<Vector3<i32>>)
        ensures
            positions@.to_set() == self@.dom(),
            positions@.no_duplicates(),
            self.sparse(),
    {
        proof {
            use_type_invariant(self);
        }
        let mut positions: Vec<Vector3<i32>> = Vec::new();
        for k in it: self.cells.keys()
            invariant
                positions@.len() == it.index(),
                forall|i: int|
                    0 <= i < it.index() ==> #[trigger] positions@[i] == position_of(*it.seq()[i]),
                forall|k: u128| #[trigger]
                    self.cells@.contains_key(k) ==> is_key(k) && self.cells@[k]@ != air(),
                it.seq().unref().to_set() == self.cells@.dom(),
        {
            assert(it.seq().unref()[it.index() as int] == *k);
            assert(it.seq().unref().to_set().contains(*k));
            positions.push(position(*k));
        }
        proof {
            let full = spec_keys_iter(&self.cells).remaining().unref();
            assert(positions@.len() == full.len());
            assert forall|i: int, j: int|
                0 <= i < positions@.len() && 0 <= j < positions@.len() && i != j implies positions@[i]
                != positions@[j] by {
                assert(full.to_set().contains(full[i]));
                assert(full.to_set().contains(full[j]));
                lemma_position_of(full[i]);
                lemma_position_of(full[j]);
            }
            assert(positions@.to_set() =~= self@.dom()) by {
                assert forall|p: Vector3<i32>| positions@.to_set().contains(p)
                    == self@.dom().contains(p) by {
                    lemma_key_of(p);
                    if positions@.to_set().contains(p) {
                        let i = choose|i: int| 0 <= i < positions@.len() && positions@[i] == p;
                        assert(full.to_set().contains(full[i]));
                        lemma_position_of(full[i]);
                    }
                    if self@.dom().contains(p) {
                        assert(full.to_set().contains(key_of(p)));
                        let i = choose|i: int| 0 <= i < full.len() && full[i] == key_of(p);
                        assert(positions@[i] == p);
                    }
                }
            }
        }
        positions
    }
}

} // verus!

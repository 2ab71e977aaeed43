//! The two halves of a region's block data: the palette of its block
//! states and the packed array of palette indices.

use crate::block_map::BlockMap;
use crate::block_state::{air, is_entry_of, spec_block_state, BlockState, BlockStateView};
use crate::error::{BlockStateFailure, BlockStateParseError};
use crate::nbt::{list_get, list_items, list_len, tag_as_compound, tag_content, TagContent};
use crate::region::Region;
use crate::bitstring::{bit_string, lemma_bit_string_zero, lemma_splice_bound};
use crate::coords::lemma_abs_product;
use crate::vector::Vector3;
use crate::volume::{Volume, VolumeIterator};
use vstd::arithmetic::power2::{lemma_pow2_pos, pow2};
use quartz_nbt::{NbtList, NbtTag};
use vstd::prelude::*;
use vstd::string::StringExecFns;

verus! {

/// The block states of a palette as values.
pub open spec fn state_views(palette: Seq<BlockState>) -> Seq<BlockStateView> {
    Seq::new(palette.len(), |i: int| palette[i]@)
}

/// Whether `index` is the first place of `state` in `palette`.
pub open spec fn is_first_index(palette: Seq<BlockStateView>, state: BlockStateView, index: int) -> bool {
    &&& 0 <= index < palette.len()
    &&& palette[index] == state
    &&& forall|j: int| 0 <= j < index ==> palette[j] != state
}

/// Whether `palette` is a palette of `blocks`: air first, then every state
/// that some block has, each once.
pub open spec fn is_palette_of(
    palette: Seq<BlockStateView>,
    blocks: Map<Vector3<i32>, BlockStateView>,
) -> bool {
    &&& palette.len() >= 1
    &&& palette[0] == air()
    &&& palette.no_duplicates()
    &&& forall|p: Vector3<i32>| #[trigger] blocks.contains_key(p) ==> palette.contains(blocks[p])
    &&& forall|i: int| 1 <= i < palette.len() ==> is_used(blocks, #[trigger] palette[i])
}

/// Whether some block has the state `state`.
pub open spec fn is_used(blocks: Map<Vector3<i32>, BlockStateView>, state: BlockStateView) -> bool {
    exists|p: Vector3<i32>| #[trigger] blocks.contains_key(p) && blocks[p] == state
}

/// The palette that a list of tags stands for, or the failure of the first
/// tag that is no palette entry.
pub open spec fn spec_palette(items: Seq<NbtTag>) -> Result<Seq<BlockStateView>, BlockStateFailure>
    decreases items.len(),
{
    if items.len() == 0 {
        Ok(Seq::empty())
    } else {
        match spec_palette(items.drop_last()) {
            Err(e) => Err(e),
            Ok(states) => match tag_content(items.last()) {
                TagContent::Compound(data) => match spec_block_state(data) {
                    Ok(state) => Ok(states.push(state)),
                    Err(e) => Err(e),
                },
                _ => Err(BlockStateFailure::WrongTag("BlockStatePalette"@)),
            },
        }
    }
}

/// The first place of `state` in `palette`, if it has one.
pub(crate) fn find_state(palette: &Vec<BlockState>, state: &BlockState) -> (place: Option<usize>)
    ensures
        match place {
            Some(i) => is_first_index(state_views(palette@), state@, i as int),
            None => !state_views(palette@).contains(state@),
        },
{
    let mut i: usize = 0;
    while i < palette.len()
        invariant
            i <= palette.len(),
            forall|j: int| 0 <= j < i ==> state_views(palette@)[j] != state@,
        decreases palette.len() - i,
    {
        if palette[i] == *state {
            return Some(i);
        }
        i = i + 1;
    }
    None
}

impl Region {
    /// Read the palette of a region: one block state for each tag of the list.
    pub fn parse_palette(palette: &NbtList) -> (r: Result<Vec<BlockState>, BlockStateParseError>)
        ensures
            match r {
                Ok(states) => spec_palette(list_items(*palette)) == Ok::<
                    Seq<BlockStateView>,
                    BlockStateFailure,
                >(state_views(states@)),
                Err(e) => spec_palette(list_items(*palette)) == Err::<
                    Seq<BlockStateView>,
                    BlockStateFailure,
                >(e@),
            },
    {
        let mut parsed_palette: Vec<BlockState> = Vec::new();
        let len = list_len(palette);
        let mut i: usize = 0;
        assert(list_items(*palette).take(0) =~= Seq::<NbtTag>::empty());
        assert(state_views(parsed_palette@) =~= Seq::<BlockStateView>::empty());
        while i < len
            invariant
                i <= len,
                len == list_items(*palette).len(),
                spec_palette(list_items(*palette).take(i as int)) == Ok::<
                    Seq<BlockStateView>,
                    BlockStateFailure,
                >(state_views(parsed_palette@)),
            decreases len - i,
        {
            let ghost items = list_items(*palette);
            let ghost before = state_views(parsed_palette@);
            assert(items.take(i + 1).drop_last() =~= items.take(i as int));
            assert(items.take(i + 1).last() == items[i as int]);
            let state_unknown = list_get(palette, i);
            match tag_as_compound(state_unknown) {
                Some(state) => match BlockState::new_from_nbt(state) {
                    Ok(parsed) => {
                        parsed_palette.push(parsed);
                        assert(state_views(parsed_palette@) =~= before.push(parsed@));
                    },
                    Err(e) => {
                        proof {
                            lemma_palette_failure(items, i + 1);
                        }
                        return Err(e);
                    },
                },
                None => {
                    proof {
                        lemma_palette_failure(items, i + 1);
                    }
                    return Err(
                        BlockStateParseError::WrongTag(String::from_str("BlockStatePalette")),
                    );
                },
            }
            i = i + 1;
        }
        assert(list_items(*palette).take(i as int) =~= list_items(*palette));
        Ok(parsed_palette)
    }

    /// The palette of the blocks of a region: air first, then every state
    /// that some block has, each once.
    pub fn generate_palette_nbt(blocks: &BlockMap) -> (palette: Vec<BlockState>)
        ensures
            is_palette_of(state_views(palette@), blocks@),
    {
        let positions = blocks.keys();
        let mut palette_list: Vec<BlockState> = Vec::new();
        palette_list.push(BlockState::new("air", None));
        let mut i: usize = 0;
        while i < positions.len()
            invariant
                i <= positions.len(),
                positions@.to_set() == blocks@.dom(),
                palette_list@.len() >= 1,
                state_views(palette_list@)[0] == air(),
                state_views(palette_list@).no_duplicates(),
                forall|j: int|
                    0 <= j < i ==> state_views(palette_list@).contains(
                        blocks@[#[trigger] positions@[j]],
                    ),
                forall|k: int|
                    1 <= k < state_views(palette_list@).len() ==> is_used(
                        blocks@,
                        #[trigger] state_views(palette_list@)[k],
                    ),
            decreases positions.len() - i,
        {
            let ghost before = state_views(palette_list@);
            let pos = positions[i];
            assert(positions@.to_set().contains(pos));
            match blocks.get(&pos) {
                Some(state) => {
                    if find_state(&palette_list, state).is_none() {
                        let copy = state.clone();
                        palette_list.push(copy);
                        proof {
                            let now = state_views(palette_list@);
                            assert(now =~= before.push(state@));
                            assert(now[now.len() - 1] == state@);
                            assert forall|j: int| 0 <= j < i + 1 implies now.contains(
                                blocks@[#[trigger] positions@[j]],
                            ) by {
                                if j < i {
                                    let w = choose|w: int|
                                        0 <= w < before.len() && before[w] == blocks@[positions@[j]];
                                    assert(now[w] == blocks@[positions@[j]]);
                                }
                            }
                            assert forall|k: int| 1 <= k < now.len() implies is_used(
                                blocks@,
                                #[trigger] now[k],
                            ) by {
                                if k < before.len() {
                                    assert(now[k] == before[k]);
                                    assert(is_used(blocks@, before[k]));
                                } else {
                                    assert(blocks@.contains_key(pos) && blocks@[pos] == now[k]);
                                }
                            }
                        }
                    }
                },
                None => {},
            }
            i = i + 1;
        }
        proof {
            let views = state_views(palette_list@);
            assert forall|p: Vector3<i32>| #[trigger] blocks@.contains_key(p) implies views.contains(
                blocks@[p],
            ) by {
                assert(positions@.to_set().contains(p));
                let j = choose|j: int| 0 <= j < positions@.len() && positions@[j] == p;
                assert(views.contains(blocks@[positions@[j]]));
            }
        }
        palette_list
    }
}

impl Region {
    /// The number of fields that are read from a packed array of `words`
    /// words for a box of the given size: as many as the array holds whole,
    /// and no more than the box has blocks.
    pub open spec fn field_count(words: nat, bits: nat, size: Vector3<i32>) -> nat {
        let capacity = (words * 64) / bits;
        if capacity < size.spec_volume() {
            capacity
        } else {
            size.spec_volume()
        }
    }

    /// Whether every field that is read from the array is an index into a
    /// palette of `palette_len` states.
    pub open spec fn indices_in_palette(
        words: Seq<i64>,
        palette_len: nat,
        bits: nat,
        size: Vector3<i32>,
    ) -> bool {
        forall|k: nat|
            k < Region::field_count(words.len(), bits, size) ==> #[trigger] Region::spec_field(
                words,
                k,
                bits,
            ) < palette_len
    }

    /// The state that the packed array gives to the block at `pos`.
    pub open spec fn state_at(
        words: Seq<i64>,
        palette: Seq<BlockStateView>,
        bits: nat,
        size: Vector3<i32>,
        pos: Vector3<i32>,
    ) -> BlockStateView {
        palette[Region::spec_field(words, Region::span_index(size, pos) as nat, bits) as int]
    }

    /// The blocks that the first `count` fields of a packed array stand
    /// for: the block at each of their positions, unless it is air.
    pub open spec fn spec_unpack_first(
        words: Seq<i64>,
        palette: Seq<BlockStateView>,
        bits: nat,
        size: Vector3<i32>,
        count: nat,
    ) -> Map<Vector3<i32>, BlockStateView> {
        Map::new(
            |pos: Vector3<i32>|
                Region::in_span(size, pos) && Region::span_index(size, pos) < count
                    && Region::state_at(words, palette, bits, size, pos) != air(),
            |pos: Vector3<i32>| Region::state_at(words, palette, bits, size, pos),
        )
    }

    /// The blocks that a packed array stands for.
    pub open spec fn spec_unpack(
        words: Seq<i64>,
        palette: Seq<BlockStateView>,
        bits: nat,
        size: Vector3<i32>,
    ) -> Map<Vector3<i32>, BlockStateView> {
        Region::spec_unpack_first(
            words,
            palette,
            bits,
            size,
            Region::field_count(words.len(), bits, size),
        )
    }

    /// Read the blocks of a region from its packed array, or nothing where
    /// a field of the array is no index into the palette.
    pub fn try_unpack_packed_array(
        array: &[i64],
        palette: &Vec<BlockState>,
        bits_per_position: u64,
        region_size: Vector3<i32>,
    ) -> (r: Option<BlockMap>)
        requires
            0 < bits_per_position <= usize::BITS,
        ensures
            r is Some <==> Region::indices_in_palette(
                array@,
                palette@.len(),
                bits_per_position as nat,
                region_size,
            ),
            r matches Some(blocks) ==> blocks@ == Region::spec_unpack(
                array@,
                state_views(palette@),
                bits_per_position as nat,
                region_size,
            ),
    {
        let ghost bits = bits_per_position as nat;
        let ghost views = state_views(palette@);
        let capacity: u128 = array.len() as u128 * 64 / bits_per_position as u128;
        let total = Region::cell_count(region_size);
        let blocks = if capacity < total {
            capacity
        } else {
            total
        };
        proof {
            vstd::arithmetic::div_mod::lemma_fundamental_div_mod(
                array.len() * 64,
                bits_per_position as int,
            );
            vstd::arithmetic::div_mod::lemma_mod_pos_bound(
                array.len() * 64,
                bits_per_position as int,
            );
        }
        let mut unpacked = BlockMap::new();
        let mut block: u128 = 0;
        assert(unpacked@ =~= Region::spec_unpack_first(array@, views, bits, region_size, 0));
        while block < blocks
            invariant
                block <= blocks,
                blocks == Region::field_count(array@.len(), bits, region_size),
                blocks <= capacity,
                bits == bits_per_position,
                views == state_views(palette@),
                0 < bits_per_position <= usize::BITS,
                array.len() * 64 == bits_per_position * capacity + (array.len() * 64) % (
                bits_per_position as int),
                0 <= (array.len() * 64) % (bits_per_position as int),
                forall|k: nat|
                    k < block ==> #[trigger] Region::spec_field(array@, k, bits) < palette@.len(),
                unpacked@ == Region::spec_unpack_first(
                    array@,
                    views,
                    bits,
                    region_size,
                    block as nat,
                ),
            decreases blocks - block,
        {
            let ghost before = unpacked@;
            assert(block * bits_per_position < 64 * array.len()) by (nonlinear_arith)
                requires
                    block + 1 <= capacity,
                    array.len() * 64 == bits_per_position * capacity + (array.len() * 64) % (
                    bits_per_position as int),
                    0 <= (array.len() * 64) % (bits_per_position as int),
                    bits_per_position > 0,
            ;
            let coords = Region::coords_at(region_size, block).unwrap();
            let palette_index = Region::field_at(array, block, bits_per_position);
            if palette_index >= palette.len() {
                return None;
            }
            let state = &palette[palette_index];
            assert(views[palette_index as int] == state@);
            if !state.is_air() {
                unpacked.set(coords, state.clone());
            }
            proof {
                Region::lemma_index_to_coords(region_size, block as nat);
                let next = Region::spec_unpack_first(
                    array@,
                    views,
                    bits,
                    region_size,
                    (block + 1) as nat,
                );
                assert forall|q: Vector3<i32>|
                    (#[trigger] unpacked@.dom().contains(q)) == next.dom().contains(q) && (
                    unpacked@.dom().contains(q) ==> unpacked@[q] == next[q]) by {
                    if Region::in_span(region_size, q) {
                        Region::lemma_coords_to_index(region_size, q);
                    }
                    assert(before.contains_key(q) == (Region::in_span(region_size, q)
                        && Region::span_index(region_size, q) < block && Region::state_at(
                        array@,
                        views,
                        bits,
                        region_size,
                        q,
                    ) != air()));
                }
                assert(unpacked@ =~= next);
            }
            block = block + 1;
        }
        Some(unpacked)
    }

    /// Read the blocks of a region from its packed array.
    pub fn unpack_packed_array(
        array: &[i64],
        palette: &Vec<BlockState>,
        bits_per_position: u64,
        region_size: Vector3<i32>,
    ) -> (blocks: BlockMap)
        requires
            0 < bits_per_position <= usize::BITS,
            Region::indices_in_palette(
                array@,
                palette@.len(),
                bits_per_position as nat,
                region_size,
            ),
        ensures
            blocks@ == Region::spec_unpack(
                array@,
                state_views(palette@),
                bits_per_position as nat,
                region_size,
            ),
    {
        Region::try_unpack_packed_array(array, palette, bits_per_position, region_size).unwrap()
    }
}

impl Region {
    /// Whether the fields of a packed array spell the blocks `blocks` of
    /// the box `volume`: the field of a block holds the first place of its
    /// state in the palette, and the field of a position without a block
    /// holds zero.
    pub open spec fn spells(
        words: Seq<i64>,
        bits: nat,
        palette: Seq<BlockStateView>,
        volume: Volume,
        blocks: Map<Vector3<i32>, BlockStateView>,
    ) -> bool {
        forall|k: nat|
            k < volume.cells() ==> Region::spells_at(
                #[trigger] Region::spec_field(words, k, bits),
                palette,
                VolumeIterator::block_at(volume, k),
                blocks,
            )
    }

    /// Whether `slot` is what the field of the position `pos` holds.
    pub open spec fn spells_at(
        slot: nat,
        palette: Seq<BlockStateView>,
        pos: Option<Vector3<i32>>,
        blocks: Map<Vector3<i32>, BlockStateView>,
    ) -> bool {
        match pos {
            Some(p) => if blocks.contains_key(p) {
                is_first_index(palette, blocks[p], slot as int)
            } else {
                slot == 0
            },
            None => false,
        }
    }

    /// Whether the blocks of a region can be packed for the box `volume`
    /// with the palette `palette`: the box has no negative size and not more
    /// blocks than a 32-bit count holds, every block lies in it, and the
    /// palette has every state.
    pub open spec fn can_pack(
        blocks: Map<Vector3<i32>, BlockStateView>,
        volume: Volume,
        palette: Seq<BlockStateView>,
    ) -> bool {
        &&& volume.is_positive()
        &&& volume.size_fits()
        &&& volume.cells() <= i32::MAX
        &&& forall|p: Vector3<i32>| #[trigger]
            blocks.contains_key(p) ==> volume.contains(p) && palette.contains(blocks[p])
    }

    /// Pack the blocks of the region into the array of palette indices of
    /// the box `region_volume`.
    pub fn generate_block_states_nbt(&self, region_volume: Volume, palette: &Vec<BlockState>) -> (words:
        Vec<i64>)
        requires
            Region::can_pack(self@.blocks, region_volume, state_views(palette@)),
        ensures
            words@.len() == Region::spec_word_count(
                region_volume.cells(),
                Region::spec_calculate_bits(palette@.len()),
            ),
            Region::spells(
                words@,
                Region::spec_calculate_bits(palette@.len()),
                state_views(palette@),
                region_volume,
                self@.blocks,
            ),
            bit_string(words@) < pow2(
                region_volume.cells() * Region::spec_calculate_bits(palette@.len()),
            ),
    {
        let ghost views = state_views(palette@);
        let ghost all = self@.blocks;
        let ghost cells = region_volume.cells();
        let bits = Region::calculate_bits(palette.len());
        let size = region_volume.size();
        let region_pos = region_volume.origin();
        proof {
            lemma_abs_product(
                region_volume.extent().0,
                region_volume.extent().1,
                region_volume.extent().2,
            );
            assert(cells == size.spec_volume());
            assert((cells * bits + 63) / 64 <= cells) by (nonlinear_arith)
                requires
                    0 <= cells,
                    2 <= bits <= 64,
            ;
        }
        let longs = Region::calculate_amt_of_longs(region_volume.volume(), bits);
        let mut block_states: Vec<i64> = Vec::new();
        let mut n: i32 = 0;
        while n < longs
            invariant
                0 <= n <= longs,
                block_states@.len() == n,
                forall|i: int| 0 <= i < block_states@.len() ==> block_states@[i] == 0,
            decreases longs - n,
        {
            block_states.push(0);
            n = n + 1;
        }
        let blocks = self.blocks();
        let positions = blocks.keys();
        proof {
            lemma_bit_string_zero(block_states@);
            lemma_pow2_pos(cells * bits as nat);
            assert(all.restrict(positions@.take(0).to_set()) =~= Map::empty());
            assert forall|k: nat| k < cells implies Region::spells_at(
                #[trigger] Region::spec_field(block_states@, k, bits as nat),
                views,
                VolumeIterator::block_at(region_volume, k),
                all.restrict(positions@.take(0).to_set()),
            ) by {
                Region::lemma_index_to_coords(size, k);
            }
        }
        let mut i: usize = 0;
        while i < positions.len()
            invariant
                i <= positions.len(),
                positions@.to_set() == all.dom(),
                positions@.no_duplicates(),
                all == self@.blocks,
                views == state_views(palette@),
                cells == region_volume.cells(),
                cells == size.spec_volume(),
                size == region_volume.spec_size(),
                region_pos == region_volume.pos1,
                blocks@ == all,
                Region::can_pack(all, region_volume, views),
                Region::is_required_bits(palette@.len(), bits as nat),
                bits <= 64,
                block_states@.len() == longs,
                longs == Region::spec_word_count(cells, bits as nat),
                bit_string(block_states@) < pow2(cells * bits as nat),
                Region::spells(
                    block_states@,
                    bits as nat,
                    views,
                    region_volume,
                    all.restrict(positions@.take(i as int).to_set()),
                ),
            decreases positions.len() - i,
        {
            let ghost before = block_states@;
            let ghost done = all.restrict(positions@.take(i as int).to_set());
            let block_pos = positions[i];
            assert(positions@.to_set().contains(block_pos));
            assert(all.contains_key(block_pos));
            let value = blocks.get(&block_pos).unwrap();
            let place = find_state(palette, value).unwrap();
            let relative = Vector3 {
                x: block_pos.x - region_pos.x,
                y: block_pos.y - region_pos.y,
                z: block_pos.z - region_pos.z,
            };
            proof {
                Region::lemma_coords_round_trip(size, relative);
                Region::lemma_box_is_span(size, relative);
            }
            let index = Region::index_at(size, relative).unwrap();
            proof {
                assert(index * bits + bits <= cells * bits) by (nonlinear_arith)
                    requires
                        index + 1 <= cells,
                        bits >= 0,
                ;
                assert(cells * bits <= 64 * longs) by {
                    vstd::arithmetic::div_mod::lemma_fundamental_div_mod(cells * bits + 63, 64);
                    vstd::arithmetic::div_mod::lemma_mod_pos_bound(cells * bits + 63, 64);
                }
                assert((place as i64) as u64 == place as u64) by (bit_vector);
                vstd::arithmetic::div_mod::lemma_small_mod(place as nat, pow2(bits as nat));
            }
            Region::set_index_in_packed_array(
                block_states.as_mut_slice(),
                #[verifier::truncate]
                (place as i64),
                index as u64,
                bits,
            );
            proof {
                let room = Region::field_room(before.len(), index as nat, bits as nat);
                let written = (place as nat) % pow2(room);
                assert(room == bits);
                lemma_pow2_pos(room);
                vstd::arithmetic::div_mod::lemma_mod_pos_bound(place as int, pow2(room) as int);
                lemma_splice_bound(
                    bit_string(before),
                    index as nat * bits as nat,
                    room,
                    written,
                    cells * bits as nat,
                );
            }
            proof {
                let now = all.restrict(positions@.take(i + 1).to_set());
                assert(positions@.take(i + 1).drop_last() =~= positions@.take(i as int));
                assert(positions@.take(i + 1).last() == block_pos);
                assert forall|k: nat| k < cells implies Region::spells_at(
                    #[trigger] Region::spec_field(block_states@, k, bits as nat),
                    views,
                    VolumeIterator::block_at(region_volume, k),
                    now,
                ) by {
                    Region::lemma_index_to_coords(size, k);
                    assert(k * bits < 64 * longs) by (nonlinear_arith)
                        requires
                            k + 1 <= cells,
                            cells * bits <= 64 * longs,
                            bits >= 1,
                    ;
                    let p = VolumeIterator::block_at(region_volume, k).unwrap();
                    assert(Region::spells_at(
                        Region::spec_field(before, k, bits as nat),
                        views,
                        VolumeIterator::block_at(region_volume, k),
                        done,
                    ));
                    if k == index {
                        assert(p == block_pos);
                        assert(positions@.take(i + 1).to_set().contains(block_pos));
                    } else {
                        assert(p != block_pos);
                        let wide = positions@.take(i + 1);
                        let narrow = positions@.take(i as int);
                        if wide.to_set().contains(p) {
                            let j = choose|j: int| 0 <= j < wide.len() && wide[j] == p;
                            assert(narrow[j] == p);
                            assert(narrow.to_set().contains(p));
                        }
                        if narrow.to_set().contains(p) {
                            let j = choose|j: int| 0 <= j < narrow.len() && narrow[j] == p;
                            assert(wide[j] == p);
                        }
                    }
                }
            }
            i = i + 1;
        }
        proof {
            assert(positions@.take(i as int) =~= positions@);
            assert(all.restrict(positions@.to_set()) =~= all);
        }
        block_states
    }
}

/// The blocks of a box with every position counted from the corner of the
/// box: what is read back of them from the packed array of that box.
pub open spec fn relative_to(
    blocks: Map<Vector3<i32>, BlockStateView>,
    volume: Volume,
) -> Map<Vector3<i32>, BlockStateView> {
    Map::new(
        |pos: Vector3<i32>|
            Region::in_span(volume.spec_size(), pos) && blocks.contains_key(
                moved_by(pos, volume.pos1),
            ),
        |pos: Vector3<i32>| blocks[moved_by(pos, volume.pos1)],
    )
}

/// The position `pos` moved by `origin`.
pub open spec fn moved_by(pos: Vector3<i32>, origin: Vector3<i32>) -> Vector3<i32> {
    Vector3 {
        x: (pos.x + origin.x) as i32,
        y: (pos.y + origin.y) as i32,
        z: (pos.z + origin.z) as i32,
    }
}

/// Unpacking undoes packing: an array that spells the blocks of a box, none
/// of them air, with a palette of theirs, is unpacked with that palette to
/// the same blocks, each at its place in the box, and to no others.
pub proof fn lemma_unpack_of_packed(
    words: Seq<i64>,
    bits: nat,
    palette: Seq<BlockStateView>,
    volume: Volume,
    blocks: Map<Vector3<i32>, BlockStateView>,
)
    requires
        bits >= 1,
        volume.is_positive(),
        volume.size_fits(),
        is_palette_of(palette, blocks),
        forall|p: Vector3<i32>| #[trigger] blocks.contains_key(p) ==> blocks[p] != air(),
        words.len() == Region::spec_word_count(volume.cells(), bits),
        Region::spells(words, bits, palette, volume, blocks),
    ensures
        Region::spec_unpack(words, palette, bits, volume.spec_size()) == relative_to(
            blocks,
            volume,
        ),
        Region::indices_in_palette(words, palette.len(), bits, volume.spec_size()),
{
    let size = volume.spec_size();
    let cells = volume.cells();
    let capacity = (words.len() * 64) / bits;
    lemma_abs_product(volume.extent().0, volume.extent().1, volume.extent().2);
    assert(cells == size.spec_volume());
    assert(capacity >= cells) by {
        vstd::arithmetic::div_mod::lemma_fundamental_div_mod((cells * bits + 63) as int, 64);
        vstd::arithmetic::div_mod::lemma_mod_pos_bound((cells * bits + 63) as int, 64);
        assert(words.len() * 64 >= cells * bits);
        vstd::arithmetic::div_mod::lemma_div_is_ordered(
            (cells * bits) as int,
            (words.len() * 64) as int,
            bits as int,
        );
        vstd::arithmetic::div_mod::lemma_div_multiples_vanish(cells as int, bits as int);
        assert(cells * bits == bits * cells) by (nonlinear_arith);
    }
    assert(Region::field_count(words.len(), bits, size) == cells);
    assert forall|k: nat| k < cells implies #[trigger] Region::spec_field(words, k, bits)
        < palette.len() by {
        Region::lemma_index_to_coords(size, k);
        assert(Region::spells_at(
            Region::spec_field(words, k, bits),
            palette,
            VolumeIterator::block_at(volume, k),
            blocks,
        ));
    }
    let unpacked = Region::spec_unpack(words, palette, bits, size);
    let moved = relative_to(blocks, volume);
    assert forall|q: Vector3<i32>|
        (#[trigger] unpacked.dom().contains(q)) == moved.dom().contains(q) && (
        unpacked.dom().contains(q) ==> unpacked[q] == moved[q]) by {
        if Region::in_span(size, q) {
            Region::lemma_coords_to_index(size, q);
            let k = Region::span_index(size, q) as nat;
            assert(VolumeIterator::block_at(volume, k) == Some(moved_by(q, volume.pos1)));
            assert(Region::spells_at(
                Region::spec_field(words, k, bits),
                palette,
                VolumeIterator::block_at(volume, k),
                blocks,
            ));
        }
    }
    assert(unpacked =~= moved);
}

/// Whether the tags are the palette entries of the states of `palette`, in order.
pub open spec fn are_entries_of(items: Seq<NbtTag>, palette: Seq<BlockStateView>) -> bool {
    &&& items.len() == palette.len()
    &&& forall|i: int|
        0 <= i < palette.len() ==> match tag_content(#[trigger] items[i]) {
            TagContent::Compound(data) => is_entry_of(data, palette[i]),
            _ => false,
        }
}

/// A list of palette entries is read as the palette that it was written
/// from, where every state of that palette is read back as it is.
pub proof fn lemma_palette_reads_back(items: Seq<NbtTag>, palette: Seq<BlockStateView>)
    requires
        are_entries_of(items, palette),
        forall|i: int| 0 <= i < palette.len() ==> (#[trigger] palette[i]).is_settled(),
    ensures
        spec_palette(items) == Ok::<Seq<BlockStateView>, BlockStateFailure>(palette),
    decreases items.len(),
{
    if items.len() == 0 {
        assert(palette =~= Seq::empty());
    } else {
        let n = items.len() - 1;
        assert forall|i: int| 0 <= i < palette.drop_last().len() implies match tag_content(
            #[trigger] items.drop_last()[i],
        ) {
            TagContent::Compound(data) => is_entry_of(data, palette.drop_last()[i]),
            _ => false,
        } by {
            assert(items.drop_last()[i] == items[i]);
        }
        assert forall|i: int| 0 <= i < palette.drop_last().len() implies (
        #[trigger] palette.drop_last()[i]).is_settled() by {
            assert(palette.drop_last()[i] == palette[i]);
        }
        lemma_palette_reads_back(items.drop_last(), palette.drop_last());
        assert(items.last() == items[n]);
        let data = tag_content(items[n])->Compound_0;
        crate::block_state::lemma_entry_reads_back(data, palette[n]);
        assert(palette[n].is_settled());
        assert(palette[n].read_back() == palette[n]);
        assert(palette.drop_last().push(palette[n]) =~= palette);
    }
}

/// Once a tag of the list fails, the list fails in the same way however
/// many tags follow.
pub proof fn lemma_palette_failure(items: Seq<NbtTag>, upto: int)
    requires
        0 <= upto <= items.len(),
        spec_palette(items.take(upto)) is Err,
    ensures
        spec_palette(items) == spec_palette(items.take(upto)),
    decreases items.len() - upto,
{
    if upto < items.len() {
        assert(items.take(upto + 1).drop_last() =~= items.take(upto));
        lemma_palette_failure(items, upto + 1);
    } else {
        assert(items.take(upto) =~= items);
    }
}

} // verus!

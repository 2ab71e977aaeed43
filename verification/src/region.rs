//! Regions of blocks.

use crate::bitstring::bit_string;
use crate::block_map::BlockMap;
use crate::block_state::{air, is_entry_of, BlockState, BlockStateView};
use crate::codec::{
    are_entries_of, is_palette_of, is_used, lemma_palette_reads_back, lemma_unpack_of_packed,
    relative_to, spec_palette, state_views,
};
use crate::error::{RegionFailure, RegionParseError};
use crate::nbt::{
    clone_list, compound_entries, field, get_tag, insert_tag, list_items, list_push, list_tag,
    long_array_tag, new_compound, new_list, tag_as_list, tag_as_long_array, tag_content,
    StructureKind, TagContent,
};
use crate::vector::{spec_vector, Vector3};
use crate::volume::Volume;
use quartz_nbt::{NbtCompound, NbtList};
use vstd::arithmetic::power2::pow2;
use vstd::prelude::*;
use vstd::string::StringExecFns;

verus! {

/// Represents a region of blocks
pub struct Region {
    /// The volume that the region was declared with
    ///
    /// May not reflect the actual space taken up when new blocks are inserted into the region. For that, use the [volume()](Region::volume) method
    pub volume: Volume,
    blocks: BlockMap,
    entities: Option<NbtList>,
    pending_block_ticks: Option<NbtList>,
    pending_fluid_ticks: Option<NbtList>,
    tile_entities: Option<NbtList>,
}

/// A region as a value.
pub struct RegionView {
    /// The volume that the region was declared with
    pub volume: Volume,
    /// The blocks that differ from air, by position
    pub blocks: Map<Vector3<i32>, BlockStateView>,
    /// The list of entities, kept as it was read
    pub entities: Option<NbtList>,
    /// The list of pending block ticks, kept as it was read
    pub pending_block_ticks: Option<NbtList>,
    /// The list of pending fluid ticks, kept as it was read
    pub pending_fluid_ticks: Option<NbtList>,
    /// The list of tile entities, kept as it was read
    pub tile_entities: Option<NbtList>,
}

impl View for Region {
    type V = RegionView;

    closed spec fn view(&self) -> RegionView {
        RegionView {
            volume: self.volume,
            blocks: self.blocks@,
            entities: self.entities,
            pending_block_ticks: self.pending_block_ticks,
            pending_fluid_ticks: self.pending_fluid_ticks,
            tile_entities: self.tile_entities,
        }
    }
}

/// A volume grown to cover the blocks at `positions`, one after the other.
pub open spec fn expand_over(start: Volume, positions: Seq<Vector3<i32>>) -> Volume
    decreases positions.len(),
{
    if positions.len() == 0 {
        start
    } else {
        expand_over(start, positions.drop_last()).spec_expand_to_fit(positions.last())
    }
}

/// Whether `bounds` is the least box that holds `start` and the blocks at
/// all of `positions`. This says nothing of the signs of its size.
pub open spec fn is_bounding_box(
    bounds: Volume,
    start: Volume,
    positions: Set<Vector3<i32>>,
) -> bool {
    &&& forall|p: Vector3<i32>| #[trigger] positions.contains(p) ==> bounds.contains(p)
    &&& bounds.lower().0 <= start.lower().0 && start.upper().0 <= bounds.upper().0
    &&& bounds.lower().1 <= start.lower().1 && start.upper().1 <= bounds.upper().1
    &&& bounds.lower().2 <= start.lower().2 && start.upper().2 <= bounds.upper().2
    &&& bounds.lower().0 == start.lower().0 || exists|p: Vector3<i32>| #[trigger]
        positions.contains(p) && p.x == bounds.lower().0
    &&& bounds.lower().1 == start.lower().1 || exists|p: Vector3<i32>| #[trigger]
        positions.contains(p) && p.y == bounds.lower().1
    &&& bounds.lower().2 == start.lower().2 || exists|p: Vector3<i32>| #[trigger]
        positions.contains(p) && p.z == bounds.lower().2
    &&& bounds.upper().0 == start.upper().0 || exists|p: Vector3<i32>| #[trigger]
        positions.contains(p) && p.x + 1 == bounds.upper().0
    &&& bounds.upper().1 == start.upper().1 || exists|p: Vector3<i32>| #[trigger]
        positions.contains(p) && p.y + 1 == bounds.upper().1
    &&& bounds.upper().2 == start.upper().2 || exists|p: Vector3<i32>| #[trigger]
        positions.contains(p) && p.z + 1 == bounds.upper().2
}

/// There is one least box only, up to the signs of its size.
pub proof fn lemma_bounding_box_unique(
    a: Volume,
    b: Volume,
    start: Volume,
    positions: Set<Vector3<i32>>,
)
    requires
        is_bounding_box(a, start, positions),
        is_bounding_box(b, start, positions),
    ensures
        a.lower() == b.lower(),
        a.upper() == b.upper(),
{
}

/// The names of the tags of a region differ from one another.
pub proof fn lemma_region_names()
    ensures
        "BlockStatePalette"@.len() == 17 && "BlockStatePalette"@[0] == 'B',
        "PendingBlockTicks"@.len() == 17 && "PendingBlockTicks"@[0] == 'P'
            && "PendingBlockTicks"@[7] == 'B',
        "PendingFluidTicks"@.len() == 17 && "PendingFluidTicks"@[0] == 'P'
            && "PendingFluidTicks"@[7] == 'F',
        "Entities"@.len() == 8 && "Entities"@[0] == 'E',
        "Position"@.len() == 8 && "Position"@[0] == 'P',
        "TileEntities"@.len() == 12,
        "BlockStates"@.len() == 11,
        "Size"@.len() == 4,
{
    reveal_strlit("BlockStatePalette");
    reveal_strlit("PendingBlockTicks");
    reveal_strlit("PendingFluidTicks");
    reveal_strlit("Entities");
    reveal_strlit("Position");
    reveal_strlit("TileEntities");
    reveal_strlit("BlockStates");
    reveal_strlit("Size");
}

/// The list that stands under `name` in a compound, if one does.
pub open spec fn payload(data: NbtCompound, name: Seq<char>) -> Option<NbtList> {
    match field(data, name) {
        Some(TagContent::List(list)) => Some(list),
        _ => None,
    }
}

/// What the tag of a list that is kept holds; no tag where none is kept.
pub open spec fn payload_tag(payload: Option<NbtList>) -> Option<TagContent> {
    match payload {
        Some(list) => Some(TagContent::List(list)),
        None => None,
    }
}

/// Whether a name is that of one of the four lists that a region keeps as
/// they were read.
pub open spec fn is_payload_name(name: Seq<char>) -> bool {
    name == "Entities"@ || name == "PendingBlockTicks"@ || name == "PendingFluidTicks"@ || name
        == "TileEntities"@
}

/// Whether a name is that of one of the tags of a region.
pub open spec fn is_region_name(name: Seq<char>) -> bool {
    is_payload_name(name) || name == "BlockStatePalette"@ || name == "BlockStates"@ || name
        == "Position"@ || name == "Size"@
}

/// Whether the tags of `list` are the palette entries of `palette`, in order.
pub open spec fn holds_palette(list: NbtList, palette: Seq<BlockStateView>) -> bool {
    &&& list_items(list).len() == palette.len()
    &&& forall|i: int|
        0 <= i < palette.len() ==> match tag_content(#[trigger] list_items(list)[i]) {
            TagContent::Compound(data) => is_entry_of(data, palette[i]),
            _ => false,
        }
}

/// Whether `doc` holds the blocks `blocks` of the box `volume`, by way of
/// the palette `palette`.
pub open spec fn holds_blocks(
    doc: NbtCompound,
    palette: Seq<BlockStateView>,
    blocks: Map<Vector3<i32>, BlockStateView>,
    volume: Volume,
) -> bool {
    &&& is_palette_of(palette, blocks)
    &&& field(doc, "BlockStatePalette"@) matches Some(TagContent::List(list)) && holds_palette(
        list,
        palette,
    )
    &&& field(doc, "BlockStates"@) matches Some(TagContent::LongArray(words)) && words.len()
        == Region::spec_word_count(volume.cells(), Region::spec_calculate_bits(palette.len()))
        && Region::spells(
        words,
        Region::spec_calculate_bits(palette.len()),
        palette,
        volume,
        blocks,
    ) && bit_string(words) < pow2(volume.cells() * Region::spec_calculate_bits(palette.len()))
}

/// Whether `doc` is a compound of the region `region`, its blocks packed
/// for the box `volume`. The order of the palette is left open.
#[verifier::opaque]
pub open spec fn describes(doc: NbtCompound, region: RegionView, volume: Volume) -> bool {
    &&& spec_vector(doc, "Position"@) == Ok::<Vector3<i32>, StructureKind>(volume.pos1)
    &&& spec_vector(doc, "Size"@) == Ok::<Vector3<i32>, StructureKind>(volume.spec_size())
    &&& field(doc, "Entities"@) == payload_tag(region.entities)
    &&& field(doc, "PendingBlockTicks"@) == payload_tag(region.pending_block_ticks)
    &&& field(doc, "PendingFluidTicks"@) == payload_tag(region.pending_fluid_ticks)
    &&& field(doc, "TileEntities"@) == payload_tag(region.tile_entities)
    &&& exists|palette: Seq<BlockStateView>| #[trigger]
        holds_blocks(doc, palette, region.blocks, volume)
    &&& forall|name: Seq<char>| #[trigger]
        compound_entries(doc).contains_key(name) ==> is_region_name(name)
}

/// The region that a compound stands for, or why it stands for none.
pub open spec fn spec_region(data: NbtCompound) -> Result<RegionView, RegionFailure> {
    match field(data, "BlockStatePalette"@) {
        None => Err(
            RegionFailure::NonexistentTag(StructureKind::MissingTag("BlockStatePalette"@)),
        ),
        Some(TagContent::List(list)) => match spec_palette(list_items(list)) {
            Err(e) => Err(RegionFailure::BlockState(e)),
            Ok(palette) => match field(data, "BlockStates"@) {
                None => Err(
                    RegionFailure::NonexistentTag(StructureKind::MissingTag("BlockStates"@)),
                ),
                Some(TagContent::LongArray(words)) => match spec_vector(data, "Size"@) {
                    Err(kind) => Err(RegionFailure::NonexistentTag(kind)),
                    Ok(size) => match spec_vector(data, "Position"@) {
                        Err(kind) => Err(RegionFailure::NonexistentTag(kind)),
                        Ok(position) => spec_region_of(data, palette, words, size, position),
                    },
                },
                Some(_) => Err(RegionFailure::WrongTag("BlockStates"@)),
            },
        },
        Some(_) => Err(RegionFailure::WrongTag("BlockStatePalette"@)),
    }
}

/// The region that the parts of a compound stand for. They stand for none
/// where the far corner of the volume cannot be held in 32 bits, or where a
/// field of the packed array is no index into the palette.
pub open spec fn spec_region_of(
    data: NbtCompound,
    palette: Seq<BlockStateView>,
    words: Seq<i64>,
    size: Vector3<i32>,
    position: Vector3<i32>,
) -> Result<RegionView, RegionFailure> {
    let bits = Region::spec_calculate_bits(palette.len());
    if !Volume::can_span(position, size) || !Region::indices_in_palette(
        words,
        palette.len(),
        bits,
        size,
    ) {
        Err(RegionFailure::Unknown)
    } else {
        Ok(
            RegionView {
                volume: Volume::spanning(position, size),
                blocks: Region::spec_unpack(words, palette, bits, size),
                entities: payload(data, "Entities"@),
                pending_block_ticks: payload(data, "PendingBlockTicks"@),
                pending_fluid_ticks: payload(data, "PendingFluidTicks"@),
                tile_entities: payload(data, "TileEntities"@),
            },
        )
    }
}

/// A region whose box stands at the origin is read back with the blocks
/// and the box that it was written with.
pub proof fn lemma_read_back_at_origin(region: RegionView)
    requires
        region.can_encode(),
        region.bounding_box().pos1 == (Vector3 { x: 0i32, y: 0i32, z: 0i32 }),
    ensures
        region.read_back().blocks == region.blocks,
        region.read_back().bounding_box() == region.bounding_box(),
{
    let bounds = region.bounding_box();
    region.lemma_encodable_box();
    let read = region.read_back();
    assert forall|q: Vector3<i32>|
        (#[trigger] read.blocks.dom().contains(q)) == region.blocks.dom().contains(q) && (
        read.blocks.dom().contains(q) ==> read.blocks[q] == region.blocks[q]) by {
        assert(crate::codec::moved_by(q, bounds.pos1) == q);
        if region.blocks.contains_key(q) {
            assert(bounds.contains(q));
        }
    }
    assert(read.blocks =~= region.blocks);
    assert(is_bounding_box(bounds, read.volume, read.blocks.dom()));
    read.lemma_bounding_box(bounds);
}

/// A region is read back from its compound with the box around it as its
/// volume, its blocks counted from the corner of that box, and its lists as
/// they were. This holds where no block is air and every state, air too, is
/// read back from its palette entry as it is.
pub proof fn lemma_region_reads_back(doc: NbtCompound, region: RegionView)
    requires
        region.can_encode(),
        region.is_sparse(),
        region.is_settled(),
        air().is_settled(),
        describes(doc, region, region.bounding_box()),
    ensures
        spec_region(doc) == Ok::<RegionView, RegionFailure>(region.read_back()),
{
    reveal(describes);
    let bounds = region.bounding_box();
    region.lemma_encodable_box();
    let palette = choose|palette: Seq<BlockStateView>| #[trigger]
        holds_blocks(doc, palette, region.blocks, bounds);
    let list = field(doc, "BlockStatePalette"@)->0->List_0;
    let words = field(doc, "BlockStates"@)->0->LongArray_0;
    let bits = Region::spec_calculate_bits(palette.len());
    let size = bounds.spec_size();
    assert forall|i: int| 0 <= i < palette.len() implies (#[trigger] palette[i]).is_settled() by {
        if i >= 1 {
            assert(is_used(region.blocks, palette[i]));
            let p = choose|p: Vector3<i32>| #[trigger]
                region.blocks.contains_key(p) && region.blocks[p] == palette[i];
            assert(region.blocks[p].is_settled());
        }
    }
    assert(are_entries_of(list_items(list), palette));
    lemma_palette_reads_back(list_items(list), palette);
    Region::lemma_required_bits(palette.len());
    lemma_unpack_of_packed(words, bits, palette, bounds, region.blocks);
    assert(Volume::can_span(bounds.pos1, size));
    assert(Volume::spanning(bounds.pos1, size) == bounds);
    assert(spec_region(doc) == spec_region_of(doc, palette, words, size, bounds.pos1));
}

impl RegionView {
    /// Whether the region can be written as a compound: its volume can be
    /// worked out, has a size that 32 bits hold on every axis, and has not
    /// more blocks than a 32-bit count holds.
    pub open spec fn can_encode(self) -> bool {
        &&& self.has_bounds()
        &&& exists|bounds: Volume| #[trigger]
            is_bounding_box(bounds, self.volume, self.blocks.dom()) && bounds.is_positive()
                && bounds.size_fits() && bounds.cells() <= i32::MAX
    }

    /// The least box, without a negative size, that holds the declared
    /// volume and every block. It is defined where `can_encode` holds.
    pub open spec fn bounding_box(self) -> Volume {
        choose|bounds: Volume| #[trigger]
            is_bounding_box(bounds, self.volume, self.blocks.dom()) && bounds.is_positive()
    }

    /// Whether no block of the region is air.
    pub open spec fn is_sparse(self) -> bool {
        forall|p: Vector3<i32>| #[trigger] self.blocks.contains_key(p) ==> self.blocks[p] != air()
    }

    /// Whether every block of the region has a state that is read back
    /// from its palette entry as it is.
    pub open spec fn is_settled(self) -> bool {
        forall|p: Vector3<i32>| #[trigger]
            self.blocks.contains_key(p) ==> self.blocks[p].is_settled()
    }

    /// The region as it is read back from its compound.
    pub open spec fn read_back(self) -> RegionView {
        RegionView {
            volume: self.bounding_box(),
            blocks: relative_to(self.blocks, self.bounding_box()),
            ..self
        }
    }

    /// The least box of a region that can be written has no negative size,
    /// a size that 32 bits hold, and not more blocks than a 32-bit count holds.
    pub proof fn lemma_encodable_box(self)
        requires
            self.can_encode(),
        ensures
            is_bounding_box(self.bounding_box(), self.volume, self.blocks.dom()),
            self.bounding_box().is_positive(),
            self.bounding_box().size_fits(),
            self.bounding_box().cells() <= i32::MAX,
    {
        let other = choose|other: Volume| #[trigger]
            is_bounding_box(other, self.volume, self.blocks.dom()) && other.is_positive()
                && other.size_fits() && other.cells() <= i32::MAX;
        self.lemma_bounding_box(other);
        assert(other.spec_make_size_positive() == other);
    }

    /// The least box is the volume of the region with its size made positive.
    pub proof fn lemma_bounding_box(self, bounds: Volume)
        requires
            is_bounding_box(bounds, self.volume, self.blocks.dom()),
        ensures
            self.bounding_box() == bounds.spec_make_size_positive(),
    {
        let positive = bounds.spec_make_size_positive();
        assert(positive.lower() == bounds.lower() && positive.upper() == bounds.upper());
        assert(is_bounding_box(positive, self.volume, self.blocks.dom()) && positive.is_positive());
        lemma_bounding_box_unique(
            self.bounding_box(),
            positive,
            self.volume,
            self.blocks.dom(),
        );
    }

    /// Whether the box around the region can be worked out in 32 bits: the
    /// far side of every block must be representable.
    pub open spec fn has_bounds(self) -> bool {
        forall|p: Vector3<i32>| #[trigger] self.blocks.contains_key(p) ==> Volume::can_fit(p)
    }

    /// Whether `bounds` is the volume of the region: the declared volume
    /// grown to cover every block, the blocks taken in some order.
    pub open spec fn has_volume(self, bounds: Volume) -> bool {
        &&& is_bounding_box(bounds, self.volume, self.blocks.dom())
        &&& exists|order: Seq<Vector3<i32>>|
            order.no_duplicates() && order.to_set() == self.blocks.dom() && bounds
                == #[trigger] expand_over(self.volume, order)
    }
}

impl Region {
    /// Create a new region
    pub fn new() -> (region: Region)
        ensures
            region@ == (RegionView {
                volume: Volume {
                    pos1: Vector3 { x: 0i32, y: 0i32, z: 0i32 },
                    pos2: Vector3 { x: 0i32, y: 0i32, z: 0i32 },
                },
                blocks: Map::empty(),
                entities: None,
                pending_block_ticks: None,
                pending_fluid_ticks: None,
                tile_entities: None,
            }),
    {
        Region {
            volume: Volume::default(),
            blocks: BlockMap::new(),
            entities: None,
            pending_block_ticks: None,
            pending_fluid_ticks: None,
            tile_entities: None,
        }
    }

    /// Calculates the volume taken up by a region including all the blocks in it
    pub fn volume(&self) -> (bounds: Volume)
        requires
            self@.has_bounds(),
        ensures
            self@.has_volume(bounds),
    {
        let positions = self.blocks.keys();
        let mut bounds = self.volume;
        let mut i: usize = 0;
        while i < positions.len()
            invariant
                i <= positions.len(),
                positions@.to_set() == self@.blocks.dom(),
                self@.has_bounds(),
                bounds == expand_over(self@.volume, positions@.take(i as int)),
                is_bounding_box(bounds, self@.volume, positions@.take(i as int).to_set()),
            decreases positions.len() - i,
        {
            let ghost before = bounds;
            let ghost seen = positions@.take(i as int);
            let p = positions[i];
            assert(positions@.to_set().contains(p));
            assert(positions@.take(i + 1).drop_last() =~= seen);
            bounds = bounds.expand_to_fit(p);
            proof {
                let now = positions@.take(i + 1);
                assert(now[i as int] == p);
                assert forall|q: Vector3<i32>| #[trigger] now.to_set().contains(q) implies bounds.contains(
                    q,
                ) by {
                    let j = choose|j: int| 0 <= j < now.len() && now[j] == q;
                    if j < i {
                        assert(seen[j] == q);
                        assert(seen.to_set().contains(q));
                    }
                }
                assert forall|q: Vector3<i32>| #[trigger] seen.to_set().contains(q) implies now.to_set().contains(
                    q,
                ) by {
                    let j = choose|j: int| 0 <= j < seen.len() && seen[j] == q;
                    assert(now[j] == q);
                }
                assert(now.to_set().contains(p));
            }
            i = i + 1;
        }
        proof {
            assert(positions@.take(i as int) =~= positions@);
        }
        bounds
    }

    /// Set a block state in the region
    pub fn set_block(&mut self, pos: Vector3<i32>, block: BlockState)
        ensures
            final(self)@ == (RegionView {
                blocks: if block@ == air() {
                    old(self)@.blocks.remove(pos)
                } else {
                    old(self)@.blocks.insert(pos, block@)
                },
                ..old(self)@
            }),
    {
        self.blocks.set(pos, block);
    }

    /// A read only map of all the blocks in the region, excluding air blocks
    pub fn blocks(&self) -> (blocks: &BlockMap)
        ensures
            blocks@ == self@.blocks,
            blocks.sparse(),
    {
        self.blocks.check_sparse();
        &self.blocks
    }

    /// The number of blocks in the region that are not air, or the
    /// greatest 32-bit count where there are more
    pub fn total_blocks(&self) -> (count: i32)
        ensures
            self@.blocks.dom().finite(),
            count == if self@.blocks.dom().len() <= i32::MAX {
                self@.blocks.dom().len() as int
            } else {
                i32::MAX as int
            },
    {
        let count = self.blocks.len();
        if count > i32::MAX as usize {
            i32::MAX
        } else {
            count as i32
        }
    }

    /// The list that stands under `name` in a compound, if one does.
    fn read_payload(data: &NbtCompound, name: &str) -> (list: Option<NbtList>)
        ensures
            list == payload(*data, name@),
    {
        match get_tag(data, name) {
            Ok(tag) => match tag_as_list(tag) {
                Some(list) => Some(clone_list(list)),
                None => None,
            },
            Err(_) => None,
        }
    }

    /// Read a region from its compound.
    pub fn new_from_nbt(data: NbtCompound) -> (r: Result<Region, RegionParseError>)
        ensures
            match r {
                Ok(region) => spec_region(data) == Ok::<RegionView, RegionFailure>(region@),
                Err(e) => spec_region(data) == Err::<RegionView, RegionFailure>(e@),
            },
    {
        let palette = match get_tag(&data, "BlockStatePalette") {
            Ok(tag) => match tag_as_list(tag) {
                Some(palette_list) => palette_list,
                None => {
                    return Err(
                        RegionParseError::WrongTag(String::from_str("BlockStatePalette")),
                    );
                },
            },
            Err(e) => {
                return Err(RegionParseError::from(e));
            },
        };
        let parsed_palette = match Region::parse_palette(palette) {
            Ok(parsed) => parsed,
            Err(e) => {
                return Err(RegionParseError::from(e));
            },
        };
        let blocks_long_array = match get_tag(&data, "BlockStates") {
            Ok(tag) => match tag_as_long_array(tag) {
                Some(array) => array,
                None => {
                    return Err(RegionParseError::WrongTag(String::from_str("BlockStates")));
                },
            },
            Err(e) => {
                return Err(RegionParseError::from(e));
            },
        };
        let size = match Vector3::from_nbt(&data, "Size") {
            Ok(size) => size,
            Err(e) => {
                return Err(RegionParseError::from(e));
            },
        };
        let position = match Vector3::from_nbt(&data, "Position") {
            Ok(position) => position,
            Err(e) => {
                return Err(RegionParseError::from(e));
            },
        };
        if !Region::spans(position, size) {
            return Err(RegionParseError::Unknown);
        }
        let bits = Region::calculate_bits(parsed_palette.len());
        let blocks = match Region::try_unpack_packed_array(
            blocks_long_array.as_slice(),
            &parsed_palette,
            bits,
            size,
        ) {
            Some(blocks) => blocks,
            None => {
                return Err(RegionParseError::Unknown);
            },
        };
        Ok(
            Region {
                volume: Volume::new(position, size),
                blocks,
                entities: Region::read_payload(&data, "Entities"),
                pending_block_ticks: Region::read_payload(&data, "PendingBlockTicks"),
                pending_fluid_ticks: Region::read_payload(&data, "PendingFluidTicks"),
                tile_entities: Region::read_payload(&data, "TileEntities"),
            },
        )
    }

    /// Whether a volume at `position` can have the size `size`.
    fn spans(position: Vector3<i32>, size: Vector3<i32>) -> (ok: bool)
        ensures
            ok == Volume::can_span(position, size),
    {
        let x = position.x as i64 + size.x as i64;
        let y = position.y as i64 + size.y as i64;
        let z = position.z as i64 + size.z as i64;
        let low = i32::MIN as i64;
        let high = i32::MAX as i64;
        low <= x && x <= high && low <= y && y <= high && low <= z && z <= high
    }

    /// Put `list`, where there is one, under `name` into a compound.
    fn write_payload(data: &mut NbtCompound, name: &str, list: &Option<NbtList>)
        ensures
            forall|key: Seq<char>|
                key != name@ ==> (#[trigger] compound_entries(*final(data)).contains_key(key))
                    == compound_entries(*old(data)).contains_key(key),
            forall|key: Seq<char>|
                key != name@ ==> (#[trigger] compound_entries(*final(data))[key])
                    == compound_entries(*old(data))[key],
            match *list {
                Some(kept) => field(*final(data), name@) == Some(TagContent::List(kept)),
                None => *final(data) == *old(data),
            },
    {
        if let Some(v) = list {
            insert_tag(data, name, list_tag(clone_list(v)));
        }
    }

    /// Put the lists that the region keeps as they were read into a compound.
    pub fn write_misc_data(&self, data: &mut NbtCompound)
        ensures
            forall|key: Seq<char>|
                !is_payload_name(key) ==> (#[trigger] compound_entries(*final(data)).contains_key(
                    key,
                )) == compound_entries(*old(data)).contains_key(key),
            forall|key: Seq<char>|
                !is_payload_name(key) ==> (#[trigger] compound_entries(*final(data))[key])
                    == compound_entries(*old(data))[key],
            self@.entities is Some ==> field(*final(data), "Entities"@) == payload_tag(
                self@.entities,
            ),
            self@.pending_block_ticks is Some ==> field(*final(data), "PendingBlockTicks"@)
                == payload_tag(self@.pending_block_ticks),
            self@.pending_fluid_ticks is Some ==> field(*final(data), "PendingFluidTicks"@)
                == payload_tag(self@.pending_fluid_ticks),
            self@.tile_entities is Some ==> field(*final(data), "TileEntities"@) == payload_tag(
                self@.tile_entities,
            ),
            self@.entities is None ==> field(*final(data), "Entities"@) == field(
                *old(data),
                "Entities"@,
            ),
            self@.pending_block_ticks is None ==> field(*final(data), "PendingBlockTicks"@)
                == field(*old(data), "PendingBlockTicks"@),
            self@.pending_fluid_ticks is None ==> field(*final(data), "PendingFluidTicks"@)
                == field(*old(data), "PendingFluidTicks"@),
            self@.tile_entities is None ==> field(*final(data), "TileEntities"@) == field(
                *old(data),
                "TileEntities"@,
            ),
    {
        proof {
            lemma_region_names();
        }
        Region::write_payload(data, "Entities", &self.entities);
        Region::write_payload(data, "PendingBlockTicks", &self.pending_block_ticks);
        Region::write_payload(data, "PendingFluidTicks", &self.pending_fluid_ticks);
        Region::write_payload(data, "TileEntities", &self.tile_entities);
    }

    /// Whether the region can be written as a compound.
    pub fn can_encode(&self) -> (ok: bool)
        ensures
            ok == self@.can_encode(),
    {
        let positions = self.blocks.keys();
        let mut i: usize = 0;
        while i < positions.len()
            invariant
                i <= positions.len(),
                positions@.to_set() == self@.blocks.dom(),
                forall|j: int| 0 <= j < i ==> Volume::can_fit(#[trigger] positions@[j]),
            decreases positions.len() - i,
        {
            let p = positions[i];
            if p.x == i32::MAX || p.y == i32::MAX || p.z == i32::MAX {
                assert(positions@.to_set().contains(p));
                assert(self@.blocks.contains_key(p) && !Volume::can_fit(p));
                return false;
            }
            i = i + 1;
        }
        proof {
            assert forall|p: Vector3<i32>| #[trigger] self@.blocks.contains_key(p) implies Volume::can_fit(
                p,
            ) by {
                assert(positions@.to_set().contains(p));
                let j = choose|j: int| 0 <= j < positions@.len() && positions@[j] == p;
                assert(Volume::can_fit(positions@[j]));
            }
        }
        let bounds = self.volume().make_size_positive();
        let x = bounds.pos2.x as i128 - bounds.pos1.x as i128;
        let y = bounds.pos2.y as i128 - bounds.pos1.y as i128;
        let z = bounds.pos2.z as i128 - bounds.pos1.z as i128;
        assert(0 <= x * y <= 0x1_0000_0000 * 0x1_0000_0000) by (nonlinear_arith)
            requires
                0 <= x <= 0x1_0000_0000,
                0 <= y <= 0x1_0000_0000,
        ;
        let layer = x * y;
        assert(0 <= layer * z <= 0x1_0000_0000_0000_0000 * 0x1_0000_0000) by (nonlinear_arith)
            requires
                0 <= layer <= 0x1_0000_0000_0000_0000,
                0 <= z <= 0x1_0000_0000,
        ;
        let cells = layer * z;
        let limit = i32::MAX as i128;
        let ok = x <= limit && y <= limit && z <= limit && cells <= limit;
        proof {
            assert(is_bounding_box(bounds, self@.volume, self@.blocks.dom()));
            assert(ok == (bounds.size_fits() && bounds.cells() <= i32::MAX));
            if self@.can_encode() {
                let other = choose|other: Volume| #[trigger]
                    is_bounding_box(other, self@.volume, self@.blocks.dom())
                        && other.is_positive() && other.size_fits() && other.cells() <= i32::MAX;
                lemma_bounding_box_unique(bounds, other, self@.volume, self@.blocks.dom());
                assert(other == bounds);
            }
        }
        ok
    }

    /// Write the region as a compound: the palette, the packed array of
    /// palette indices, the origin and size of the box that holds every
    /// block, and the lists that were kept as they were read. Gives the
    /// volume of the region with it.
    pub fn to_nbt(&self) -> (r: (NbtCompound, Volume))
        requires
            self@.can_encode(),
        ensures
            self@.has_volume(r.1),
            r.1.spec_make_size_positive() == self@.bounding_box(),
            describes(r.0, self@, self@.bounding_box()),
    {
        let mut out = new_compound();
        let palette = Region::generate_palette_nbt(&self.blocks);
        let ghost views = state_views(palette@);
        let mut palette_list = new_list();
        let mut i: usize = 0;
        while i < palette.len()
            invariant
                i <= palette.len(),
                views == state_views(palette@),
                list_items(palette_list).len() == i,
                forall|j: int|
                    0 <= j < i ==> match tag_content(#[trigger] list_items(palette_list)[j]) {
                        TagContent::Compound(data) => is_entry_of(data, views[j]),
                        _ => false,
                    },
            decreases palette.len() - i,
        {
            list_push(&mut palette_list, palette[i].to_nbt());
            i = i + 1;
        }
        proof {
            lemma_region_names();
        }
        insert_tag(&mut out, "BlockStatePalette", list_tag(palette_list));
        self.write_misc_data(&mut out);
        let volume = self.volume();
        let positive = volume.make_size_positive();
        proof {
            let other = choose|other: Volume| #[trigger]
                is_bounding_box(other, self@.volume, self@.blocks.dom()) && other.is_positive()
                    && other.size_fits() && other.cells() <= i32::MAX;
            assert(is_bounding_box(positive, self@.volume, self@.blocks.dom()));
            lemma_bounding_box_unique(positive, other, self@.volume, self@.blocks.dom());
            assert(other == positive);
            self@.lemma_bounding_box(volume);
            assert(Region::can_pack(self@.blocks, positive, views));
        }
        insert_tag(&mut out, "Position", positive.origin().to_nbt());
        insert_tag(&mut out, "Size", positive.size().to_nbt());
        let words = self.generate_block_states_nbt(positive, &palette);
        insert_tag(&mut out, "BlockStates", long_array_tag(words));
        proof {
            reveal(describes);
            assert(holds_blocks(out, views, self@.blocks, positive));
        }
        (out, volume)
    }
}

} // verus!

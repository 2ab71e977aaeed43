//! Schematics: named regions with the data that describes them.

use crate::coords::lemma_abs_product;
use crate::error::{LitematicParseError, SchematicFailure};
use crate::nbt::{
    clone_compound, compound_entries, compound_names, compound_tag, field, get_compound, get_int,
    get_long, get_str, get_tag, insert_tag, int_tag, long_tag, lookup_failure, new_compound,
    string_tag, tag_as_compound, tag_content, views, write_compressed, StructureKind, TagContent,
};
use crate::block_state::air;
use crate::region::{describes, lemma_region_reads_back, spec_region, Region, RegionView};
use crate::vector::{spec_vector, Vector3};
use crate::volume::Volume;
use quartz_nbt::io::NbtIoError;
use quartz_nbt::{NbtCompound, NbtTag};
use vstd::prelude::*;
use vstd::string::StringExecFns;

verus! {

/// A schematic: regions by name, and what is known of their making
pub struct Schematic {
    /// Who made the schematic
    pub author: String,
    /// What the schematic is
    pub description: String,
    /// The name of the schematic
    pub name: String,
    /// The number of regions that the schematic was read with
    pub region_count: i32,
    /// When the schematic was made
    pub time_created: i64,
    /// When the schematic was last changed
    pub time_modified: i64,
    /// The regions, each with its name
    pub regions: Vec<(String, Region)>,
    /// The version of the game data that the blocks are named in
    pub data_version: i32,
}

/// A schematic as a value.
pub struct SchematicView {
    /// Who made the schematic
    pub author: Seq<char>,
    /// What the schematic is
    pub description: Seq<char>,
    /// The name of the schematic
    pub name: Seq<char>,
    /// The number of regions that the schematic was read with
    pub region_count: i32,
    /// When the schematic was made
    pub time_created: i64,
    /// When the schematic was last changed
    pub time_modified: i64,
    /// The regions, each with its name
    pub regions: Seq<(Seq<char>, RegionView)>,
    /// The version of the game data that the blocks are named in
    pub data_version: i32,
}

/// The regions of a schematic as values, each with its name.
pub open spec fn region_views(regions: Seq<(String, Region)>) -> Seq<(Seq<char>, RegionView)> {
    Seq::new(regions.len(), |i: int| (regions[i].0@, regions[i].1@))
}

/// The names of the regions of a schematic.
pub open spec fn region_names(regions: Seq<(Seq<char>, RegionView)>) -> Seq<Seq<char>> {
    Seq::new(regions.len(), |i: int| regions[i].0)
}

impl View for Schematic {
    type V = SchematicView;

    open spec fn view(&self) -> SchematicView {
        SchematicView {
            author: self.author@,
            description: self.description@,
            name: self.name@,
            region_count: self.region_count,
            time_created: self.time_created,
            time_modified: self.time_modified,
            regions: region_views(self.regions@),
            data_version: self.data_version,
        }
    }
}

/// What stands in front of the regions of a schematic.
pub struct Header {
    /// Who made the schematic
    pub author: Seq<char>,
    /// What the schematic is
    pub description: Seq<char>,
    /// The name of the schematic
    pub name: Seq<char>,
    /// The number of regions
    pub region_count: i32,
    /// When the schematic was made
    pub time_created: i64,
    /// When the schematic was last changed
    pub time_modified: i64,
}

/// The text of the string tag called `name`, or what is wrong where there
/// is none.
pub open spec fn spec_text(data: NbtCompound, name: Seq<char>) -> Result<Seq<char>, StructureKind> {
    match field(data, name) {
        Some(TagContent::Text(text)) => Ok(text),
        _ => Err(lookup_failure(data, name, "String"@)),
    }
}

/// The value of the int tag called `name`, or what is wrong where there is none.
pub open spec fn spec_int(data: NbtCompound, name: Seq<char>) -> Result<i32, StructureKind> {
    match field(data, name) {
        Some(TagContent::Int(value)) => Ok(value),
        _ => Err(lookup_failure(data, name, "Int"@)),
    }
}

/// The value of the long tag called `name`, or what is wrong where there
/// is none.
pub open spec fn spec_long(data: NbtCompound, name: Seq<char>) -> Result<i64, StructureKind> {
    match field(data, name) {
        Some(TagContent::Long(value)) => Ok(value),
        _ => Err(lookup_failure(data, name, "Long"@)),
    }
}

/// What the tags `Author`, `Description`, `Name`, `RegionCount`,
/// `TimeCreated` and `TimeModified` of a compound hold, or what is wrong
/// with the first of them, in this order, that is missing or of another kind.
pub open spec fn spec_metadata(metadata: NbtCompound) -> Result<Header, StructureKind> {
    match spec_text(metadata, "Author"@) {
        Err(kind) => Err(kind),
        Ok(author) => match spec_text(metadata, "Description"@) {
            Err(kind) => Err(kind),
            Ok(description) => match spec_text(metadata, "Name"@) {
                Err(kind) => Err(kind),
                Ok(name) => match spec_int(metadata, "RegionCount"@) {
                    Err(kind) => Err(kind),
                    Ok(region_count) => match spec_long(metadata, "TimeCreated"@) {
                        Err(kind) => Err(kind),
                        Ok(time_created) => match spec_long(metadata, "TimeModified"@) {
                            Err(kind) => Err(kind),
                            Ok(time_modified) => Ok(
                                Header {
                                    author,
                                    description,
                                    name,
                                    region_count,
                                    time_created,
                                    time_modified,
                                },
                            ),
                        },
                    },
                },
            },
        },
    }
}

/// What stands in front of the regions in the root compound of a
/// schematic, or why the compound is no schematic: its version must be 5.
pub open spec fn spec_header(root: NbtCompound) -> Result<Header, SchematicFailure> {
    match spec_int(root, "Version"@) {
        Err(kind) => Err(SchematicFailure::NonexistentTag(kind)),
        Ok(version) => if version != 5 {
            Err(SchematicFailure::UnsupportedVersionNumber(version))
        } else {
            match field(root, "Metadata"@) {
                Some(TagContent::Compound(metadata)) => match spec_metadata(metadata) {
                    Ok(header) => Ok(header),
                    Err(kind) => Err(SchematicFailure::NonexistentTag(kind)),
                },
                _ => Err(
                    SchematicFailure::NonexistentTag(
                        lookup_failure(root, "Metadata"@, "Compound"@),
                    ),
                ),
            }
        },
    }
}

/// The region that the tag called `name` stands for, or why it stands for none.
pub open spec fn spec_region_entry(tag: NbtTag, name: Seq<char>) -> Result<
    RegionView,
    SchematicFailure,
> {
    match tag_content(tag) {
        TagContent::Compound(data) => match spec_region(data) {
            Ok(region) => Ok(region),
            Err(e) => Err(SchematicFailure::Region(e)),
        },
        _ => Err(SchematicFailure::WrongTag(name)),
    }
}

/// Whether `regions` are the regions of the root compound `root`: one for
/// each tag of its compound `Regions`, in any order.
pub open spec fn regions_read(root: NbtCompound, regions: Seq<(Seq<char>, RegionView)>) -> bool {
    field(root, "Regions"@) matches Some(TagContent::Compound(data)) && {
        &&& region_names(regions).no_duplicates()
        &&& region_names(regions).to_set() == compound_entries(data).dom()
        &&& forall|i: int|
            0 <= i < regions.len() ==> spec_region_entry(
                compound_entries(data)[(#[trigger] regions[i]).0],
                regions[i].0,
            ) == Ok::<RegionView, SchematicFailure>(regions[i].1)
    }
}

/// Whether the regions of the root compound `root` cannot be read, and
/// `failure` says why. Where more than one region cannot be read, any of
/// their failures may be the one.
pub open spec fn regions_fail(root: NbtCompound, failure: SchematicFailure) -> bool {
    match field(root, "Regions"@) {
        None => failure == SchematicFailure::NonexistentTag(
            StructureKind::MissingTag("Regions"@),
        ),
        Some(TagContent::Compound(data)) => exists|name: Seq<char>|
            compound_entries(data).contains_key(name) && #[trigger] spec_region_entry(
                compound_entries(data)[name],
                name,
            ) == Err::<RegionView, SchematicFailure>(failure),
        Some(_) => failure == SchematicFailure::WrongTag("Regions"@),
    }
}

/// Whether the root compound `root` is read as the schematic `schematic`.
pub open spec fn reads_as(root: NbtCompound, schematic: SchematicView) -> bool {
    &&& spec_header(root) == Ok::<Header, SchematicFailure>(
        Header {
            author: schematic.author,
            description: schematic.description,
            name: schematic.name,
            region_count: schematic.region_count,
            time_created: schematic.time_created,
            time_modified: schematic.time_modified,
        },
    )
    &&& regions_read(root, schematic.regions)
    &&& field(root, "MinecraftDataVersion"@) == Some(TagContent::Int(schematic.data_version))
}

/// Whether the root compound `root` cannot be read as a schematic, and
/// `failure` says why: what stands in front of the regions comes first,
/// then the regions, then the version of the game data.
pub open spec fn fails_as(root: NbtCompound, failure: SchematicFailure) -> bool {
    match spec_header(root) {
        Err(e) => failure == e,
        Ok(_) => regions_fail(root, failure) || {
            &&& exists|regions: Seq<(Seq<char>, RegionView)>| #[trigger] regions_read(root, regions)
            &&& spec_int(root, "MinecraftDataVersion"@) matches Err(kind) && failure
                == SchematicFailure::NonexistentTag(kind)
        },
    }
}

impl Schematic {
    /// Read a schematic from its root compound.
    pub fn from_nbt(parsed_data: &NbtCompound) -> (r: Result<Schematic, LitematicParseError>)
        ensures
            match r {
                Ok(schematic) => reads_as(*parsed_data, schematic@),
                Err(e) => fails_as(*parsed_data, e@),
            },
    {
        let version = match get_int(parsed_data, "Version") {
            Ok(version) => version,
            Err(e) => {
                return Err(LitematicParseError::from(e));
            },
        };
        if version != 5 {
            return Err(LitematicParseError::UnsupportedVersionNumber(version));
        }
        let metadata = match get_compound(parsed_data, "Metadata") {
            Ok(metadata) => metadata,
            Err(e) => {
                return Err(LitematicParseError::from(e));
            },
        };
        let author = match get_str(metadata, "Author") {
            Ok(text) => String::from_str(text),
            Err(e) => {
                return Err(LitematicParseError::from(e));
            },
        };
        let description = match get_str(metadata, "Description") {
            Ok(text) => String::from_str(text),
            Err(e) => {
                return Err(LitematicParseError::from(e));
            },
        };
        let name = match get_str(metadata, "Name") {
            Ok(text) => String::from_str(text),
            Err(e) => {
                return Err(LitematicParseError::from(e));
            },
        };
        let region_count = match get_int(metadata, "RegionCount") {
            Ok(count) => count,
            Err(e) => {
                return Err(LitematicParseError::from(e));
            },
        };
        let time_created = match get_long(metadata, "TimeCreated") {
            Ok(time) => time,
            Err(e) => {
                return Err(LitematicParseError::from(e));
            },
        };
        let time_modified = match get_long(metadata, "TimeModified") {
            Ok(time) => time,
            Err(e) => {
                return Err(LitematicParseError::from(e));
            },
        };
        let regions = match Schematic::parse_regions(parsed_data) {
            Ok(regions) => regions,
            Err(e) => {
                return Err(e);
            },
        };
        let data_version = match get_int(parsed_data, "MinecraftDataVersion") {
            Ok(version) => version,
            Err(e) => {
                return Err(LitematicParseError::from(e));
            },
        };
        Ok(
            Schematic {
                author,
                description,
                name,
                region_count,
                time_created,
                time_modified,
                regions,
                data_version,
            },
        )
    }

    /// Read the regions of a schematic from its root compound.
    pub fn parse_regions(data: &NbtCompound) -> (r: Result<
        Vec<(String, Region)>,
        LitematicParseError,
    >)
        ensures
            match r {
                Ok(regions) => regions_read(*data, region_views(regions@)),
                Err(e) => regions_fail(*data, e@),
            },
    {
        let regions_nbt = match get_tag(data, "Regions") {
            Ok(tag) => match tag_as_compound(tag) {
                Some(regions_nbt) => regions_nbt,
                None => {
                    return Err(LitematicParseError::WrongTag(String::from_str("Regions")));
                },
            },
            Err(e) => {
                return Err(LitematicParseError::from(e));
            },
        };
        let names = compound_names(regions_nbt);
        let mut regions_parsed: Vec<(String, Region)> = Vec::new();
        let mut i: usize = 0;
        while i < names.len()
            invariant
                i <= names.len(),
                field(*data, "Regions"@) == Some(TagContent::Compound(*regions_nbt)),
                views(names@).to_set() == compound_entries(*regions_nbt).dom(),
                views(names@).no_duplicates(),
                regions_parsed@.len() == i,
                forall|j: int|
                    0 <= j < i ==> (#[trigger] regions_parsed@[j]).0@ == names@[j]@
                        && spec_region_entry(
                        compound_entries(*regions_nbt)[names@[j]@],
                        names@[j]@,
                    ) == Ok::<RegionView, SchematicFailure>(regions_parsed@[j].1@),
            decreases names.len() - i,
        {
            let name = &names[i];
            assert(views(names@)[i as int] == name@);
            assert(views(names@).to_set().contains(name@));
            let tag = match get_tag(regions_nbt, name.as_str()) {
                Ok(tag) => tag,
                Err(e) => {
                    return Err(LitematicParseError::from(e));
                },
            };
            match tag_as_compound(tag) {
                Some(region) => match Region::new_from_nbt(clone_compound(region)) {
                    Ok(parsed) => {
                        regions_parsed.push((name.clone(), parsed));
                    },
                    Err(e) => {
                        let failure = LitematicParseError::from(e);
                        assert(spec_region_entry(
                            compound_entries(*regions_nbt)[name@],
                            name@,
                        ) == Err::<RegionView, SchematicFailure>(failure@));
                        return Err(failure);
                    },
                },
                None => {
                    let failure = LitematicParseError::WrongTag(name.clone());
                    assert(spec_region_entry(compound_entries(*regions_nbt)[name@], name@)
                        == Err::<RegionView, SchematicFailure>(failure@));
                    return Err(failure);
                },
            }
            i = i + 1;
        }
        proof {
            let read = region_views(regions_parsed@);
            assert(region_names(read) =~= views(names@));
            assert forall|j: int| 0 <= j < read.len() implies spec_region_entry(
                compound_entries(*regions_nbt)[(#[trigger] read[j]).0],
                read[j].0,
            ) == Ok::<RegionView, SchematicFailure>(read[j].1) by {
                assert(regions_parsed@[j].0@ == names@[j]@);
            }
        }
        Ok(regions_parsed)
    }
}

/// The least boxes of the regions of a schematic, in their order.
pub open spec fn region_boxes(regions: Seq<(Seq<char>, RegionView)>) -> Seq<Volume> {
    Seq::new(regions.len(), |i: int| regions[i].1.bounding_box())
}

/// The box that is written as the enclosing box of a schematic: the first
/// box grown to fit each of the others in turn; the empty box at the origin
/// where there is none.
pub open spec fn enclosing(boxes: Seq<Volume>) -> Volume
    decreases boxes.len(),
{
    if boxes.len() == 0 {
        Volume {
            pos1: Vector3 { x: 0i32, y: 0i32, z: 0i32 },
            pos2: Vector3 { x: 0i32, y: 0i32, z: 0i32 },
        }
    } else if boxes.len() == 1 {
        boxes[0]
    } else {
        enclosing(boxes.drop_last()).spec_expand_to_fit_volume(boxes.last())
    }
}

/// Whether the enclosing box can be worked out in 32 bits.
pub open spec fn can_enclose(boxes: Seq<Volume>) -> bool {
    forall|i: int| 1 <= i < boxes.len() ==> Volume::can_fit_volume(#[trigger] boxes[i])
}

/// The number of blocks of all regions together.
pub open spec fn block_total(regions: Seq<(Seq<char>, RegionView)>) -> nat
    decreases regions.len(),
{
    if regions.len() == 0 {
        0
    } else {
        block_total(regions.drop_last()) + regions.last().1.blocks.dom().len()
    }
}

/// The regions up to some place have no more blocks than all of them.
pub proof fn lemma_block_total_grows(regions: Seq<(Seq<char>, RegionView)>, upto: int)
    requires
        0 <= upto <= regions.len(),
    ensures
        block_total(regions.take(upto)) <= block_total(regions),
    decreases regions.len() - upto,
{
    if upto < regions.len() {
        assert(regions.take(upto + 1).drop_last() =~= regions.take(upto));
        lemma_block_total_grows(regions, upto + 1);
    } else {
        assert(regions.take(upto) =~= regions);
    }
}

/// The names of the tags of a schematic differ from one another.
pub proof fn lemma_schematic_names()
    ensures
        "Version"@.len() == 7 && "Version"@[0] == 'V',
        "Regions"@.len() == 7 && "Regions"@[0] == 'R',
        "Metadata"@.len() == 8,
        "MinecraftDataVersion"@.len() == 20,
        "Name"@.len() == 4,
        "Author"@.len() == 6,
        "TimeModified"@.len() == 12,
        "EnclosingSize"@.len() == 13,
        "Description"@.len() == 11 && "Description"@[0] == 'D',
        "RegionCount"@.len() == 11 && "RegionCount"@[0] == 'R',
        "TimeCreated"@.len() == 11 && "TimeCreated"@[0] == 'T' && "TimeCreated"@[1] == 'i',
        "TotalBlocks"@.len() == 11 && "TotalBlocks"@[0] == 'T' && "TotalBlocks"@[1] == 'o'
            && "TotalBlocks"@[5] == 'B',
        "TotalVolume"@.len() == 11 && "TotalVolume"@[0] == 'T' && "TotalVolume"@[1] == 'o'
            && "TotalVolume"@[5] == 'V',
{
    reveal_strlit("Version");
    reveal_strlit("Regions");
    reveal_strlit("Metadata");
    reveal_strlit("MinecraftDataVersion");
    reveal_strlit("Name");
    reveal_strlit("Author");
    reveal_strlit("TimeModified");
    reveal_strlit("EnclosingSize");
    reveal_strlit("Description");
    reveal_strlit("RegionCount");
    reveal_strlit("TimeCreated");
    reveal_strlit("TotalBlocks");
    reveal_strlit("TotalVolume");
}

/// Whether a name is that of one of the tags under `Metadata`.
pub open spec fn is_metadata_name(name: Seq<char>) -> bool {
    name == "Name"@ || name == "Author"@ || name == "Description"@ || name == "RegionCount"@
        || name == "TimeCreated"@ || name == "TimeModified"@ || name == "TotalBlocks"@ || name
        == "EnclosingSize"@ || name == "TotalVolume"@
}

/// Whether `metadata` is the compound `Metadata` of the schematic: what is
/// known of its making, the number of its regions and of their blocks, and
/// the size and the number of blocks of the box that encloses them.
pub open spec fn is_metadata_of(metadata: NbtCompound, schematic: SchematicView) -> bool {
    let bounds = enclosing(region_boxes(schematic.regions)).spec_make_size_positive();
    metadata_holds(
        metadata,
        schematic,
        schematic.regions.len() as i32,
        block_total(schematic.regions) as i32,
        bounds.spec_size(),
        bounds.cells() as i32,
    )
}

/// Whether `data` is the compound `Regions` of the regions `regions`: each
/// region under its name, and nothing else.
pub open spec fn holds_regions(data: NbtCompound, regions: Seq<(Seq<char>, RegionView)>) -> bool {
    holds_regions_upto(data, regions, regions.len() as int)
}

/// Whether `root` is the root compound of the schematic.
pub open spec fn is_document_of(root: NbtCompound, schematic: SchematicView) -> bool {
    &&& field(root, "Version"@) == Some(TagContent::Int(5))
    &&& field(root, "MinecraftDataVersion"@) == Some(TagContent::Int(schematic.data_version))
    &&& field(root, "Metadata"@) matches Some(TagContent::Compound(metadata)) && is_metadata_of(
        metadata,
        schematic,
    )
    &&& field(root, "Regions"@) matches Some(TagContent::Compound(data)) && holds_regions(
        data,
        schematic.regions,
    )
    &&& forall|name: Seq<char>| #[trigger]
        compound_entries(root).contains_key(name) ==> name == "Version"@ || name
            == "MinecraftDataVersion"@ || name == "Metadata"@ || name == "Regions"@
}

/// What stands in front of the regions is read back from the root
/// compound of a schematic as it was written, the number of regions being
/// the number of those written.
pub proof fn lemma_header_reads_back(root: NbtCompound, schematic: SchematicView)
    requires
        is_document_of(root, schematic),
    ensures
        spec_header(root) == Ok::<Header, SchematicFailure>(
            Header {
                author: schematic.author,
                description: schematic.description,
                name: schematic.name,
                region_count: schematic.regions.len() as i32,
                time_created: schematic.time_created,
                time_modified: schematic.time_modified,
            },
        ),
{
}

/// A root compound that a schematic was written as is read without
/// failure, where no block is air and every state, air too, is read back
/// from its palette entry as it is.
pub proof fn lemma_written_is_read(
    root: NbtCompound,
    written: SchematicView,
    failure: SchematicFailure,
)
    requires
        written.can_encode(),
        written.is_settled(),
        air().is_settled(),
        is_document_of(root, written),
    ensures
        !fails_as(root, failure),
{
    lemma_header_reads_back(root, written);
    let data = field(root, "Regions"@)->0->Compound_0;
    assert forall|name: Seq<char>| compound_entries(data).contains_key(name) implies (
    #[trigger] spec_region_entry(compound_entries(data)[name], name)) is Ok by {
        lemma_region_entry_reads_back(data, written, name);
    }
}

/// The tag of a region in the compound `Regions` of a written schematic
/// stands for the region as it is read back.
pub proof fn lemma_region_entry_reads_back(
    data: NbtCompound,
    written: SchematicView,
    name: Seq<char>,
)
    requires
        written.can_encode(),
        written.is_settled(),
        air().is_settled(),
        holds_regions(data, written.regions),
        compound_entries(data).contains_key(name),
    ensures
        exists|i: int|
            0 <= i < written.regions.len() && (#[trigger] written.regions[i]).0 == name
                && spec_region_entry(compound_entries(data)[name], name) == Ok::<
                RegionView,
                SchematicFailure,
            >(written.regions[i].1.read_back()),
{
    let names = region_names(written.regions);
    assert(names.take(written.regions.len() as int) =~= names);
    assert(names.to_set().contains(name));
    let i = choose|i: int| 0 <= i < names.len() && names[i] == name;
    assert(written.regions[i].0 == name);
    let region = field(data, written.regions[i].0)->0->Compound_0;
    assert(written.regions[i].1.can_encode());
    lemma_region_reads_back(region, written.regions[i].1);
}

/// A schematic is read back from the root compound that it was written as
/// with what is known of its making, the number of its regions, and each
/// region under its name as that region is read back. This holds where no
/// block is air and every state, air too, is read back from its palette
/// entry as it is.
pub proof fn lemma_schematic_reads_back(
    root: NbtCompound,
    written: SchematicView,
    read: SchematicView,
)
    requires
        written.can_encode(),
        written.is_settled(),
        air().is_settled(),
        is_document_of(root, written),
        reads_as(root, read),
    ensures
        read.author == written.author,
        read.description == written.description,
        read.name == written.name,
        read.time_created == written.time_created,
        read.time_modified == written.time_modified,
        read.data_version == written.data_version,
        read.region_count == written.regions.len(),
        read.regions.len() == written.regions.len(),
        region_names(read.regions).to_set() == region_names(written.regions).to_set(),
        forall|j: int|
            0 <= j < read.regions.len() ==> exists|i: int|
                0 <= i < written.regions.len() && (#[trigger] written.regions[i]).0
                    == read.regions[j].0 && (#[trigger] read.regions[j]).1
                    == written.regions[i].1.read_back(),
{
    lemma_header_reads_back(root, written);
    let data = field(root, "Regions"@)->0->Compound_0;
    let names = region_names(written.regions);
    let found = region_names(read.regions);
    assert(names.take(written.regions.len() as int) =~= names);
    names.unique_seq_to_set();
    found.unique_seq_to_set();
    assert forall|j: int| 0 <= j < read.regions.len() implies exists|i: int|
        0 <= i < written.regions.len() && (#[trigger] written.regions[i]).0 == read.regions[j].0
            && (#[trigger] read.regions[j]).1 == written.regions[i].1.read_back() by {
        let name = read.regions[j].0;
        assert(found[j] == name);
        assert(found.to_set().contains(name));
        lemma_region_entry_reads_back(data, written, name);
    }
}

impl SchematicView {
    /// Whether no block of the schematic is air and every block has a state
    /// that is read back from its palette entry as it is.
    pub open spec fn is_settled(self) -> bool {
        forall|i: int|
            0 <= i < self.regions.len() ==> (#[trigger] self.regions[i]).1.is_sparse()
                && self.regions[i].1.is_settled()
    }

    /// Whether the schematic can be written as a compound: no two regions
    /// have one name, every region can be written, and the counts and sizes
    /// that are written with them can be held in 32 bits.
    pub open spec fn can_encode(self) -> bool {
        let bounds = enclosing(region_boxes(self.regions));
        &&& region_names(self.regions).no_duplicates()
        &&& self.regions.len() <= i32::MAX
        &&& forall|i: int| 0 <= i < self.regions.len() ==> (#[trigger] self.regions[i]).1.can_encode()
        &&& block_total(self.regions) <= i32::MAX
        &&& can_enclose(region_boxes(self.regions))
        &&& bounds.spec_make_size_positive().size_fits()
        &&& bounds.cells() <= i32::MAX
    }
}

/// Whether no two regions have one name.
fn names_differ(regions: &Vec<(String, Region)>) -> (ok: bool)
    ensures
        ok == region_names(region_views(regions@)).no_duplicates(),
{
    let ghost names = region_names(region_views(regions@));
    let mut i: usize = 0;
    while i < regions.len()
        invariant
            i <= regions.len(),
            names == region_names(region_views(regions@)),
            forall|a: int, b: int| 0 <= a < b < i ==> names[a] != names[b],
        decreases regions.len() - i,
    {
        let mut j: usize = 0;
        while j < i
            invariant
                j <= i < regions.len(),
                names == region_names(region_views(regions@)),
                forall|a: int| 0 <= a < j ==> names[a] != names[i as int],
            decreases i - j,
        {
            if regions[j].0 == regions[i].0 {
                assert(names[j as int] == names[i as int]);
                return false;
            }
            j = j + 1;
        }
        i = i + 1;
    }
    true
}

/// The first `upto + 1` elements of a sequence are, as a set, the first
/// `upto` with the element at `upto` put in.
pub proof fn lemma_take_one_more(names: Seq<Seq<char>>, upto: int)
    requires
        0 <= upto < names.len(),
    ensures
        names.take(upto + 1).to_set() == names.take(upto).to_set().insert(names[upto]),
{
    let wide = names.take(upto + 1);
    let narrow = names.take(upto);
    assert forall|n: Seq<char>|
        wide.to_set().contains(n) == narrow.to_set().insert(names[upto]).contains(n) by {
        if wide.to_set().contains(n) {
            let j = choose|j: int| 0 <= j < wide.len() && wide[j] == n;
            if j < upto {
                assert(narrow[j] == n);
            }
        }
        if narrow.to_set().contains(n) {
            let j = choose|j: int| 0 <= j < narrow.len() && narrow[j] == n;
            assert(wide[j] == n);
        }
        assert(wide[upto] == names[upto]);
    }
    assert(wide.to_set() =~= narrow.to_set().insert(names[upto]));
}

/// Whether `data` holds the first `upto` of the regions `regions`, each
/// under its name, and nothing else.
pub open spec fn holds_regions_upto(
    data: NbtCompound,
    regions: Seq<(Seq<char>, RegionView)>,
    upto: int,
) -> bool {
    &&& compound_entries(data).dom() == region_names(regions).take(upto).to_set()
    &&& forall|i: int|
        0 <= i < upto ==> match field(data, (#[trigger] regions[i]).0) {
            Some(TagContent::Compound(region)) => describes(
                region,
                regions[i].1,
                regions[i].1.bounding_box(),
            ),
            _ => false,
        }
}

/// Putting one more region under its name, which no earlier region has,
/// leaves the earlier regions as they stand.
pub proof fn lemma_one_more_region(
    before: NbtCompound,
    after: NbtCompound,
    tag: NbtTag,
    encoded: NbtCompound,
    regions: Seq<(Seq<char>, RegionView)>,
    upto: int,
)
    requires
        0 <= upto < regions.len(),
        region_names(regions).no_duplicates(),
        holds_regions_upto(before, regions, upto),
        compound_entries(after) == compound_entries(before).insert(regions[upto].0, tag),
        tag_content(tag) == TagContent::Compound(encoded),
        describes(encoded, regions[upto].1, regions[upto].1.bounding_box()),
    ensures
        holds_regions_upto(after, regions, upto + 1),
{
    let names = region_names(regions);
    lemma_take_one_more(names, upto);
    assert(names[upto] == regions[upto].0);
    assert(compound_entries(after).dom() =~= names.take(upto + 1).to_set());
    assert forall|i: int| 0 <= i < upto + 1 implies match field(after, (#[trigger] regions[i]).0) {
        Some(TagContent::Compound(region)) => describes(
            region,
            regions[i].1,
            regions[i].1.bounding_box(),
        ),
        _ => false,
    } by {
        if i < upto {
            assert(names[i] != names[upto]);
            assert(names[i] == regions[i].0);
            assert(field(after, regions[i].0) == field(before, regions[i].0));
        }
    }
}

/// Whether the regions can be written together: each can be written, and
/// the number of their blocks and the box around them can be worked out in
/// 32 bits.
pub open spec fn can_encode_regions(regions: Seq<(Seq<char>, RegionView)>) -> bool {
    &&& forall|i: int| 0 <= i < regions.len() ==> (#[trigger] regions[i]).1.can_encode()
    &&& block_total(regions) <= i32::MAX
    &&& can_enclose(region_boxes(regions))
}

/// Whether `metadata` is a compound `Metadata` with the given counts and size.
pub open spec fn metadata_holds(
    metadata: NbtCompound,
    schematic: SchematicView,
    region_count: i32,
    total_blocks: i32,
    enclosing_size: Vector3<i32>,
    total_volume: i32,
) -> bool {
    &&& field(metadata, "Name"@) == Some(TagContent::Text(schematic.name))
    &&& field(metadata, "Author"@) == Some(TagContent::Text(schematic.author))
    &&& field(metadata, "Description"@) == Some(TagContent::Text(schematic.description))
    &&& field(metadata, "TimeCreated"@) == Some(TagContent::Long(schematic.time_created))
    &&& field(metadata, "TimeModified"@) == Some(TagContent::Long(schematic.time_modified))
    &&& field(metadata, "RegionCount"@) == Some(TagContent::Int(region_count))
    &&& field(metadata, "TotalBlocks"@) == Some(TagContent::Int(total_blocks))
    &&& field(metadata, "TotalVolume"@) == Some(TagContent::Int(total_volume))
    &&& spec_vector(metadata, "EnclosingSize"@) == Ok::<Vector3<i32>, StructureKind>(
        enclosing_size,
    )
    &&& forall|name: Seq<char>| #[trigger]
        compound_entries(metadata).contains_key(name) ==> is_metadata_name(name)
}

impl Schematic {
    /// Write the regions, each under its name, into one compound, and work
    /// out the box around them and the number of their blocks; nothing
    /// where that cannot be done.
    fn encode_regions(&self) -> (r: Option<(NbtCompound, Volume, i32)>)
        requires
            region_names(self@.regions).no_duplicates(),
        ensures
            r is Some <==> can_encode_regions(self@.regions),
            r matches Some((data, bounds, blocks)) ==> holds_regions(data, self@.regions)
                && bounds == enclosing(region_boxes(self@.regions)) && blocks == block_total(
                self@.regions,
            ),
    {
        let ghost all = region_views(self.regions@);
        let ghost boxes = region_boxes(all);
        let mut regions = new_compound();
        let mut total_volume = Volume::default();
        let mut total_blocks: u128 = 0;
        let mut i: usize = 0;
        proof {
            assert(all.take(0) =~= Seq::empty());
            assert(boxes.take(0) =~= Seq::empty());
            assert(region_names(all).take(0).to_set() =~= Set::empty());
            assert(compound_entries(regions).dom() =~= Set::empty());
        }
        while i < self.regions.len()
            invariant
                i <= self.regions.len(),
                all == region_views(self.regions@),
                boxes == region_boxes(all),
                region_names(all).no_duplicates(),
                total_blocks == block_total(all.take(i as int)),
                total_blocks <= i32::MAX,
                total_volume == enclosing(boxes.take(i as int)),
                can_enclose(boxes.take(i as int)),
                forall|j: int| 0 <= j < i ==> (#[trigger] all[j]).1.can_encode(),
                holds_regions_upto(regions, all, i as int),
            decreases self.regions.len() - i,
        {
            let ghost before = regions;
            let name = &self.regions[i].0;
            let region = &self.regions[i].1;
            assert(all[i as int] == (name@, region@));
            assert(boxes[i as int] == region@.bounding_box());
            assert(all.take(i + 1).drop_last() =~= all.take(i as int));
            assert(boxes.take(i + 1).drop_last() =~= boxes.take(i as int));
            if !region.can_encode() {
                return None;
            }
            let count = region.blocks().len();
            if total_blocks + count as u128 > i32::MAX as u128 {
                proof {
                    lemma_block_total_grows(all, i + 1);
                }
                return None;
            }
            total_blocks = total_blocks + count as u128;
            let (encoded, volume) = region.to_nbt();
            let bounds = volume.make_size_positive();
            if i == 0 {
                total_volume = bounds;
            } else {
                if bounds.pos1.x == i32::MAX || bounds.pos1.y == i32::MAX || bounds.pos1.z
                    == i32::MAX || bounds.pos2.x == i32::MIN || bounds.pos2.y == i32::MIN
                    || bounds.pos2.z == i32::MIN {
                    assert(!Volume::can_fit_volume(boxes[i as int]));
                    return None;
                }
                total_volume = total_volume.expand_to_fit_volume(bounds);
            }
            let tag = compound_tag(encoded);
            insert_tag(&mut regions, name.as_str(), tag);
            proof {
                lemma_one_more_region(before, regions, tag, encoded, all, i as int);
                assert forall|j: int| 1 <= j < boxes.take(i + 1).len() implies Volume::can_fit_volume(
                    #[trigger] boxes.take(i + 1)[j],
                ) by {
                    if j < i {
                        assert(boxes.take(i as int)[j] == boxes[j]);
                    }
                }
            }
            i = i + 1;
        }
        proof {
            assert(all.take(i as int) =~= all);
            assert(boxes.take(i as int) =~= boxes);
            assert(region_names(all).take(i as int) =~= region_names(all));
        }
        Some((regions, total_volume, total_blocks as i32))
    }

    /// The size and the number of blocks of a box, its size made positive;
    /// nothing where 32 bits do not hold them.
    fn measure(total: Volume) -> (r: Option<(Vector3<i32>, i32)>)
        ensures
            r is Some <==> total.spec_make_size_positive().size_fits() && total.cells()
                <= i32::MAX,
            r matches Some((size, cells)) ==> size == total.spec_make_size_positive().spec_size()
                && cells == total.cells(),
            total.spec_make_size_positive().cells() == total.cells(),
    {
        let bounds = total.make_size_positive();
        let x = bounds.pos2.x as i128 - bounds.pos1.x as i128;
        let y = bounds.pos2.y as i128 - bounds.pos1.y as i128;
        let z = bounds.pos2.z as i128 - bounds.pos1.z as i128;
        assert(0 <= x * y <= 0x1_0000_0000 * 0x1_0000_0000) by (nonlinear_arith)
            requires
                0 <= x <= 0x1_0000_0000,
                0 <= y <= 0x1_0000_0000,
        ;
        let layer = x * y;
        assert(0 <= layer * z <= 0x1_0000_0000_0000_0000 * 0x1_0000_0000) by (nonlinear_arith)
            requires
                0 <= layer <= 0x1_0000_0000_0000_0000,
                0 <= z <= 0x1_0000_0000,
        ;
        let cells = layer * z;
        let limit = i32::MAX as i128;
        proof {
            lemma_abs_product(total.extent().0, total.extent().1, total.extent().2);
            lemma_abs_product(bounds.extent().0, bounds.extent().1, bounds.extent().2);
            assert(bounds.cells() == total.cells());
            assert(cells == bounds.cells());
        }
        if !(x <= limit && y <= limit && z <= limit && cells <= limit) {
            return None;
        }
        Some((bounds.size(), cells as i32))
    }

    /// The compound `Metadata` of the schematic with the given counts and size.
    fn write_metadata(
        &self,
        total_blocks: i32,
        enclosing_size: Vector3<i32>,
        total_volume: i32,
    ) -> (metadata: NbtCompound)
        requires
            self.regions@.len() <= i32::MAX,
        ensures
            metadata_holds(
                metadata,
                self@,
                self.regions@.len() as i32,
                total_blocks,
                enclosing_size,
                total_volume,
            ),
    {
        proof {
            lemma_schematic_names();
        }
        let mut metadata = new_compound();
        insert_tag(&mut metadata, "Name", string_tag(self.name.clone()));
        insert_tag(&mut metadata, "Author", string_tag(self.author.clone()));
        insert_tag(&mut metadata, "Description", string_tag(self.description.clone()));
        insert_tag(&mut metadata, "RegionCount", int_tag(self.regions.len() as i32));
        insert_tag(&mut metadata, "TimeCreated", long_tag(self.time_created));
        insert_tag(&mut metadata, "TimeModified", long_tag(self.time_modified));
        insert_tag(&mut metadata, "TotalBlocks", int_tag(total_blocks));
        insert_tag(&mut metadata, "EnclosingSize", enclosing_size.to_nbt());
        insert_tag(&mut metadata, "TotalVolume", int_tag(total_volume));
        metadata
    }

    /// Write the schematic as its root compound, or nothing where it
    /// cannot be written.
    pub fn try_to_nbt(&self) -> (r: Option<NbtCompound>)
        ensures
            r is Some <==> self@.can_encode(),
            r matches Some(root) ==> is_document_of(root, self@),
    {
        if !names_differ(&self.regions) || self.regions.len() > i32::MAX as usize {
            return None;
        }
        let (regions, total_volume, total_blocks) = match self.encode_regions() {
            Some(encoded) => encoded,
            None => {
                return None;
            },
        };
        let (enclosing_size, total_volume) = match Schematic::measure(total_volume) {
            Some(measured) => measured,
            None => {
                return None;
            },
        };
        let metadata = self.write_metadata(total_blocks, enclosing_size, total_volume);
        proof {
            lemma_schematic_names();
        }
        let mut out = new_compound();
        insert_tag(&mut out, "Metadata", compound_tag(metadata));
        insert_tag(&mut out, "MinecraftDataVersion", int_tag(self.data_version));
        insert_tag(&mut out, "Version", int_tag(5));
        insert_tag(&mut out, "Regions", compound_tag(regions));
        Some(out)
    }

    /// Write the schematic as its root compound.
    pub fn to_nbt(&self) -> (root: NbtCompound)
        requires
            self@.can_encode(),
        ensures
            is_document_of(root, self@),
    {
        self.try_to_nbt().unwrap()
    }

    /// Write the schematic as the bytes of a file: its root compound,
    /// compressed. What the bytes are is left to the crate that writes
    /// them, but for the two bytes that every gzip stream begins with.
    pub fn to_buffer(&self) -> (r: Result<Vec<u8>, NbtIoError>)
        requires
            self@.can_encode(),
        ensures
            r matches Ok(bytes) ==> bytes@.len() >= 2 && bytes@[0] == 0x1f && bytes@[1] == 0x8b,
    {
        let out = self.to_nbt();
        write_compressed(&out)
    }
}

} // verus!

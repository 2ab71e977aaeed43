//! The errors of reading a schematic from its tag tree.

use crate::nbt::{into_structure_error, structure_kind, structure_part, StructureKind};
use quartz_nbt::io::NbtIoError;
use quartz_nbt::{NbtReprError, NbtStructureError};
use vstd::prelude::*;
use vstd::std_specs::convert::FromSpecImpl;

verus! {

/// The error returned when attepmting to parse NBT data as a block state fails
#[derive(Debug)]
pub enum BlockStateParseError {
    /// When a tag doesn't exist or is the wrong type
    NonexistentTag(Box<NbtStructureError>),
    /// When a tag is the wrong type, contains the name of the incorrect tag
    WrongTag(String),
    /// When any unknown error occurs
    Unknown,
}

/// The error returned when attempting to parse NBT data as a region fails
#[derive(Debug)]
pub enum RegionParseError {
    /// When a tag doesn't exist or is the wrong type
    NonexistentTag(Box<NbtStructureError>),
    /// When parsing one of the block states fails
    BlockStateParseError(BlockStateParseError),
    /// When a tag is the wrong type, contains the name of the incorrect tag
    WrongTag(String),
    /// When any unknown error occurs
    Unknown,
}

/// The error returned when attempting to parse a buffer as a schematic fails
#[derive(Debug)]
pub enum LitematicParseError {
    /// The data given is invalid NBT data
    NBTParseError(NbtIoError),
    /// The schematic gives a version number that is too old or too recent, contains the version number given
    UnsupportedVersionNumber(i32),
    /// When a tag doesn't exist or is the wrong type
    NonexistentTag(Box<NbtStructureError>),
    /// When a tag is the wrong type, contains the name of the incorrect tag
    WrongTag(String),
    /// When there's an issue parsing one of the regions
    RegionParseError(RegionParseError),
    /// Any unknown error occured
    Unknown,
}

/// Why a block state could not be read.
pub enum BlockStateFailure {
    /// A tag is missing or of another kind than the one asked for
    NonexistentTag(StructureKind),
    /// The tag of this name is of the wrong kind
    WrongTag(Seq<char>),
    /// Anything else
    Unknown,
}

/// Why a region could not be read.
pub enum RegionFailure {
    /// A tag is missing or of another kind than the one asked for
    NonexistentTag(StructureKind),
    /// An entry of the palette could not be read
    BlockState(BlockStateFailure),
    /// The tag of this name is of the wrong kind
    WrongTag(Seq<char>),
    /// Anything else
    Unknown,
}

/// Why a schematic could not be read. What is wrong with bytes that are no
/// tag tree is left out.
pub enum SchematicFailure {
    /// The bytes are no tag tree
    NBTParseError,
    /// The schematic has this version, which is not the one that is read
    UnsupportedVersionNumber(i32),
    /// A tag is missing or of another kind than the one asked for
    NonexistentTag(StructureKind),
    /// The tag of this name is of the wrong kind
    WrongTag(Seq<char>),
    /// A region could not be read
    Region(RegionFailure),
    /// Anything else
    Unknown,
}

impl View for BlockStateParseError {
    type V = BlockStateFailure;

    open spec fn view(&self) -> BlockStateFailure {
        match self {
            BlockStateParseError::NonexistentTag(err) => BlockStateFailure::NonexistentTag(
                structure_kind(**err),
            ),
            BlockStateParseError::WrongTag(name) => BlockStateFailure::WrongTag(name@),
            BlockStateParseError::Unknown => BlockStateFailure::Unknown,
        }
    }
}

impl View for RegionParseError {
    type V = RegionFailure;

    open spec fn view(&self) -> RegionFailure {
        match self {
            RegionParseError::NonexistentTag(err) => RegionFailure::NonexistentTag(
                structure_kind(**err),
            ),
            RegionParseError::BlockStateParseError(inner) => RegionFailure::BlockState(inner@),
            RegionParseError::WrongTag(name) => RegionFailure::WrongTag(name@),
            RegionParseError::Unknown => RegionFailure::Unknown,
        }
    }
}

impl View for LitematicParseError {
    type V = SchematicFailure;

    open spec fn view(&self) -> SchematicFailure {
        match self {
            LitematicParseError::NBTParseError(_) => SchematicFailure::NBTParseError,
            LitematicParseError::UnsupportedVersionNumber(version) => {
                SchematicFailure::UnsupportedVersionNumber(*version)
            },
            LitematicParseError::NonexistentTag(err) => SchematicFailure::NonexistentTag(
                structure_kind(**err),
            ),
            LitematicParseError::WrongTag(name) => SchematicFailure::WrongTag(name@),
            LitematicParseError::RegionParseError(inner) => SchematicFailure::Region(inner@),
            LitematicParseError::Unknown => SchematicFailure::Unknown,
        }
    }
}

impl From<NbtReprError> for BlockStateParseError {
    fn from(data: NbtReprError) -> (error: BlockStateParseError) {
        match into_structure_error(data) {
            Some(err) => BlockStateParseError::NonexistentTag(err),
            None => BlockStateParseError::Unknown,
        }
    }
}

impl FromSpecImpl<NbtReprError> for BlockStateParseError {
    open spec fn obeys_from_spec() -> bool {
        true
    }

    open spec fn from_spec(data: NbtReprError) -> BlockStateParseError {
        match structure_part(data) {
            Some(err) => BlockStateParseError::NonexistentTag(err),
            None => BlockStateParseError::Unknown,
        }
    }
}

impl From<NbtReprError> for RegionParseError {
    fn from(data: NbtReprError) -> (error: RegionParseError) {
        match into_structure_error(data) {
            Some(err) => RegionParseError::NonexistentTag(err),
            None => RegionParseError::Unknown,
        }
    }
}

impl FromSpecImpl<NbtReprError> for RegionParseError {
    open spec fn obeys_from_spec() -> bool {
        true
    }

    open spec fn from_spec(data: NbtReprError) -> RegionParseError {
        match structure_part(data) {
            Some(err) => RegionParseError::NonexistentTag(err),
            None => RegionParseError::Unknown,
        }
    }
}

impl From<NbtReprError> for LitematicParseError {
    fn from(data: NbtReprError) -> (error: LitematicParseError) {
        match into_structure_error(data) {
            Some(err) => LitematicParseError::NonexistentTag(err),
            None => LitematicParseError::Unknown,
        }
    }
}

impl FromSpecImpl<NbtReprError> for LitematicParseError {
    open spec fn obeys_from_spec() -> bool {
        true
    }

    open spec fn from_spec(data: NbtReprError) -> LitematicParseError {
        match structure_part(data) {
            Some(err) => LitematicParseError::NonexistentTag(err),
            None => LitematicParseError::Unknown,
        }
    }
}

impl From<BlockStateParseError> for RegionParseError {
    fn from(data: BlockStateParseError) -> (error: RegionParseError) {
        RegionParseError::BlockStateParseError(data)
    }
}

impl FromSpecImpl<BlockStateParseError> for RegionParseError {
    open spec fn obeys_from_spec() -> bool {
        true
    }

    open spec fn from_spec(data: BlockStateParseError) -> RegionParseError {
        RegionParseError::BlockStateParseError(data)
    }
}

impl From<RegionParseError> for LitematicParseError {
    fn from(data: RegionParseError) -> (error: LitematicParseError) {
        LitematicParseError::RegionParseError(data)
    }
}

impl FromSpecImpl<RegionParseError> for LitematicParseError {
    open spec fn obeys_from_spec() -> bool {
        true
    }

    open spec fn from_spec(data: RegionParseError) -> LitematicParseError {
        LitematicParseError::RegionParseError(data)
    }
}

impl From<NbtIoError> for LitematicParseError {
    fn from(data: NbtIoError) -> (error: LitematicParseError) {
        LitematicParseError::NBTParseError(data)
    }
}

impl FromSpecImpl<NbtIoError> for LitematicParseError {
    open spec fn obeys_from_spec() -> bool {
        true
    }

    open spec fn from_spec(data: NbtIoError) -> LitematicParseError {
        LitematicParseError::NBTParseError(data)
    }
}

} // verus!

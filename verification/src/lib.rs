//! Reading and editing of voxel schematics: integer geometry, the packed
//! block-state array and the regions built on top of them.

pub mod bitstring;
pub mod block_map;
pub mod block_state;
pub mod codec;
pub mod coords;
pub mod error;
pub mod nbt;
pub mod packed;
pub mod region;
pub mod schematic;
pub mod vector;
pub mod volume;

pub use block_map::BlockMap;
pub use block_state::BlockState;
pub use error::{BlockStateParseError, LitematicParseError, RegionParseError};
pub use region::Region;
pub use schematic::Schematic;
pub use vector::{IVector3, UVector3, Vector3};
pub use volume::Volume;

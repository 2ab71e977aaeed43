//! Three-component vectors, used for block positions and box sizes.

use vstd::prelude::*;
use crate::nbt::{
    compound_entries, compound_tag, field, get_compound, get_int, insert_tag, int_tag,
    lookup_failure, new_compound, says, tag_content, StructureKind, TagContent,
};
use quartz_nbt::{NbtCompound, NbtReprError, NbtTag};
use std::ops::{Add, Sub};
use vstd::std_specs::ops::{AddSpecImpl, SubSpecImpl};

verus! {

/// A vector of three values, used to represent a position
#[derive(Hash, PartialEq, Eq, Debug, Clone, Copy)]
pub struct Vector3<T: Copy> {
    /// x position
    pub x: T,
    /// y position
    pub y: T,
    /// z position
    pub z: T,
}

/// A Vector3 of i32 values
pub type IVector3 = Vector3<i32>;

/// A Vector3 of u32 values
pub type UVector3 = Vector3<u32>;

/// The absolute value of an integer.
pub open spec fn abs(v: int) -> int {
    if v < 0 {
        -v
    } else {
        v
    }
}

impl<T: Copy> Vector3<T> {
    /// Create a new vector
    pub fn new(x: T, y: T, z: T) -> (v: Vector3<T>)
        ensures
            v == (Vector3 { x, y, z }),
    {
        Vector3 { x, y, z }
    }

    /// Convert a vector into a slice of three values
    pub fn into_slice(&self) -> (s: [T; 3])
        ensures
            s@ == seq![self.x, self.y, self.z],
    {
        let s = [self.x, self.y, self.z];
        assert(s@ =~= seq![self.x, self.y, self.z]);
        s
    }

    /// Convert a slice of three values into a vector
    pub fn from_slice(s: [T; 3]) -> (v: Vector3<T>)
        ensures
            v == (Vector3 { x: s@[0], y: s@[1], z: s@[2] }),
    {
        Vector3 { x: s[0], y: s[1], z: s[2] }
    }
}

/// The vector that a compound of three int tags `x`, `y` and `z` stands
/// for, or what is wrong with the first of them that is not there.
pub open spec fn vector_of(data: NbtCompound) -> Result<Vector3<i32>, StructureKind> {
    match field(data, "x"@) {
        Some(TagContent::Int(x)) => match field(data, "y"@) {
            Some(TagContent::Int(y)) => match field(data, "z"@) {
                Some(TagContent::Int(z)) => Ok(Vector3 { x, y, z }),
                _ => Err(lookup_failure(data, "z"@, "Int"@)),
            },
            _ => Err(lookup_failure(data, "y"@, "Int"@)),
        },
        _ => Err(lookup_failure(data, "x"@, "Int"@)),
    }
}

/// The vector that stands under `name` in a compound, or what is wrong
/// where none does.
pub open spec fn spec_vector(nbt: NbtCompound, name: Seq<char>) -> Result<
    Vector3<i32>,
    StructureKind,
> {
    match field(nbt, name) {
        Some(TagContent::Compound(data)) => vector_of(data),
        _ => Err(lookup_failure(nbt, name, "Compound"@)),
    }
}

impl Vector3<i32> {
    /// Read the vector that stands under `name` in a compound: a compound
    /// of its own with the int tags `x`, `y` and `z`.
    pub fn from_nbt(nbt: &NbtCompound, name: &str) -> (r: Result<Vector3<i32>, NbtReprError>)
        ensures
            match r {
                Ok(v) => spec_vector(*nbt, name@) == Ok::<Vector3<i32>, StructureKind>(v),
                Err(e) => spec_vector(*nbt, name@) matches Err(kind) && says(e, kind),
            },
    {
        let vec_nbt = match get_compound(nbt, name) {
            Ok(inner) => inner,
            Err(e) => {
                return Err(e);
            },
        };
        let x = match get_int(vec_nbt, "x") {
            Ok(x) => x,
            Err(e) => {
                return Err(e);
            },
        };
        let y = match get_int(vec_nbt, "y") {
            Ok(y) => y,
            Err(e) => {
                return Err(e);
            },
        };
        let z = match get_int(vec_nbt, "z") {
            Ok(z) => z,
            Err(e) => {
                return Err(e);
            },
        };
        Ok(Vector3::new(x, y, z))
    }

    /// The vector as a tag: a compound with the int tags `x`, `y` and `z`.
    pub fn to_nbt(self) -> (tag: NbtTag)
        ensures
            tag_content(tag) matches TagContent::Compound(data) && vector_of(data) == Ok::<
                Vector3<i32>,
                StructureKind,
            >(self)
                && forall|key: Seq<char>| #[trigger]
                compound_entries(data).contains_key(key) ==> key == "x"@ || key == "y"@ || key
                    == "z"@,
    {
        let mut compound = new_compound();
        insert_tag(&mut compound, "x", int_tag(self.x));
        insert_tag(&mut compound, "y", int_tag(self.y));
        insert_tag(&mut compound, "z", int_tag(self.z));
        proof {
            reveal_strlit("x");
            reveal_strlit("y");
            reveal_strlit("z");
            assert("x"@[0] != "y"@[0] && "x"@[0] != "z"@[0] && "y"@[0] != "z"@[0]);
        }
        compound_tag(compound)
    }

    /// The number of unit cells in the box spanned by the origin and this
    /// vector: the absolute value of the product of the components.
    pub open spec fn spec_volume(self) -> nat {
        abs(self.x * self.y * self.z) as nat
    }

    /// Check if all three coordinates of this vector are higher than the coordinates of the other vector
    pub fn fits_in_positive(self, other: Vector3<i32>) -> (fits: bool)
        ensures
            fits <==> self.x >= other.x && self.y >= other.y && self.z >= other.z,
    {
        self.x >= other.x && self.y >= other.y && self.z >= other.z
    }

    /// Check if all three coordinates of this vector are lower than the coordinates of the other vector
    pub fn fits_in_negative(self, other: Vector3<i32>) -> (fits: bool)
        ensures
            fits <==> self.x <= other.x && self.y <= other.y && self.z <= other.z,
    {
        self.x <= other.x && self.y <= other.y && self.z <= other.z
    }

    /// Get the volume of the volume between (0, 0, 0) and this vector
    pub fn volume(&self) -> (v: i32)
        requires
            self.spec_volume() <= i32::MAX,
        ensures
            v == self.spec_volume(),
    {
        let x: i128 = self.x as i128;
        let y: i128 = self.y as i128;
        let z: i128 = self.z as i128;
        assert(-0x8000_0000 * 0x8000_0000 <= x * y <= 0x8000_0000 * 0x8000_0000) by (nonlinear_arith)
            requires
                -0x8000_0000 <= x < 0x8000_0000,
                -0x8000_0000 <= y < 0x8000_0000,
        ;
        let xy: i128 = x * y;
        assert(-0x4000_0000_0000_0000 * 0x8000_0000 <= xy * z <= 0x4000_0000_0000_0000
            * 0x8000_0000) by (nonlinear_arith)
            requires
                -0x4000_0000_0000_0000 <= xy <= 0x4000_0000_0000_0000,
                -0x8000_0000 <= z < 0x8000_0000,
        ;
        let product: i128 = xy * z;
        if product < 0 {
            (-product) as i32
        } else {
            product as i32
        }
    }
}

impl Add for Vector3<i32> {
    type Output = Vector3<i32>;

    fn add(self, rhs: Vector3<i32>) -> (sum: Vector3<i32>) {
        Vector3 { x: self.x + rhs.x, y: self.y + rhs.y, z: self.z + rhs.z }
    }
}

impl AddSpecImpl for Vector3<i32> {
    open spec fn obeys_add_spec() -> bool {
        true
    }

    open spec fn add_req(self, rhs: Vector3<i32>) -> bool {
        &&& i32::MIN <= self.x + rhs.x <= i32::MAX
        &&& i32::MIN <= self.y + rhs.y <= i32::MAX
        &&& i32::MIN <= self.z + rhs.z <= i32::MAX
    }

    open spec fn add_spec(self, rhs: Vector3<i32>) -> Vector3<i32> {
        Vector3 {
            x: (self.x + rhs.x) as i32,
            y: (self.y + rhs.y) as i32,
            z: (self.z + rhs.z) as i32,
        }
    }
}

impl Sub for Vector3<i32> {
    type Output = Vector3<i32>;

    fn sub(self, rhs: Vector3<i32>) -> (difference: Vector3<i32>) {
        Vector3 { x: self.x - rhs.x, y: self.y - rhs.y, z: self.z - rhs.z }
    }
}

impl SubSpecImpl for Vector3<i32> {
    open spec fn obeys_sub_spec() -> bool {
        true
    }

    open spec fn sub_req(self, rhs: Vector3<i32>) -> bool {
        &&& i32::MIN <= self.x - rhs.x <= i32::MAX
        &&& i32::MIN <= self.y - rhs.y <= i32::MAX
        &&& i32::MIN <= self.z - rhs.z <= i32::MAX
    }

    open spec fn sub_spec(self, rhs: Vector3<i32>) -> Vector3<i32> {
        Vector3 {
            x: (self.x - rhs.x) as i32,
            y: (self.y - rhs.y) as i32,
            z: (self.z - rhs.z) as i32,
        }
    }
}

impl Default for Vector3<i32> {
    fn default() -> (v: Vector3<i32>)
        ensures
            v == (Vector3 { x: 0i32, y: 0i32, z: 0i32 }),
    {
        Vector3 { x: 0, y: 0, z: 0 }
    }
}

} // verus!

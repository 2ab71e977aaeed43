//! Axis-aligned boxes of blocks, possibly with a negative extent on some axis.

use crate::coords::lemma_abs_product;
use crate::region::Region;
use crate::vector::Vector3;
use vstd::prelude::*;

verus! {

/// A struct that represents a box in 3d
///
/// The box lies between two corners. On an axis where the second corner is
/// below the first, the size is negative; the blocks covered are the same as
/// those of the box with the two corners swapped on that axis. The upper
/// bound of an axis is exclusive.
#[derive(Hash, PartialEq, Eq, Debug, Clone, Copy)]
pub struct Volume {
    /// The corner that the box is anchored at, its origin
    pub pos1: Vector3<i32>,
    /// The opposite corner: the origin plus the size
    pub pos2: Vector3<i32>,
}

/// The smaller of two integers.
pub open spec fn min(a: int, b: int) -> int {
    if a <= b {
        a
    } else {
        b
    }
}

/// The larger of two integers.
pub open spec fn max(a: int, b: int) -> int {
    if a >= b {
        a
    } else {
        b
    }
}

/// The two corners of one axis after the axis has grown to cover the unit
/// interval `[v, v + 1)`. An axis that runs upwards stays upwards, one that
/// runs downwards stays downwards, and an empty axis turns towards `v`.
pub open spec fn expand_axis(p1: int, p2: int, v: int) -> (int, int) {
    if p1 < p2 {
        (min(p1, v), max(p2, v + 1))
    } else if p1 > p2 {
        (max(p1, v + 1), min(p2, v))
    } else if v >= p1 {
        (p1, v + 1)
    } else {
        (p1, v)
    }
}

/// Growing an axis keeps its direction, and the interval it covers becomes
/// the smallest one that holds both the old interval and `[v, v + 1)`.
pub proof fn lemma_expand_axis_bounds(p1: int, p2: int, v: int)
    ensures
        min(expand_axis(p1, p2, v).0, expand_axis(p1, p2, v).1) == min(min(p1, p2), v),
        max(expand_axis(p1, p2, v).0, expand_axis(p1, p2, v).1) == max(max(p1, p2), v + 1),
        p1 < p2 ==> expand_axis(p1, p2, v).0 < expand_axis(p1, p2, v).1,
        p1 > p2 ==> expand_axis(p1, p2, v).0 > expand_axis(p1, p2, v).1,
        expand_axis(p1, p2, v).0 != expand_axis(p1, p2, v).1,
{
}

fn expand_axis_exec(p1: i32, p2: i32, v: i32) -> (r: (i32, i32))
    requires
        v < i32::MAX,
    ensures
        (r.0 as int, r.1 as int) == expand_axis(p1 as int, p2 as int, v as int),
{
    let mut q1: i32 = p1;
    let mut q2: i32 = p2;
    if p1 < p2 {
        if v + 1 > p2 {
            q2 = v + 1;
        }
        if v < p1 {
            q1 = v;
        }
    } else if p1 > p2 {
        if v + 1 > p1 {
            q1 = v + 1;
        }
        if v < p2 {
            q2 = v;
        }
    } else {
        if v >= p1 {
            q2 = v + 1;
        } else {
            q2 = v;
        }
    }
    (q1, q2)
}

impl Volume {
    /// The lowest coordinates covered by the box, whatever the signs of its size.
    pub open spec fn lower(self) -> (int, int, int) {
        (
            min(self.pos1.x as int, self.pos2.x as int),
            min(self.pos1.y as int, self.pos2.y as int),
            min(self.pos1.z as int, self.pos2.z as int),
        )
    }

    /// One past the highest coordinates covered by the box.
    pub open spec fn upper(self) -> (int, int, int) {
        (
            max(self.pos1.x as int, self.pos2.x as int),
            max(self.pos1.y as int, self.pos2.y as int),
            max(self.pos1.z as int, self.pos2.z as int),
        )
    }

    /// Whether the block at `p` lies inside the box.
    pub open spec fn contains(self, p: Vector3<i32>) -> bool {
        &&& self.lower().0 <= p.x < self.upper().0
        &&& self.lower().1 <= p.y < self.upper().1
        &&& self.lower().2 <= p.z < self.upper().2
    }

    /// The size of the box as mathematical integers: the second corner minus the first.
    pub open spec fn extent(self) -> (int, int, int) {
        (self.pos2.x - self.pos1.x, self.pos2.y - self.pos1.y, self.pos2.z - self.pos1.z)
    }

    /// Whether the size of the box can be held in 32-bit components.
    pub open spec fn size_fits(self) -> bool {
        &&& i32::MIN <= self.extent().0 <= i32::MAX
        &&& i32::MIN <= self.extent().1 <= i32::MAX
        &&& i32::MIN <= self.extent().2 <= i32::MAX
    }

    /// The size of the box. Meaningful where `size_fits` holds.
    pub open spec fn spec_size(self) -> Vector3<i32> {
        Vector3 {
            x: (self.pos2.x - self.pos1.x) as i32,
            y: (self.pos2.y - self.pos1.y) as i32,
            z: (self.pos2.z - self.pos1.z) as i32,
        }
    }

    /// The number of blocks in the box.
    pub open spec fn cells(self) -> nat {
        crate::vector::abs(self.extent().0 * self.extent().1 * self.extent().2) as nat
    }

    /// Whether no axis of the box has a negative size.
    pub open spec fn is_positive(self) -> bool {
        &&& self.pos1.x <= self.pos2.x
        &&& self.pos1.y <= self.pos2.y
        &&& self.pos1.z <= self.pos2.z
    }

    /// The box with the corners swapped on every axis of negative size.
    pub open spec fn spec_make_size_positive(self) -> Volume {
        Volume {
            pos1: Vector3 {
                x: if self.pos1.x > self.pos2.x { self.pos2.x } else { self.pos1.x },
                y: if self.pos1.y > self.pos2.y { self.pos2.y } else { self.pos1.y },
                z: if self.pos1.z > self.pos2.z { self.pos2.z } else { self.pos1.z },
            },
            pos2: Vector3 {
                x: if self.pos1.x > self.pos2.x { self.pos1.x } else { self.pos2.x },
                y: if self.pos1.y > self.pos2.y { self.pos1.y } else { self.pos2.y },
                z: if self.pos1.z > self.pos2.z { self.pos1.z } else { self.pos2.z },
            },
        }
    }

    /// Whether the box can grow to cover the block at `v` without leaving
    /// the 32-bit range: the far side of that block must be representable.
    pub open spec fn can_fit(v: Vector3<i32>) -> bool {
        v.x < i32::MAX && v.y < i32::MAX && v.z < i32::MAX
    }

    /// The box grown, axis by axis, to cover the block at `v`.
    pub open spec fn spec_expand_to_fit(self, v: Vector3<i32>) -> Volume {
        let x = expand_axis(self.pos1.x as int, self.pos2.x as int, v.x as int);
        let y = expand_axis(self.pos1.y as int, self.pos2.y as int, v.y as int);
        let z = expand_axis(self.pos1.z as int, self.pos2.z as int, v.z as int);
        Volume {
            pos1: Vector3 { x: x.0 as i32, y: y.0 as i32, z: z.0 as i32 },
            pos2: Vector3 { x: x.1 as i32, y: y.1 as i32, z: z.1 as i32 },
        }
    }

    /// Whether `expand_to_fit_volume` can take `other`: the lowest block of
    /// `other` and the block below its upper bound must both be representable
    /// together with their far sides.
    pub open spec fn can_fit_volume(other: Volume) -> bool {
        &&& other.lower().0 < i32::MAX && other.upper().0 > i32::MIN
        &&& other.lower().1 < i32::MAX && other.upper().1 > i32::MIN
        &&& other.lower().2 < i32::MAX && other.upper().2 > i32::MIN
    }

    /// The box grown to cover `other`: first its lowest block, then the
    /// block just inside its upper bound.
    pub open spec fn spec_expand_to_fit_volume(self, other: Volume) -> Volume {
        let p = other.spec_make_size_positive();
        self.spec_expand_to_fit(p.pos1).spec_expand_to_fit(
            Vector3 {
                x: (p.pos2.x - 1) as i32,
                y: (p.pos2.y - 1) as i32,
                z: (p.pos2.z - 1) as i32,
            },
        )
    }

    /// Whether a volume at `pos` can have the size `size`: its far corner
    /// must be representable.
    pub open spec fn can_span(pos: Vector3<i32>, size: Vector3<i32>) -> bool {
        &&& i32::MIN <= pos.x + size.x <= i32::MAX
        &&& i32::MIN <= pos.y + size.y <= i32::MAX
        &&& i32::MIN <= pos.z + size.z <= i32::MAX
    }

    /// The volume at `pos` with the size `size`.
    pub open spec fn spanning(pos: Vector3<i32>, size: Vector3<i32>) -> Volume {
        Volume {
            pos1: pos,
            pos2: Vector3 {
                x: (pos.x + size.x) as i32,
                y: (pos.y + size.y) as i32,
                z: (pos.z + size.z) as i32,
            },
        }
    }

    /// Create a volume with the given position and size
    ///
    /// Negative numbers are allowed for the size
    pub fn new(pos: Vector3<i32>, size: Vector3<i32>) -> (v: Volume)
        requires
            Volume::can_span(pos, size),
        ensures
            v == Volume::spanning(pos, size),
            v.pos1 == pos,
            v.extent() == (size.x as int, size.y as int, size.z as int),
            v.size_fits(),
            v.spec_size() == size,
    {
        Volume { pos1: pos, pos2: pos + size }
    }

    /// Change the position and size of this volume so that it'll contain the volume given
    ///
    /// Favors changing the size over changing the position
    pub fn expand_to_fit_volume(self, volume: Volume) -> (v: Volume)
        requires
            Volume::can_fit_volume(volume),
        ensures
            v == self.spec_expand_to_fit_volume(volume),
            v.lower().0 == min(self.lower().0, min(volume.lower().0, volume.upper().0 - 1)),
            v.lower().1 == min(self.lower().1, min(volume.lower().1, volume.upper().1 - 1)),
            v.lower().2 == min(self.lower().2, min(volume.lower().2, volume.upper().2 - 1)),
            v.upper().0 == max(self.upper().0, max(volume.lower().0 + 1, volume.upper().0)),
            v.upper().1 == max(self.upper().1, max(volume.lower().1 + 1, volume.upper().1)),
            v.upper().2 == max(self.upper().2, max(volume.lower().2 + 1, volume.upper().2)),
    {
        let volume_positive = volume.make_size_positive();
        let far = Vector3 {
            x: volume_positive.pos2.x - 1,
            y: volume_positive.pos2.y - 1,
            z: volume_positive.pos2.z - 1,
        };
        self.expand_to_fit(volume_positive.pos1).expand_to_fit(far)
    }

    /// Change the position and size of this volume so that it'll contain the vector given
    ///
    /// Considers a vector to be a 1x1x1 cube, not a point
    ///
    /// Favors changing the size over changing the position
    pub fn expand_to_fit(self, vector: Vector3<i32>) -> (v: Volume)
        requires
            Volume::can_fit(vector),
        ensures
            v == self.spec_expand_to_fit(vector),
            v.pos1.x != v.pos2.x && v.pos1.y != v.pos2.y && v.pos1.z != v.pos2.z,
            v.lower() == (
                min(self.lower().0, vector.x as int),
                min(self.lower().1, vector.y as int),
                min(self.lower().2, vector.z as int),
            ),
            v.upper() == (
                max(self.upper().0, vector.x + 1),
                max(self.upper().1, vector.y + 1),
                max(self.upper().2, vector.z + 1),
            ),
            v.contains(vector),
            forall|p: Vector3<i32>| self.contains(p) ==> v.contains(p),
    {
        let x = expand_axis_exec(self.pos1.x, self.pos2.x, vector.x);
        let y = expand_axis_exec(self.pos1.y, self.pos2.y, vector.y);
        let z = expand_axis_exec(self.pos1.z, self.pos2.z, vector.z);
        proof {
            lemma_expand_axis_bounds(self.pos1.x as int, self.pos2.x as int, vector.x as int);
            lemma_expand_axis_bounds(self.pos1.y as int, self.pos2.y as int, vector.y as int);
            lemma_expand_axis_bounds(self.pos1.z as int, self.pos2.z as int, vector.z as int);
        }
        Volume {
            pos1: Vector3 { x: x.0, y: y.0, z: z.0 },
            pos2: Vector3 { x: x.1, y: y.1, z: z.1 },
        }
    }

    /// Get the origin point of this volume
    pub fn origin(self) -> (p: Vector3<i32>)
        ensures
            p == self.pos1,
    {
        self.pos1
    }

    /// Get the size of this volume
    pub fn size(self) -> (s: Vector3<i32>)
        requires
            self.size_fits(),
        ensures
            s == self.spec_size(),
            (s.x as int, s.y as int, s.z as int) == self.extent(),
    {
        self.pos2 - self.pos1
    }

    /// Move this volume to a new position
    pub fn move_to(self, pos: Vector3<i32>) -> (v: Volume)
        requires
            i32::MIN <= pos.x + self.extent().0 <= i32::MAX,
            i32::MIN <= pos.y + self.extent().1 <= i32::MAX,
            i32::MIN <= pos.z + self.extent().2 <= i32::MAX,
        ensures
            v.pos1 == pos,
            v.extent() == self.extent(),
    {
        Volume {
            pos1: pos,
            pos2: Vector3 {
                x: (self.pos2.x as i64 - self.pos1.x as i64 + pos.x as i64) as i32,
                y: (self.pos2.y as i64 - self.pos1.y as i64 + pos.y as i64) as i32,
                z: (self.pos2.z as i64 - self.pos1.z as i64 + pos.z as i64) as i32,
            },
        }
    }

    /// Change the size of this volume
    pub fn change_size(self, new_size: Vector3<i32>) -> (v: Volume)
        requires
            i32::MIN <= self.pos1.x + new_size.x <= i32::MAX,
            i32::MIN <= self.pos1.y + new_size.y <= i32::MAX,
            i32::MIN <= self.pos1.z + new_size.z <= i32::MAX,
        ensures
            v.pos1 == self.pos1,
            v.extent() == (new_size.x as int, new_size.y as int, new_size.z as int),
            v.size_fits(),
            v.spec_size() == new_size,
    {
        Volume { pos1: self.pos1, pos2: self.pos1 + new_size }
    }

    /// Calculate the volume of this volume
    pub fn volume(self) -> (n: i32)
        requires
            self.cells() <= i32::MAX,
        ensures
            n == self.cells(),
    {
        let x: i128 = self.pos2.x as i128 - self.pos1.x as i128;
        let y: i128 = self.pos2.y as i128 - self.pos1.y as i128;
        let z: i128 = self.pos2.z as i128 - self.pos1.z as i128;
        assert(-0x1_0000_0000 * 0x1_0000_0000 <= x * y <= 0x1_0000_0000 * 0x1_0000_0000)
            by (nonlinear_arith)
            requires
                -0x1_0000_0000 <= x <= 0x1_0000_0000,
                -0x1_0000_0000 <= y <= 0x1_0000_0000,
        ;
        let xy: i128 = x * y;
        assert(-0x1_0000_0000_0000_0000 * 0x1_0000_0000 <= xy * z <= 0x1_0000_0000_0000_0000
            * 0x1_0000_0000) by (nonlinear_arith)
            requires
                -0x1_0000_0000_0000_0000 <= xy <= 0x1_0000_0000_0000_0000,
                -0x1_0000_0000 <= z <= 0x1_0000_0000,
        ;
        let product: i128 = xy * z;
        if product < 0 {
            (-product) as i32
        } else {
            product as i32
        }
    }

    /// Change the origin and size of the volume so it contains the same area but the size has only positive values
    pub fn make_size_positive(self) -> (v: Volume)
        ensures
            v == self.spec_make_size_positive(),
            v.is_positive(),
            v.lower() == self.lower(),
            v.upper() == self.upper(),
            forall|p: Vector3<i32>| v.contains(p) <==> self.contains(p),
    {
        let mut pos1 = self.pos1;
        let mut pos2 = self.pos2;
        if self.pos1.x > self.pos2.x {
            pos1.x = self.pos2.x;
            pos2.x = self.pos1.x;
        }
        if self.pos1.y > self.pos2.y {
            pos1.y = self.pos2.y;
            pos2.y = self.pos1.y;
        }
        if self.pos1.z > self.pos2.z {
            pos1.z = self.pos2.z;
            pos2.z = self.pos1.z;
        }
        Volume { pos1, pos2 }
    }

    /// Whether the blocks of the box can be walked through one by one: its
    /// size, taken without signs, must be representable, and so must the
    /// number of its blocks as an index.
    pub open spec fn can_iterate(self) -> bool {
        self.spec_make_size_positive().size_fits() && self.cells() <= u64::MAX
    }

    /// Get an iterator over every block in the volume, increasing the x, then the z, then the y coordinates
    pub fn iter(self) -> (iter: VolumeIterator)
        requires
            self.can_iterate(),
        ensures
            iter.source() == self.spec_make_size_positive(),
            iter.position() == 0,
    {
        let volume = self.make_size_positive();
        proof {
            lemma_abs_product(self.extent().0, self.extent().1, self.extent().2);
            lemma_abs_product(volume.extent().0, volume.extent().1, volume.extent().2);
        }
        VolumeIterator { volume, current_pos: 0 }
    }
}

/// A walk through the blocks of a box, x running fastest, then z, then y.
pub struct VolumeIterator {
    volume: Volume,
    current_pos: u64,
}

impl VolumeIterator {
    #[verifier::type_invariant]
    spec fn well_formed(self) -> bool {
        &&& self.volume.is_positive()
        &&& self.volume.size_fits()
        &&& self.volume.cells() <= u64::MAX
        &&& self.current_pos <= self.volume.cells()
    }

    /// The box that is walked through; no axis of it has a negative size.
    pub closed spec fn source(self) -> Volume {
        self.volume
    }

    /// The number of blocks handed out so far.
    pub closed spec fn position(self) -> nat {
        self.current_pos as nat
    }

    /// The block that stands at `index` in the order of the walk through `source`.
    pub open spec fn block_at(source: Volume, index: nat) -> Option<Vector3<i32>> {
        match Region::spec_index_to_coords(source.spec_size(), index) {
            Some(p) => Some(
                Vector3 {
                    x: (p.x + source.pos1.x) as i32,
                    y: (p.y + source.pos1.y) as i32,
                    z: (p.z + source.pos1.z) as i32,
                },
            ),
            None => None,
        }
    }

    /// The next block of the walk, or nothing once every block has been handed out.
    pub fn next(&mut self) -> (block: Option<Vector3<i32>>)
        ensures
            final(self).source() == old(self).source(),
            block == VolumeIterator::block_at(old(self).source(), old(self).position()),
            block is Some <==> old(self).position() < old(self).source().cells(),
            block is Some ==> final(self).position() == old(self).position() + 1,
            block is None ==> final(self).position() == old(self).position(),
            block matches Some(p) ==> old(self).source().contains(p),
    {
        proof {
            use_type_invariant(&*self);
        }
        let size = self.volume.size();
        let origin = self.volume.origin();
        match Region::index_to_coords(size, self.current_pos) {
            Some(p) => {
                proof {
                    Region::lemma_index_to_coords(size, self.current_pos as nat);
                }
                self.current_pos = self.current_pos + 1;
                Some(Vector3 { x: p.x + origin.x, y: p.y + origin.y, z: p.z + origin.z })
            },
            None => None,
        }
    }
}

impl Default for Volume {
    fn default() -> (v: Volume)
        ensures
            v == (Volume {
                pos1: Vector3 { x: 0i32, y: 0i32, z: 0i32 },
                pos2: Vector3 { x: 0i32, y: 0i32, z: 0i32 },
            }),
    {
        Volume { pos1: Vector3 { x: 0, y: 0, z: 0 }, pos2: Vector3 { x: 0, y: 0, z: 0 } }
    }
}

} // verus!

//! The order of the blocks of a box in the packed array: x runs fastest,
//! then z, then y.

use crate::bitstring::lemma_div_mul_add;
use crate::region::Region;
use crate::vector::{abs, Vector3};
use vstd::arithmetic::div_mod::{
    lemma_breakdown, lemma_div_pos_is_pos, lemma_fundamental_div_mod, lemma_mod_pos_bound,
    lemma_small_mod,
};
use vstd::prelude::*;

verus! {

/// The absolute value of a product is the product of the absolute values.
pub proof fn lemma_abs_product(x: int, y: int, z: int)
    ensures
        abs(x * y * z) == abs(x) * abs(y) * abs(z),
        abs(x * z) == abs(x) * abs(z),
{
    assert(abs(x * z) == abs(x) * abs(z)) by (nonlinear_arith);
    assert(abs((x * y) * z) == abs(x * y) * abs(z)) by (nonlinear_arith);
    assert(abs(x * y) == abs(x) * abs(y)) by (nonlinear_arith);
}

/// The magnitude of a 32-bit integer.
fn magnitude(v: i32) -> (m: u128)
    ensures
        m == abs(v as int),
        m <= 0x8000_0000,
{
    if v < 0 {
        (-(v as i64)) as u128
    } else {
        v as u128
    }
}

impl Region {
    /// Whether `pos` lies inside a box of the given size that starts at the
    /// origin: on every axis, from zero up to but not including the size.
    pub open spec fn in_box(size: Vector3<i32>, pos: Vector3<i32>) -> bool {
        &&& 0 <= pos.x < size.x
        &&& 0 <= pos.y < size.y
        &&& 0 <= pos.z < size.z
    }

    /// The place of the block at `pos` in the order of the packed array.
    pub open spec fn linear_index(size: Vector3<i32>, pos: Vector3<i32>) -> int {
        pos.y * size.x * size.z + pos.z * size.x + pos.x
    }

    /// Whether `pos` lies inside a box that starts at the origin and has the
    /// given size, each component of the size taken without its sign.
    pub open spec fn in_span(size: Vector3<i32>, pos: Vector3<i32>) -> bool {
        &&& 0 <= pos.x < abs(size.x as int)
        &&& 0 <= pos.y < abs(size.y as int)
        &&& 0 <= pos.z < abs(size.z as int)
    }

    /// The place of the block at `pos` in the order of the packed array of a
    /// box of the given size, each component taken without its sign.
    pub open spec fn span_index(size: Vector3<i32>, pos: Vector3<i32>) -> int {
        pos.y * (abs(size.x as int) * abs(size.z as int)) + pos.z * abs(size.x as int) + pos.x
    }

    /// The position of the block that stands at `index` in the order of the
    /// packed array, or nothing where the box has no such block. A negative
    /// size counts by its magnitude.
    pub open spec fn spec_index_to_coords(size: Vector3<i32>, index: nat) -> Option<
        Vector3<i32>,
    > {
        if index >= size.spec_volume() {
            None
        } else {
            let width = abs(size.x as int);
            let depth = abs(size.z as int);
            Some(
                Vector3 {
                    x: (index as int % width) as i32,
                    y: (index as int / (width * depth)) as i32,
                    z: ((index as int / width) % depth) as i32,
                },
            )
        }
    }

    /// The place in the order of the packed array of the block at `pos`, or
    /// nothing where `pos` lies outside the box.
    pub open spec fn spec_coords_to_index(size: Vector3<i32>, pos: Vector3<i32>) -> Option<nat> {
        if Region::in_box(size, pos) {
            Some(Region::linear_index(size, pos) as nat)
        } else {
            None
        }
    }

    /// Inside a box, the signs of the size play no part.
    pub proof fn lemma_box_is_span(size: Vector3<i32>, pos: Vector3<i32>)
        requires
            Region::in_box(size, pos),
        ensures
            Region::in_span(size, pos),
            Region::span_index(size, pos) == Region::linear_index(size, pos),
    {
        assert(pos.y * size.x * size.z == pos.y * (size.x * size.z)) by (nonlinear_arith);
    }

    /// The position at an index below the number of blocks lies in the box,
    /// and its place in the order of the array is that index.
    pub proof fn lemma_index_to_coords(size: Vector3<i32>, index: nat)
        requires
            index < size.spec_volume(),
        ensures
            Region::spec_index_to_coords(size, index) matches Some(pos) && {
                &&& pos.x == index as int % abs(size.x as int)
                &&& pos.z == (index as int / abs(size.x as int)) % abs(size.z as int)
                &&& pos.y == index as int / (abs(size.x as int) * abs(size.z as int))
                &&& Region::in_span(size, pos)
                &&& Region::span_index(size, pos) == index
            },
    {
        let w = abs(size.x as int);
        let h = abs(size.y as int);
        let d = abs(size.z as int);
        let i = index as int;
        lemma_abs_product(size.x as int, size.y as int, size.z as int);
        assert(w > 0 && h > 0 && d > 0) by (nonlinear_arith)
            requires
                0 <= i < w * h * d,
                w >= 0,
                h >= 0,
                d >= 0,
        ;
        assert(w * d > 0) by (nonlinear_arith)
            requires
                w > 0,
                d > 0,
        ;
        lemma_mod_pos_bound(i, w);
        lemma_div_pos_is_pos(i, w);
        lemma_mod_pos_bound(i / w, d);
        lemma_div_pos_is_pos(i, w * d);
        lemma_fundamental_div_mod(i, w * d);
        lemma_breakdown(i, w, d);
        assert(i / (w * d) < h) by (nonlinear_arith)
            requires
                i == (w * d) * (i / (w * d)) + i % (w * d),
                0 <= i % (w * d),
                i < w * h * d,
                w * d > 0,
        ;
        assert(i == (i / (w * d)) * (w * d) + ((i / w) % d) * w + i % w) by (nonlinear_arith)
            requires
                i == (w * d) * (i / (w * d)) + i % (w * d),
                i % (w * d) == w * ((i / w) % d) + i % w,
        ;
    }

    /// The place of a position inside the box is below the number of blocks,
    /// and the position at that place is the position itself.
    pub proof fn lemma_coords_to_index(size: Vector3<i32>, pos: Vector3<i32>)
        requires
            Region::in_span(size, pos),
        ensures
            0 <= Region::span_index(size, pos) < size.spec_volume(),
            Region::spec_index_to_coords(size, Region::span_index(size, pos) as nat) == Some(pos),
    {
        let w = abs(size.x as int);
        let h = abs(size.y as int);
        let d = abs(size.z as int);
        let i = Region::span_index(size, pos);
        let low = pos.z * w + pos.x;
        lemma_abs_product(size.x as int, size.y as int, size.z as int);
        assert(0 <= low < w * d) by (nonlinear_arith)
            requires
                0 <= pos.x < w,
                0 <= pos.z < d,
                low == pos.z * w + pos.x,
        ;
        assert(0 <= i < w * h * d) by (nonlinear_arith)
            requires
                i == pos.y * (w * d) + low,
                0 <= low < w * d,
                0 <= pos.y < h,
        ;
        lemma_div_mul_add(pos.y as int, w * d, low);
        lemma_div_mul_add(pos.z as int, w, pos.x as int);
        lemma_breakdown(i, w, d);
        lemma_small_mod(pos.z as nat, d as nat);
        assert(low == w * ((i / w) % d) + i % w);
        lemma_mod_pos_bound(i, w);
        lemma_div_pos_is_pos(i, w);
        lemma_mod_pos_bound(i / w, d);
        lemma_div_mul_add((i / w) % d, w, i % w);
        assert(((i / w) % d) * w + i % w == low) by (nonlinear_arith)
            requires
                low == w * ((i / w) % d) + i % w,
        ;
    }

    /// Going from an index to its position and back gives the index again,
    /// in a box whose size has no negative component.
    pub proof fn lemma_index_round_trip(size: Vector3<i32>, index: nat)
        requires
            size.x >= 0,
            size.y >= 0,
            size.z >= 0,
            index < size.spec_volume(),
        ensures
            Region::spec_index_to_coords(size, index) matches Some(pos)
                && Region::spec_coords_to_index(size, pos) == Some(index),
    {
        Region::lemma_index_to_coords(size, index);
        let pos = Region::spec_index_to_coords(size, index).unwrap();
        assert(pos.y * size.x * size.z == pos.y * (size.x * size.z)) by (nonlinear_arith);
    }

    /// Going from a position inside the box to its index and back gives the
    /// position again, and the index is below the number of blocks.
    pub proof fn lemma_coords_round_trip(size: Vector3<i32>, pos: Vector3<i32>)
        requires
            Region::in_box(size, pos),
        ensures
            0 <= Region::linear_index(size, pos) < size.spec_volume(),
            Region::spec_coords_to_index(size, pos) matches Some(index)
                && Region::spec_index_to_coords(size, index) == Some(pos),
    {
        Region::lemma_box_is_span(size, pos);
        Region::lemma_coords_to_index(size, pos);
    }

    /// The number of blocks in a box of the given size.
    pub(crate) fn cell_count(size: Vector3<i32>) -> (total: u128)
        ensures
            total == size.spec_volume(),
            total <= 0x2000_0000_0000_0000_0000_0000,
    {
        let width = magnitude(size.x);
        let height = magnitude(size.y);
        let depth = magnitude(size.z);
        assert(width * depth <= 0x8000_0000 * 0x8000_0000) by (nonlinear_arith)
            requires
                width <= 0x8000_0000,
                depth <= 0x8000_0000,
        ;
        let layer = width * depth;
        assert(layer * height <= 0x4000_0000_0000_0000 * 0x8000_0000) by (nonlinear_arith)
            requires
                layer <= 0x4000_0000_0000_0000,
                height <= 0x8000_0000,
        ;
        let total = layer * height;
        proof {
            lemma_abs_product(size.x as int, size.y as int, size.z as int);
            assert(total == size.spec_volume()) by (nonlinear_arith)
                requires
                    total == (width * depth) * height,
                    size.spec_volume() == width * height * depth,
            ;
        }
        total
    }

    /// The position of the block at `index`, for an index of any size.
    pub(crate) fn coords_at(size: Vector3<i32>, index: u128) -> (coords: Option<Vector3<i32>>)
        ensures
            coords == Region::spec_index_to_coords(size, index as nat),
            coords is Some <==> index < size.spec_volume(),
    {
        let width = magnitude(size.x);
        let depth = magnitude(size.z);
        assert(width * depth <= 0x8000_0000 * 0x8000_0000) by (nonlinear_arith)
            requires
                width <= 0x8000_0000,
                depth <= 0x8000_0000,
        ;
        let layer = width * depth;
        let total = Region::cell_count(size);
        if index >= total {
            return None;
        }
        proof {
            Region::lemma_index_to_coords(size, index as nat);
            lemma_breakdown(index as int, width as int, depth as int);
        }
        let y = index / layer;
        let rest = index % layer;
        proof {
            lemma_mod_pos_bound(index as int, width as int);
            lemma_div_pos_is_pos(index as int, width as int);
            lemma_mod_pos_bound(index as int / width as int, depth as int);
            lemma_div_mul_add(
                (index as int / width as int) % depth as int,
                width as int,
                index as int % width as int,
            );
            assert(width * ((index as int / width as int) % depth as int) == ((index as int
                / width as int) % depth as int) * width) by (nonlinear_arith);
        }
        let z = rest / width;
        let x = rest % width;
        Some(Vector3 { x: x as i32, y: y as i32, z: z as i32 })
    }

    /// The position of the block at `index` of the packed array of a box of
    /// the given size, x running fastest, then z, then y.
    pub fn index_to_coords(size: Vector3<i32>, index: u64) -> (coords: Option<Vector3<i32>>)
        ensures
            coords == Region::spec_index_to_coords(size, index as nat),
            coords is Some <==> index < size.spec_volume(),
    {
        Region::coords_at(size, index as u128)
    }

    /// The place of the block at `pos`, for a box of any size.
    pub(crate) fn index_at(size: Vector3<i32>, pos: Vector3<i32>) -> (index: Option<u128>)
        ensures
            index is Some <==> Region::in_box(size, pos),
            index matches Some(i) ==> i == Region::linear_index(size, pos) && i
                < size.spec_volume(),
    {
        if !pos.fits_in_positive(Vector3 { x: 0, y: 0, z: 0 }) || !(pos.x < size.x && pos.y
            < size.y && pos.z < size.z) {
            return None;
        }
        proof {
            Region::lemma_coords_round_trip(size, pos);
        }
        let width = size.x as u128;
        let depth = size.z as u128;
        assert(pos.y * size.x <= 0x8000_0000 * 0x8000_0000) by (nonlinear_arith)
            requires
                0 <= pos.y < 0x8000_0000,
                0 <= size.x < 0x8000_0000,
        ;
        let rows = pos.y as u128 * width;
        assert(rows * depth <= 0x4000_0000_0000_0000 * 0x8000_0000) by (nonlinear_arith)
            requires
                0 <= rows <= 0x4000_0000_0000_0000,
                0 <= depth < 0x8000_0000,
        ;
        assert(pos.z * size.x <= 0x8000_0000 * 0x8000_0000) by (nonlinear_arith)
            requires
                0 <= pos.z < 0x8000_0000,
                0 <= size.x < 0x8000_0000,
        ;
        Some(rows * depth + pos.z as u128 * width + pos.x as u128)
    }

    /// The index in the packed array of a box of the given size of the
    /// block at `pos`, or nothing where `pos` lies outside the box.
    pub fn coords_to_index(size: Vector3<i32>, pos: Vector3<i32>) -> (index: Option<u64>)
        requires
            Region::in_box(size, pos) ==> Region::linear_index(size, pos) <= u64::MAX,
        ensures
            index is Some <==> Region::in_box(size, pos),
            index matches Some(i) ==> Region::spec_coords_to_index(size, pos) == Some(i as nat),
            index matches Some(i) ==> i < size.spec_volume(),
    {
        match Region::index_at(size, pos) {
            Some(index) => Some(index as u64),
            None => None,
        }
    }
}

} // verus!

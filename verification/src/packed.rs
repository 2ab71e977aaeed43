//! The packed block-state array: fields of a fixed number of bits laid end
//! to end in 64-bit words, a field running over into the next word where it
//! does not fit.

use crate::bitstring::{
    bit_string, bits_of, lemma_bit_string_bound, lemma_bit_string_update, lemma_bits_in_window,
    lemma_bits_of_bound, lemma_bits_of_short, lemma_same_high_bits, lemma_same_low_bits,
    lemma_splice, lemma_splice_bound, lemma_three_parts, splice, window,
};
use crate::region::Region;
use vstd::arithmetic::power2::{
    lemma2_to64, lemma_pow2_adds, lemma_pow2_pos, lemma_pow2_strictly_increases, lemma_pow2_unfold,
    pow2,
};
use vstd::prelude::*;

verus! {

/// A left shift of one is a power of two.
proof fn lemma_shift_is_pow2(k: u128)
    requires
        k < 128,
    ensures
        (1u128 << k) == pow2(k as nat),
    decreases k,
{
    if k == 0 {
        assert(1u128 << 0u128 == 1) by (bit_vector);
        lemma2_to64();
    } else {
        let j = (k - 1) as u128;
        lemma_shift_is_pow2(j);
        assert((1u128 << k) == 2 * (1u128 << j)) by (bit_vector)
            requires
                0 < k < 128,
                j == k - 1,
        ;
        lemma_pow2_unfold(k as nat);
    }
}

/// Two to the power of `k`.
fn power_of_two(k: u128) -> (p: u128)
    requires
        k < 128,
    ensures
        p == pow2(k as nat),
{
    proof {
        lemma_shift_is_pow2(k);
    }
    1u128 << k
}

/// A word of the array as the unsigned number that its 64 bits spell.
fn unsigned_word(word: i64) -> (w: u64)
    ensures
        w == word as u64,
{
    #[verifier::truncate]
    (word as u64)
}

/// The word of the array whose 64 bits spell `bits`.
fn signed_word(bits: u64) -> (word: i64)
    ensures
        word as u64 == bits,
{
    assert((bits as i64) as u64 == bits) by (bit_vector);
    #[verifier::truncate]
    (bits as i64)
}

/// The word at `index` and the one after it, if any, as one number.
fn load_window(array: &[i64], index: usize) -> (w: u128)
    requires
        index < array.len(),
    ensures
        w == window(array@, index as int),
        index + 1 < array.len() ==> w < pow2(128),
        index + 1 >= array.len() ==> w < pow2(64),
{
    proof {
        lemma2_to64();
        lemma_pow2_adds(64, 64);
    }
    let low = unsigned_word(array[index]);
    if index + 1 < array.len() {
        let high = unsigned_word(array[index + 1]);
        assert(low + high * pow2(64) < pow2(128)) by (nonlinear_arith)
            requires
                low < pow2(64),
                high < pow2(64),
                pow2(128) == pow2(64) * pow2(64),
        ;
        low as u128 + high as u128 * 0x1_0000_0000_0000_0000u128
    } else {
        low as u128
    }
}

impl Region {
    /// The field at `index` of a packed array whose fields are `bits` wide:
    /// the bits from `index * bits` on, word 0 holding the lowest bits. Bits
    /// past the end of the array count as zero.
    pub open spec fn spec_field(words: Seq<i64>, index: nat, bits: nat) -> nat {
        bits_of(bit_string(words), index * bits, bits)
    }

    /// How many bits of the field at `index` lie inside an array of `len`
    /// words: all of them, but for a last field that the array cuts short.
    pub open spec fn field_room(len: nat, index: nat, bits: nat) -> nat {
        if index * bits + bits <= 64 * len {
            bits
        } else {
            (64 * len - index * bits) as nat
        }
    }

    /// Whether `after` is the array `before` with the low bits of `value`
    /// in place of the field at `index`, as many of them as the field has
    /// room for, and with every other bit as it was.
    pub open spec fn spec_written(
        before: Seq<i64>,
        after: Seq<i64>,
        index: nat,
        bits: nat,
        value: nat,
    ) -> bool {
        let room = Region::field_room(before.len(), index, bits);
        &&& after.len() == before.len()
        &&& bit_string(after) == splice(
            bit_string(before),
            index * bits,
            room,
            value % pow2(room),
        )
    }

    /// A field that was written is read back as it was written, where the
    /// value fits the room that the field has, and every other field is read
    /// as before.
    pub proof fn lemma_write_then_read(
        before: Seq<i64>,
        after: Seq<i64>,
        index: nat,
        bits: nat,
        value: nat,
        other: nat,
    )
        requires
            index * bits < 64 * before.len(),
            Region::spec_written(before, after, index, bits, value),
        ensures
            Region::spec_field(after, index, bits) == value % pow2(
                Region::field_room(before.len(), index, bits),
            ),
            value < pow2(Region::field_room(before.len(), index, bits)) ==> Region::spec_field(
                after,
                index,
                bits,
            ) == value,
            other != index ==> Region::spec_field(after, other, bits) == Region::spec_field(
                before,
                other,
                bits,
            ),
    {
        let room = Region::field_room(before.len(), index, bits);
        let off = index * bits;
        let b0 = bit_string(before);
        let b1 = bit_string(after);
        let written = value % pow2(room);
        lemma_pow2_pos(room);
        vstd::arithmetic::div_mod::lemma_mod_pos_bound(value as int, pow2(room) as int);
        lemma_splice(b0, off, room, written);
        if room < bits {
            lemma_bit_string_bound(after);
            lemma_bits_of_short(b1, off, room, bits);
        }
        if value < pow2(room) {
            vstd::arithmetic::div_mod::lemma_small_mod(value, pow2(room));
        }
        if other < index {
            assert(other * bits + bits <= index * bits) by (nonlinear_arith)
                requires
                    other < index,
            ;
            lemma_same_low_bits(b1, b0, off, other * bits, bits);
        } else if other > index {
            assert(other * bits >= index * bits + bits) by (nonlinear_arith)
                requires
                    other > index,
            ;
            lemma_same_high_bits(b1, b0, off + room, other * bits, bits);
        }
    }

    /// The number of 64-bit words that hold `count` fields of `bits` bits.
    pub open spec fn spec_word_count(count: nat, bits: nat) -> nat {
        (count * bits + 63) / 64
    }

    /// Whether `bits` is the least width, not under two, whose fields can
    /// hold every index below `count`.
    pub open spec fn is_required_bits(count: nat, bits: nat) -> bool {
        &&& bits >= 2
        &&& pow2(bits) >= count
        &&& bits > 2 ==> pow2((bits - 1) as nat) < count
    }

    /// The least width, not under two, whose fields can hold every index
    /// below `count`.
    pub open spec fn spec_calculate_bits(count: nat) -> nat {
        choose|bits: nat| Region::is_required_bits(count, bits)
    }

    /// There is one such width only.
    pub proof fn lemma_required_bits_unique(count: nat, a: nat, b: nat)
        requires
            Region::is_required_bits(count, a),
            Region::is_required_bits(count, b),
        ensures
            a == b,
    {
        if a < b {
            if a < b - 1 {
                lemma_pow2_strictly_increases(a, (b - 1) as nat);
            }
        } else if b < a {
            if b < a - 1 {
                lemma_pow2_strictly_increases(b, (a - 1) as nat);
            }
        }
    }

    /// From a width that is too small on, a width that is large enough is found.
    proof fn lemma_required_bits_from(count: nat, bits: nat)
        requires
            bits >= 2,
            bits > 2 ==> pow2((bits - 1) as nat) < count,
        ensures
            exists|found: nat| Region::is_required_bits(count, found),
        decreases
                (if count > pow2(bits) {
                    count - pow2(bits)
                } else {
                    0
                }),
    {
        if pow2(bits) >= count {
            assert(Region::is_required_bits(count, bits));
        } else {
            lemma_pow2_strictly_increases(bits, bits + 1);
            Region::lemma_required_bits_from(count, bits + 1);
        }
    }

    /// Every count has its width.
    pub proof fn lemma_required_bits(count: nat)
        ensures
            Region::is_required_bits(count, Region::spec_calculate_bits(count)),
    {
        Region::lemma_required_bits_from(count, 2);
    }

    /// The number of bits that each palette index takes in the packed array:
    /// the least width, not under two, that can tell `parsed_palette_length`
    /// states apart.
    pub fn calculate_bits(parsed_palette_length: usize) -> (bits: u64)
        ensures
            bits == Region::spec_calculate_bits(parsed_palette_length as nat),
            Region::is_required_bits(parsed_palette_length as nat, bits as nat),
            2 <= bits <= usize::BITS,
            pow2(bits as nat) >= parsed_palette_length,
            bits > 2 ==> pow2((bits - 1) as nat) < parsed_palette_length,
            forall|b: nat| 2 <= b && #[trigger] pow2(b) >= parsed_palette_length ==> bits <= b,
    {
        let mut bits: u64 = 2;
        let mut capacity: u128 = 4;
        proof {
            lemma2_to64();
            vstd::layout::unsigned_int_max_values();
        }
        while capacity < parsed_palette_length as u128
            invariant
                2 <= bits <= usize::BITS,
                usize::BITS <= 64,
                capacity == pow2(bits as nat),
                bits > 2 ==> pow2((bits - 1) as nat) < parsed_palette_length,
                usize::MAX == pow2(usize::BITS as nat) - 1,
            decreases usize::BITS - bits,
        {
            proof {
                if bits >= usize::BITS {
                    assert(bits == usize::BITS);
                    assert(false);
                }
                lemma_pow2_unfold((bits + 1) as nat);
                if bits + 1 < 64 {
                    lemma_pow2_strictly_increases((bits + 1) as nat, 64);
                }
            }
            capacity = capacity * 2;
            bits = bits + 1;
        }
        proof {
            assert forall|b: nat| 2 <= b && #[trigger] pow2(b) >= parsed_palette_length implies bits
                <= b by {
                if b < bits {
                    if b < bits - 1 {
                        lemma_pow2_strictly_increases(b, (bits - 1) as nat);
                    }
                }
            }
            assert(Region::is_required_bits(parsed_palette_length as nat, bits as nat));
            Region::lemma_required_bits_unique(
                parsed_palette_length as nat,
                bits as nat,
                Region::spec_calculate_bits(parsed_palette_length as nat),
            );
        }
        bits
    }

    /// The number of words of a packed array that holds `region_volume`
    /// fields of `bits` bits each.
    pub fn calculate_amt_of_longs(region_volume: i32, bits: u64) -> (longs: i32)
        requires
            region_volume >= 0,
            Region::spec_word_count(region_volume as nat, bits as nat) <= i32::MAX,
        ensures
            longs == Region::spec_word_count(region_volume as nat, bits as nat),
    {
        assert(region_volume * bits <= 0x8000_0000 * 0x1_0000_0000_0000_0000) by (nonlinear_arith)
            requires
                0 <= region_volume < 0x8000_0000,
                0 <= bits < 0x1_0000_0000_0000_0000,
        ;
        let bits_required: u128 = region_volume as u128 * bits as u128;
        ((bits_required + 63) / 64) as i32
    }

    /// The field at `position`, for a position of any size.
    pub(crate) fn field_at(array: &[i64], position: u128, bits: u64) -> (value: usize)
        requires
            bits <= usize::BITS,
            position * bits < 64 * array.len(),
        ensures
            value == Region::spec_field(array@, position as nat, bits as nat),
            value < pow2(bits as nat),
    {
        proof {
            lemma_pow2_pos(bits as nat);
            if bits > 0 {
                assert(position <= position * bits) by (nonlinear_arith)
                    requires
                        bits >= 1,
                        position >= 0,
                ;
            }
        }
        let pos: u128 = if bits == 0 {
            0
        } else {
            position * bits as u128
        };
        let index: usize = (pos / 64) as usize;
        let shift: u128 = pos % 64;
        let w = load_window(array, index);
        let modulus = power_of_two(bits as u128);
        proof {
            vstd::bits::lemma_u128_shr_is_div(w, shift);
            lemma_bits_in_window(array@, index as int, shift as nat, bits as nat);
            lemma_bits_of_bound(w as nat, shift as nat, bits as nat);
            vstd::layout::unsigned_int_max_values();
            if bits < usize::BITS {
                lemma_pow2_strictly_increases(bits as nat, usize::BITS as nat);
            }
        }
        let value = (w >> shift) % modulus;
        value as usize
    }

    /// Read the field at `position_in_array` from an array packed with
    /// fields of `bits_per_position` bits.
    pub fn get_index_out_of_packed_array(
        array: &[i64],
        position_in_array: u64,
        bits_per_position: u64,
    ) -> (value: usize)
        requires
            bits_per_position <= usize::BITS,
            position_in_array * bits_per_position < 64 * array.len(),
        ensures
            value == Region::spec_field(
                array@,
                position_in_array as nat,
                bits_per_position as nat,
            ),
    {
        Region::field_at(array, position_in_array as u128, bits_per_position)
    }

    /// Write `value` into the field at `position_in_array` of an array
    /// packed with fields of `bits_per_position` bits. The field takes the
    /// low bits of `value`, as many as it has room for; every other field
    /// keeps what it held.
    pub fn set_index_in_packed_array(
        array: &mut [i64],
        value: i64,
        position_in_array: u64,
        bits_per_position: u64,
    )
        requires
            bits_per_position <= 64,
            position_in_array * bits_per_position < 64 * old(array).len(),
        ensures
            final(array)@.len() == old(array)@.len(),
            Region::spec_written(
                old(array)@,
                final(array)@,
                position_in_array as nat,
                bits_per_position as nat,
                (value as u64) as nat,
            ),
            forall|j: nat|
                j * bits_per_position < 64 * old(array)@.len() ==> #[trigger] Region::spec_field(
                    final(array)@,
                    j,
                    bits_per_position as nat,
                ) == if j == position_in_array {
                    (value as u64) as nat % pow2(
                        Region::field_room(
                            old(array)@.len(),
                            position_in_array as nat,
                            bits_per_position as nat,
                        ),
                    )
                } else {
                    Region::spec_field(old(array)@, j, bits_per_position as nat)
                },
    {
        assert(position_in_array * bits_per_position <= 0x1_0000_0000_0000_0000 * 64)
            by (nonlinear_arith)
            requires
                0 <= position_in_array < 0x1_0000_0000_0000_0000,
                0 <= bits_per_position <= 64,
        ;
        let ghost before = array@;
        let ghost bits = bits_per_position as nat;
        let pos: u128 = position_in_array as u128 * bits_per_position as u128;
        let index: usize = (pos / 64) as usize;
        let shift: u128 = pos % 64;
        let has_next = index + 1 < array.len();
        let room: u128 = if has_next || bits_per_position as u128 <= 64 - shift {
            bits_per_position as u128
        } else {
            64 - shift
        };
        let ghost cap: nat = if has_next { 128 } else { 64 };
        let w = load_window(array, index);
        let unit = power_of_two(shift);
        let modulus = power_of_two(room);
        proof {
            lemma_pow2_pos(room as nat);
            lemma_pow2_pos(shift as nat);
        }
        let new_field = unsigned_word(value) as u128 % modulus;
        proof {
            vstd::bits::lemma_u128_shr_is_div(w, shift);
            lemma_three_parts(w as nat, shift as nat, room as nat);
            lemma_splice_bound(w as nat, shift as nat, room as nat, new_field as nat, cap);
            lemma2_to64();
            lemma_pow2_adds(64, 64);
            assert(bits_of(w as nat, shift as nat, room as nat) * pow2(shift as nat) <= w)
                by (nonlinear_arith)
                requires
                    w == w as nat % pow2(shift as nat) + bits_of(
                        w as nat,
                        shift as nat,
                        room as nat,
                    ) * pow2(shift as nat) + (w as nat / pow2((shift + room) as nat)) * pow2(
                        (shift + room) as nat,
                    ),
            ;
        }
        let old_field = (w >> shift) % modulus;
        let cleared = w - old_field * unit;
        let spliced = cleared + new_field * unit;
        assert(spliced == splice(w as nat, shift as nat, room as nat, new_field as nat));
        let low = signed_word((spliced % 0x1_0000_0000_0000_0000u128) as u64);
        array[index] = low;
        if has_next {
            let high = signed_word((spliced / 0x1_0000_0000_0000_0000u128) as u64);
            array[index + 1] = high;
        }
        proof {
            let after = array@;
            let off = (64 * index + shift) as nat;
            let b0 = bit_string(before);
            let b1 = bit_string(after);
            let place = pow2((64 * index) as nat);
            assert(off == position_in_array * bits_per_position);
            assert(window(after, index as int) == spliced);
            // the whole array changes as the window does
            lemma_bit_string_update(before, index as int, low);
            if has_next {
                lemma_bit_string_update(
                    before.update(index as int, low),
                    index + 1,
                    after[index + 1],
                );
                assert(after =~= before.update(index as int, low).update(index + 1, after[index + 1]));
                lemma_pow2_adds(64, (64 * index) as nat);
            } else {
                assert(after =~= before.update(index as int, low));
            }
            assert(b1 == b0 + (spliced - w) * place) by (nonlinear_arith)
                requires
                    has_next ==> b1 == b0 - (before[index as int] as u64) * place + (low as u64)
                        * place - (before[index + 1] as u64) * (pow2(64) * place) + (
                    after[index + 1] as u64) * (pow2(64) * place),
                    !has_next ==> b1 == b0 - (before[index as int] as u64) * place + (low as u64)
                        * place,
                    has_next ==> w == (before[index as int] as u64) + (before[index + 1] as u64)
                        * pow2(64),
                    !has_next ==> w == (before[index as int] as u64),
                    has_next ==> spliced == (low as u64) + (after[index + 1] as u64) * pow2(64),
                    !has_next ==> spliced == (low as u64),
            ;
            lemma_pow2_adds((64 * index) as nat, shift as nat);
            lemma_bits_in_window(before, index as int, shift as nat, room as nat);
            assert(b1 == splice(b0, off, room as nat, new_field as nat)) by (nonlinear_arith)
                requires
                    b1 == b0 + (spliced - w) * place,
                    spliced == w - bits_of(w as nat, shift as nat, room as nat) * pow2(
                        shift as nat,
                    ) + new_field * pow2(shift as nat),
                    pow2(off) == place * pow2(shift as nat),
                    bits_of(b0, off, room as nat) == bits_of(w as nat, shift as nat, room as nat),
                    splice(b0, off, room as nat, new_field as nat) == b0 - bits_of(
                        b0,
                        off,
                        room as nat,
                    ) * pow2(off) + new_field * pow2(off),
            ;
            assert(room == Region::field_room(before.len(), position_in_array as nat, bits));
            assert(Region::spec_written(
                before,
                after,
                position_in_array as nat,
                bits,
                (value as u64) as nat,
            ));
            assert forall|j: nat| j * bits < 64 * before.len() implies #[trigger] Region::spec_field(
                after,
                j,
                bits,
            ) == if j == position_in_array {
                (value as u64) as nat % pow2(
                    Region::field_room(before.len(), position_in_array as nat, bits),
                )
            } else {
                Region::spec_field(before, j, bits)
            } by {
                Region::lemma_write_then_read(
                    before,
                    after,
                    position_in_array as nat,
                    bits,
                    (value as u64) as nat,
                    j,
                );
            }
        }
    }
}

} // verus!

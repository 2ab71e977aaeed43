use litematic_editor::{Region, Vector3};

#[test]
fn region_test_bits_required() {
    assert_eq!(Region::calculate_bits(0b1), 2);
    assert_eq!(Region::calculate_bits(0b10), 2);
    assert_eq!(Region::calculate_bits(0b11), 2);
    assert_eq!(Region::calculate_bits(0b1111), 4);
    assert_eq!(Region::calculate_bits(0b10000), 4);
    assert_eq!(Region::calculate_bits(0b110110), 6);
    assert_eq!(Region::calculate_bits(0b10101010000), 11);
}

#[test]
fn utils_test_bits_required() {
    assert_eq!(Region::calculate_bits(0b1), 2);
    assert_eq!(Region::calculate_bits(0b10), 2);
    assert_eq!(Region::calculate_bits(0b11), 2);
    assert_eq!(Region::calculate_bits(0b1111), 4);
    assert_eq!(Region::calculate_bits(0b10000), 4);
    assert_eq!(Region::calculate_bits(0b110110), 6);
    assert_eq!(Region::calculate_bits(0b10101010000), 11);
}

#[test]
fn region_test_index_to_coords() {
    assert_eq!(
        Region::index_to_coords(Vector3::new(4, 6, 5), 53),
        Some(Vector3::new(1, 2, 3))
    );

    assert_eq!(Region::index_to_coords(Vector3::new(0, 0, 0), 0), None);
    assert_eq!(Region::index_to_coords(Vector3::new(0, 0, 0), 1), None);

    assert_eq!(
        Region::index_to_coords(Vector3::new(4, 6, 5), 54),
        Some(Vector3::new(2, 2, 3))
    );

    assert_eq!(
        Region::index_to_coords(Vector3::new(2, 3, 3), 1),
        Some(Vector3::new(1, 0, 0))
    );

    assert_eq!(
        Region::index_to_coords(Vector3::new(2, 3, 3), 9),
        Some(Vector3::new(1, 1, 1))
    );
}

#[test]
fn utils_test_index_to_coords() {
    assert_eq!(
        Region::index_to_coords(Vector3::new(4, 6, 5), 53),
        Some(Vector3::new(1, 2, 3))
    );

    assert_eq!(Region::index_to_coords(Vector3::new(0, 0, 0), 0), None);
    assert_eq!(Region::index_to_coords(Vector3::new(0, 0, 0), 1), None);

    assert_eq!(
        Region::index_to_coords(Vector3::new(4, 6, 5), 54),
        Some(Vector3::new(2, 2, 3))
    );

    assert_eq!(
        Region::index_to_coords(Vector3::new(2, 3, 3), 1),
        Some(Vector3::new(1, 0, 0))
    );

    assert_eq!(
        Region::index_to_coords(Vector3::new(2, 3, 3), 9),
        Some(Vector3::new(1, 1, 1))
    );

    assert_eq!(
        Region::index_to_coords(Vector3::new(2, -3, 3), 9),
        Some(Vector3::new(1, 1, 1))
    );
}

#[test]
fn region_test_get_index_out_of_packed_array() {
    let array: &[i64] = &[0x0123456789abcdef, 0x1032547698badcfe];
    let bits = 7;

    assert_eq!(Region::get_index_out_of_packed_array(array, 0, bits), 111);
    assert_eq!(Region::get_index_out_of_packed_array(array, 1, bits), 27);
    assert_eq!(Region::get_index_out_of_packed_array(array, 10, bits), 115);
    assert_eq!(Region::get_index_out_of_packed_array(array, 9, bits), 124);
}

#[test]
fn utils_test_get_index_out_of_packed_array() {
    let array: &[i64] = &[0x0123456789abcdef, 0x1032547698badcfe];
    let bits = 7;

    assert_eq!(Region::get_index_out_of_packed_array(array, 0, bits), 111);
    assert_eq!(Region::get_index_out_of_packed_array(array, 1, bits), 27);
    assert_eq!(Region::get_index_out_of_packed_array(array, 10, bits), 115);
    assert_eq!(Region::get_index_out_of_packed_array(array, 9, bits), 124);
}

#[test]
fn test_calculate_amt_of_longs() {
    assert_eq!(Region::calculate_amt_of_longs(100, 1), 2);
    assert_eq!(Region::calculate_amt_of_longs(128, 1), 2);
    assert_eq!(Region::calculate_amt_of_longs(128, 2), 4);
    assert_eq!(Region::calculate_amt_of_longs(683, 5), 54);
}

#[test]
fn test_set_index_in_packed_array() {
    let array: &mut [i64] = &mut [0, 0];
    let bits = 7;

    Region::set_index_in_packed_array(array, 111, 0, bits);
    Region::set_index_in_packed_array(array, 27, 1, bits);
    Region::set_index_in_packed_array(array, 115, 10, bits);
    Region::set_index_in_packed_array(array, 124, 9, bits);

    assert_eq!(Region::get_index_out_of_packed_array(array, 0, bits), 111);
    assert_eq!(Region::get_index_out_of_packed_array(array, 1, bits), 27);
    assert_eq!(Region::get_index_out_of_packed_array(array, 10, bits), 115);
    assert_eq!(Region::get_index_out_of_packed_array(array, 9, bits), 124);
}

#[test]
fn test_coords_to_index() {
    assert_eq!(
        Region::coords_to_index(
            Vector3::new(1, 2, 3),
            Region::index_to_coords(Vector3::new(1, 2, 3), 5).unwrap()
        ),
        Some(5)
    );

    assert_eq!(
        Region::coords_to_index(
            Vector3::new(6, 3, 1),
            Region::index_to_coords(Vector3::new(6, 3, 1), 14).unwrap()
        ),
        Some(14)
    );

    assert_eq!(
        Region::coords_to_index(
            Vector3::new(5, 7, 3),
            Region::index_to_coords(Vector3::new(5, 7, 3), 36).unwrap()
        ),
        Some(36)
    );

    assert_eq!(
        Region::coords_to_index(Vector3::new(2, 2, 2), Vector3::new(2, 6, 3)),
        None
    );
    assert_eq!(
        Region::coords_to_index(Vector3::new(2, 2, 2), Vector3::new(2, 1, 1)),
        None
    );
}

#[test]
fn bits_required_is_the_least_width_that_holds_the_palette() {
    assert_eq!(Region::calculate_bits(0), 2);
    assert_eq!(Region::calculate_bits(4), 2);
    assert_eq!(Region::calculate_bits(5), 3);
    assert_eq!(Region::calculate_bits(8), 3);
    assert_eq!(Region::calculate_bits(9), 4);
    assert_eq!(Region::calculate_bits(54), 6);
    assert_eq!(Region::calculate_bits(1360), 11);
    assert_eq!(Region::calculate_bits(1 << 20), 20);
    assert_eq!(Region::calculate_bits((1 << 20) + 1), 21);
    let mut n: usize = 1;
    while n < 5000 {
        let bits = Region::calculate_bits(n);
        assert!(bits >= 2);
        assert!((1usize << bits) >= n);
        assert!(bits == 2 || (1usize << (bits - 1)) < n);
        n += 1;
    }
}

#[test]
fn word_count_rounds_up() {
    assert_eq!(Region::calculate_amt_of_longs(0, 5), 0);
    assert_eq!(Region::calculate_amt_of_longs(1, 2), 1);
    assert_eq!(Region::calculate_amt_of_longs(32, 2), 1);
    assert_eq!(Region::calculate_amt_of_longs(33, 2), 2);
    assert_eq!(Region::calculate_amt_of_longs(64, 64), 64);
    assert_eq!(Region::calculate_amt_of_longs(i32::MAX, 64), i32::MAX);
    assert_eq!(Region::calculate_amt_of_longs(36, 2), 2);
}

#[test]
fn packed_field_reads_across_the_sign_bit() {
    let array: &[i64] = &[-1, 0];
    assert_eq!(Region::get_index_out_of_packed_array(array, 0, 7), 127);
    assert_eq!(Region::get_index_out_of_packed_array(array, 8, 7), 127);
    assert_eq!(Region::get_index_out_of_packed_array(array, 9, 7), 1);
    assert_eq!(Region::get_index_out_of_packed_array(array, 10, 7), 0);

    let array: &[i64] = &[i64::MIN, 1];
    assert_eq!(Region::get_index_out_of_packed_array(array, 9, 7), 3);
    assert_eq!(Region::get_index_out_of_packed_array(array, 12, 5), 24);
    assert_eq!(Region::get_index_out_of_packed_array(array, 2, 32), 1);
}

#[test]
fn packed_field_cut_short_by_the_end_of_the_array() {
    let array: &mut [i64] = &mut [i64::MIN];
    assert_eq!(Region::get_index_out_of_packed_array(array, 9, 7), 1);

    Region::set_index_in_packed_array(array, 0, 9, 7);
    assert_eq!(array[0], 0);

    Region::set_index_in_packed_array(array, 0b111, 9, 7);
    assert_eq!(array[0], i64::MIN);
    assert_eq!(Region::get_index_out_of_packed_array(array, 9, 7), 1);
    assert_eq!(Region::get_index_out_of_packed_array(array, 8, 7), 0);
}

#[test]
fn packed_set_keeps_the_low_bits_of_the_value() {
    let array: &mut [i64] = &mut [0, 0];
    Region::set_index_in_packed_array(array, 0x1ff, 3, 4);
    assert_eq!(Region::get_index_out_of_packed_array(array, 3, 4), 0xf);
    assert_eq!(Region::get_index_out_of_packed_array(array, 2, 4), 0);
    assert_eq!(Region::get_index_out_of_packed_array(array, 4, 4), 0);
    Region::set_index_in_packed_array(array, -1, 5, 4);
    assert_eq!(Region::get_index_out_of_packed_array(array, 5, 4), 0xf);
    assert_eq!(array[0], 0x00f0_f000);
}

#[test]
fn packed_set_then_get_gives_the_value_and_leaves_the_rest() {
    let mut bits: u64 = 2;
    while bits <= 32 {
        let words: usize = 3;
        let fields: u64 = (words as u64 * 64) / bits;
        let mut array: Vec<i64> = vec![0x5a5a_5a5a_5a5a_5a5a, -0x1234_5678_9abc_def1, 0x0f0f];
        let mut expected: Vec<usize> = Vec::new();
        let mut i: u64 = 0;
        while i < fields {
            expected.push(Region::get_index_out_of_packed_array(&array, i, bits));
            i += 1;
        }
        let mut i: u64 = 0;
        while i < fields {
            let value = ((i * 2654435761) % (1u64 << bits)) as usize;
            Region::set_index_in_packed_array(&mut array, value as i64, i, bits);
            expected[i as usize] = value;
            let mut j: u64 = 0;
            while j < fields {
                assert_eq!(
                    Region::get_index_out_of_packed_array(&array, j, bits),
                    expected[j as usize]
                );
                j += 1;
            }
            i += 1;
        }
        bits += 1;
    }
}

#[test]
fn packed_set_overwrites_what_the_field_held() {
    let array: &mut [i64] = &mut [-1, -1];
    Region::set_index_in_packed_array(array, 0, 9, 7);
    assert_eq!(array[0], i64::MAX);
    assert_eq!(array[1], -64);
    assert_eq!(Region::get_index_out_of_packed_array(array, 9, 7), 0);
    assert_eq!(Region::get_index_out_of_packed_array(array, 8, 7), 127);
    assert_eq!(Region::get_index_out_of_packed_array(array, 10, 7), 127);
}

#[test]
fn coordinates_and_indices_are_each_other_s_inverse() {
    let size = Vector3::new(3, 4, 5);
    let mut index: u64 = 0;
    while index < 60 {
        let coords = Region::index_to_coords(size, index).unwrap();
        assert_eq!(Region::coords_to_index(size, coords), Some(index));
        index += 1;
    }
    assert_eq!(Region::index_to_coords(size, 60), None);
    assert_eq!(Region::index_to_coords(size, u64::MAX), None);
    assert_eq!(
        Region::coords_to_index(size, Vector3::new(2, 3, 4)),
        Some(59)
    );
    assert_eq!(Region::coords_to_index(size, Vector3::new(0, 1, 0)), Some(15));
    assert_eq!(Region::coords_to_index(size, Vector3::new(0, 0, 1)), Some(3));
    assert_eq!(Region::coords_to_index(size, Vector3::new(-1, 0, 0)), None);
    assert_eq!(Region::coords_to_index(size, Vector3::new(3, 0, 0)), None);
    assert_eq!(Region::coords_to_index(size, Vector3::new(0, 4, 0)), None);
    assert_eq!(Region::coords_to_index(size, Vector3::new(0, 0, 5)), None);
    assert_eq!(
        Region::coords_to_index(Vector3::new(-3, 4, 5), Vector3::new(0, 0, 0)),
        None
    );
}

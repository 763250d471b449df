use bondrewd_derive::masks::{get_be_starting_index, get_left_and_mask, get_right_and_mask, MaskAndShift};

#[test]
fn left_masks_table() {
    assert_eq!(get_left_and_mask(0), 0b0000_0000);
    assert_eq!(get_left_and_mask(1), 0b1000_0000);
    assert_eq!(get_left_and_mask(3), 0b1110_0000);
    assert_eq!(get_left_and_mask(8), 0b1111_1111);
    assert_eq!(get_left_and_mask(9), 0b0000_0000);
}

#[test]
fn right_masks_table() {
    assert_eq!(get_right_and_mask(0), 0b0000_0000);
    assert_eq!(get_right_and_mask(1), 0b0000_0001);
    assert_eq!(get_right_and_mask(5), 0b0001_1111);
    assert_eq!(get_right_and_mask(8), 0b1111_1111);
    assert_eq!(get_right_and_mask(12), 0b0000_0000);
}

#[test]
fn left_and_right_masks_partition_each_byte() {
    for n in 0..=8usize {
        let left = get_left_and_mask(8 - n);
        let right = get_right_and_mask(n);
        assert_eq!(left & right, 0);
        assert_eq!(left | right, 0xff);
    }
}

#[test]
fn be_starting_index_values() {
    // ceil((16 - 0) / 8) = 2 bytes before the last index.
    assert_eq!(get_be_starting_index(16, 0, 3), Ok(1));
    // ceil((9 - 1) / 8) = 1
    assert_eq!(get_be_starting_index(9, 1, 1), Ok(0));
    // ceil((9 - -3) / 8) = ceil(12 / 8) = 2
    assert_eq!(get_be_starting_index(9, -3, 5), Ok(3));
    // a rotation larger than the field gives 0
    assert_eq!(get_be_starting_index(3, 5, 0), Ok(0));
}

#[test]
fn be_starting_index_error_text() {
    let r = get_be_starting_index(32, 0, 2);
    assert_eq!(
        r,
        Err("Failed getting the starting index for big endianness, aob: 32, rr: 0, li: 2, f: 4.".to_string())
    );
    let r = get_be_starting_index(16, -3, 1);
    assert_eq!(
        r,
        Err("Failed getting the starting index for big endianness, aob: 16, rr: -3, li: 1, f: 3.".to_string())
    );
}

#[test]
fn mask_and_shift_values() {
    let m = MaskAndShift::from_start_end(0, 7);
    assert_eq!(m.split(), (0b1111_1111, 0));
    let m = MaskAndShift::from_start_end(2, 4);
    assert_eq!(m.split(), (0b0011_1000, 3));
    let m = MaskAndShift::from_start_end(7, 7);
    assert_eq!(m.split(), (0b0000_0001, 0));
    let m = MaskAndShift::from_start_end(0, 0);
    assert_eq!(m.split(), (0b1000_0000, 7));
}

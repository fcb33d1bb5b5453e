use lenticular::create_line_index_mapping_advanced;

#[test]
fn test_create_line_index_mapping_advanced() {
    let result = create_line_index_mapping_advanced(16, &[4, 4], 0);
    println!("result: {:?}", result);
    assert_eq!(result, [0, 1, 2, 3, 8, 9, 10, 11, 16, 17, 18, 19, 24, 25, 26, 27]);

    let result = create_line_index_mapping_advanced(17, &[4, 4], 0);
    println!("result: {:?}", result);
    assert_eq!(result, [0, 1, 2, 3, 8, 9, 10, 11, 16, 17, 18, 19, 24, 25, 26, 27, 32]);
}

#[test]
fn two_even_stripes_first_image() {
    let result = create_line_index_mapping_advanced(12, &[3, 3], 0);
    assert_eq!(result, [0, 1, 2, 6, 7, 8, 12, 13, 14, 18, 19, 20]);
}

#[test]
fn three_even_stripes_second_image() {
    let result = create_line_index_mapping_advanced(12, &[4, 4, 4], 1);
    assert_eq!(result, [4, 5, 6, 7, 16, 17, 18, 19, 28, 29, 30, 31]);
}

#[test]
fn uneven_stripes_first_image() {
    let result = create_line_index_mapping_advanced(12, &[3, 3, 2], 0);
    assert_eq!(result, [0, 1, 2, 8, 9, 10, 16, 17, 18, 24, 25, 26]);
}

#[test]
fn single_pixel_stripes_second_of_four() {
    let result = create_line_index_mapping_advanced(16, &[1, 1, 1, 1], 1);
    assert_eq!(result, [1, 5, 9, 13, 17, 21, 25, 29, 33, 37, 41, 45, 49, 53, 57, 61]);
}

#[test]
fn uneven_stripes_last_image() {
    let result = create_line_index_mapping_advanced(5, &[3, 3, 2], 2);
    assert_eq!(result, [6, 7, 14, 15, 22]);
}

#[test]
fn empty_local_width_maps_nothing() {
    let result = create_line_index_mapping_advanced(0, &[3, 3], 1);
    assert!(result.is_empty());
}

#[test]
fn largest_widths_do_not_overflow() {
    let total = u32::MAX as u64;
    let result = create_line_index_mapping_advanced(3, &[u32::MAX - 1, 1], 1);
    let offset = (u32::MAX - 1) as u64;
    assert_eq!(result, [offset, total + offset, 2 * total + offset]);
}

use lenticular::{
    is_matching_params, resolution_rational, Cmyk8Color, Color, ColorType, DpiInfo, Error,
    MatrixImage, ScaleAlgorithm, SourceParams, TypedRawImage,
};

#[test]
fn pixels_from_bytes() {
    let px = Cmyk8Color::from_slice(&[1, 2, 3, 4, 5, 6, 7, 8]);
    assert_eq!(px, vec![Cmyk8Color { c: 1, m: 2, y: 3, k: 4 }, Cmyk8Color { c: 5, m: 6, y: 7, k: 8 }]);
}

#[test]
fn matrix_round_trips_bytes() {
    let data: Vec<u8> = (0u8..24).collect();
    let m = MatrixImage::from_slice(&data, 3, 2).unwrap();
    assert_eq!((m.width(), m.height()), (3, 2));
    assert_eq!(m.pixel(1, 0), Cmyk8Color { c: 12, m: 13, y: 14, k: 15 });
    assert_eq!(m.to_bytes(), data);
    assert!(m.info().is_none());
}

#[test]
fn matrix_rejects_wrong_length() {
    let data: Vec<u8> = vec![0; 20];
    assert!(matches!(MatrixImage::from_slice(&data, 3, 2), Err(Error::InvalidInput(_))));
}

#[test]
fn new_matrix_is_blank() {
    let m = MatrixImage::new(5, 4);
    assert_eq!((m.width(), m.height()), (5, 4));
    assert!(m.to_bytes().iter().all(|&b| b == 0));
}

#[test]
fn copy_column_moves_one_column() {
    let mut dst = MatrixImage::new(3, 2);
    let src = MatrixImage::from_slice(&(1u8..=16).collect::<Vec<u8>>(), 2, 2).unwrap();
    dst.copy_column_from(2, &src, 1);
    assert_eq!(dst.pixel(0, 2), Cmyk8Color { c: 5, m: 6, y: 7, k: 8 });
    assert_eq!(dst.pixel(1, 2), Cmyk8Color { c: 13, m: 14, y: 15, k: 16 });
    assert_eq!(dst.pixel(0, 1), Cmyk8Color::default());
}

#[test]
fn set_info_attaches_dpi() {
    let mut m = MatrixImage::new(1, 1);
    m.set_info(DpiInfo { dpi_h: 1, dpi_w: 2 });
    assert_eq!(m.info(), Some(&DpiInfo { dpi_h: 1, dpi_w: 2 }));
}

#[test]
fn matching_params() {
    let mut a = SourceParams::default();
    a.set_color_type(ColorType::CMYK(8));
    a.set_source_dimensions(10, 20);
    let mut b = SourceParams::default();
    assert!(!is_matching_params(&a, &b));
    b.set_color_type(ColorType::CMYK(8));
    b.set_source_dimensions(10, 20);
    assert!(is_matching_params(&a, &b));
    b.set_source_dimensions(10, 21);
    assert!(!is_matching_params(&a, &b));
    b.set_source_dimensions(10, 20);
    b.set_color_type(ColorType::CMYK(16));
    assert!(!is_matching_params(&a, &b));
}

#[test]
fn resolution_tags_are_kept() {
    let mut p = SourceParams::default();
    p.set_resolution(
        2,
        tiff::decoder::ifd::Value::Rational(300, 1),
        tiff::decoder::ifd::Value::Rational(600, 1),
    );
    assert_eq!(p.resolution_unit, 2);
    assert!(matches!(p.x_resolution, Some(tiff::decoder::ifd::Value::Rational(300, 1))));
    assert!(matches!(p.y_resolution, Some(tiff::decoder::ifd::Value::Rational(600, 1))));
}

#[test]
fn resolution_rational_scales_and_saturates() {
    assert_eq!(resolution_rational(916_000), (916_000, 10_000));
    assert_eq!(resolution_rational(u64::MAX), (u32::MAX, 10_000));
}

#[test]
fn scale_algorithm_default_is_bilinear() {
    assert_eq!(ScaleAlgorithm::default(), ScaleAlgorithm::Bilinear);
}

#[test]
fn typed_raw_image_holds_values() {
    let _img: TypedRawImage<Cmyk8Color> = TypedRawImage::new(vec![0; 4], 1, 1, 10, 20);
}

#[test]
fn place_columns_counts_dropped_columns() {
    let mut composite = MatrixImage::new(5, 1);
    let resized = MatrixImage::from_slice(&[1, 1, 1, 1, 2, 2, 2, 2, 3, 3, 3, 3], 3, 1).unwrap();
    let dropped = lenticular::place_columns(&mut composite, &resized, &[1, 1], 1);
    assert_eq!(dropped, 1);
    assert_eq!(composite.pixel(0, 1), Cmyk8Color { c: 1, m: 1, y: 1, k: 1 });
    assert_eq!(composite.pixel(0, 3), Cmyk8Color { c: 2, m: 2, y: 2, k: 2 });
    assert_eq!(composite.pixel(0, 0), Cmyk8Color::default());
    assert_eq!(composite.pixel(0, 4), Cmyk8Color::default());
}

#[test]
fn gcd_of_widths() {
    assert_eq!(lenticular::search::gcd_u32(12, 18), 6);
    assert_eq!(lenticular::search::gcd_u32(0, 7), 7);
    assert_eq!(lenticular::search::widths_gcd(&[4, 6, 10]), 2);
    assert_eq!(lenticular::search::widths_gcd(&[]), 0);
}

#[test]
fn checked_sum_and_max() {
    assert_eq!(lenticular::mapping::checked_width_sum(&[3, 3, 2]), Some(8));
    assert_eq!(lenticular::mapping::checked_width_sum(&[u32::MAX, 1]), None);
    assert_eq!(lenticular::planner::max_width(&[3, 7, 2]), 7);
    assert_eq!(lenticular::mapping::prefix_width_sum(&[3, 3, 2], 2), 6);
}

use lenticular::{
    calc_output_info, normalize, plan, process_tiff_cmyk8, process_tiff_cmyk8_counted,
    resize_cmyk8, search_stripe_widths,
    Cmyk8Color, ColorType, DecodedImage, DpiInfo, Error, ImageOptions, InputImageContext,
    MatrixImage, OutputInfo, ProcessOptions, ScaleAlgorithm, SourceParams,
};

fn geometry(width: u32, height: u32) -> SourceParams {
    let mut p = SourceParams::default();
    p.set_color_type(ColorType::CMYK(8));
    p.set_source_dimensions(width, height);
    p
}

fn flat_image(width: u32, height: u32, value: u8, stripe: u32) -> DecodedImage {
    DecodedImage {
        params: geometry(width, height),
        pixels: vec![value; (width * height * 4) as usize],
        options: ImageOptions { lenticular_width_px: stripe },
    }
}

/// 10 LPI over 2.54 cm.
fn ten_lpi_one_inch() -> ProcessOptions {
    ProcessOptions::new(100_000, 25_400)
}

#[test]
fn plan_two_unit_stripes() {
    let info = plan(geometry(100, 100), &[1, 1], &ten_lpi_one_inch()).unwrap();
    assert_eq!(info.dpi_h, 100_000);
    assert_eq!(info.dpi_w, 200_000);
    // 2.54 cm is 0.999998 in at 0.3937 in/cm.
    assert_eq!(info.width, 19);
    assert_eq!(info.height, 9);
    assert_eq!(info.source_params.width, 100);
}

#[test]
fn plan_exact_inch_gives_round_sizes() {
    // 2.5401 cm is just over one inch at 0.3937 in/cm.
    let opts = ProcessOptions::new(100_000, 25_401);
    let info = plan(geometry(100, 100), &[1, 1], &opts).unwrap();
    assert_eq!((info.width, info.height), (20, 10));
    assert_eq!((info.dpi_h, info.dpi_w), (100_000, 200_000));
}

#[test]
fn plan_is_order_independent() {
    let opts = ProcessOptions::new(916_000, 106_000);
    let a = plan(geometry(3000, 2000), &[1, 2, 3], &opts).unwrap();
    let b = plan(geometry(3000, 2000), &[3, 1, 2], &opts).unwrap();
    assert_eq!((a.width, a.height, a.dpi_h, a.dpi_w), (b.width, b.height, b.dpi_h, b.dpi_w));
    assert_eq!(a.dpi_h, 916_000 * 3);
    assert_eq!(a.dpi_w, 916_000 * 6);
}

#[test]
fn plan_rejects_bad_inputs() {
    let opts = ten_lpi_one_inch();
    assert!(matches!(plan(geometry(100, 100), &[], &opts), Err(Error::InvalidInput(_))));
    assert!(matches!(plan(geometry(100, 100), &[1, 0], &opts), Err(Error::InvalidInput(_))));
    assert!(matches!(
        plan(geometry(100, 100), &[1], &ProcessOptions::new(0, 25_400)),
        Err(Error::InvalidInput(_))
    ));
    assert!(matches!(
        plan(geometry(100, 100), &[1], &ProcessOptions::new(100_000, 0)),
        Err(Error::InvalidInput(_))
    ));
    assert!(matches!(plan(SourceParams::default(), &[1], &opts), Err(Error::InvalidInput(_))));
    assert!(matches!(
        plan(geometry(100, 100), &[u32::MAX, 1], &opts),
        Err(Error::InvalidInput(_))
    ));
}

#[test]
fn calc_output_info_reads_widths_from_inputs() {
    let mut inputs = vec![
        InputImageContext::new((), ImageOptions { lenticular_width_px: 1 }),
        InputImageContext::new((), ImageOptions { lenticular_width_px: 1 }),
    ];
    let opts = ten_lpi_one_inch();
    let info = calc_output_info(&mut inputs, geometry(100, 100), &opts).unwrap();
    assert_eq!((info.width, info.height), (19, 9));
    let again = opts.calc_output_info(&mut inputs, geometry(100, 100)).unwrap();
    assert_eq!((again.width, again.height), (19, 9));
    assert_eq!(inputs[1].image_options().lenticular_width_px, 1);
}

#[test]
fn image_options_mut_changes_width() {
    let mut ctx = InputImageContext::new(7u8, ImageOptions { lenticular_width_px: 1 });
    ctx.image_options_mut().lenticular_width_px = 3;
    assert_eq!(ctx.image_options().lenticular_width_px, 3);
    assert_eq!(*ctx.reader_mut(), 7);
}

#[test]
fn end_to_end_two_images() {
    let opts = ten_lpi_one_inch();
    let info = plan(geometry(100, 100), &[1, 1], &opts).unwrap();
    let inputs = vec![flat_image(100, 100, 0x11, 1), flat_image(100, 100, 0x22, 1)];
    let out = process_tiff_cmyk8(inputs, &info, ScaleAlgorithm::Nearest).unwrap();
    assert_eq!((out.width(), out.height()), (19, 9));
    assert_eq!(out.info(), Some(&DpiInfo { dpi_h: 100_000, dpi_w: 200_000 }));
    let a = Cmyk8Color { c: 0x11, m: 0x11, y: 0x11, k: 0x11 };
    let b = Cmyk8Color { c: 0x22, m: 0x22, y: 0x22, k: 0x22 };
    for row in 0..9 {
        for col in 0..18 {
            let want = if col % 2 == 0 { a } else { b };
            assert_eq!(out.pixel(row, col), want);
        }
        // Each image is fitted to floor(19 / 2) = 9 columns; column 18 is nobody's.
        assert_eq!(out.pixel(row, 18), Cmyk8Color::default());
    }
    let fixed = normalize(out).unwrap();
    assert_eq!((fixed.width(), fixed.height()), (19, 18));
    assert_eq!(fixed.info(), Some(&DpiInfo { dpi_h: 200_000, dpi_w: 200_000 }));
}

#[test]
fn end_to_end_one_inch() {
    let opts = ProcessOptions::new(100_000, 25_401);
    let info = plan(geometry(100, 100), &[1, 1], &opts).unwrap();
    assert_eq!((info.dpi_h, info.dpi_w), (100_000, 200_000));
    assert_eq!((info.width, info.height), (20, 10));
    let inputs = vec![flat_image(100, 100, 1, 1), flat_image(100, 100, 2, 1)];
    let out = process_tiff_cmyk8(inputs, &info, ScaleAlgorithm::Bilinear).unwrap();
    let fixed = normalize(out).unwrap();
    assert_eq!((fixed.width(), fixed.height()), (20, 20));
    assert_eq!(fixed.info(), Some(&DpiInfo { dpi_h: 200_000, dpi_w: 200_000 }));
}

#[test]
fn mismatched_geometry_is_rejected() {
    let opts = ten_lpi_one_inch();
    let info = plan(geometry(100, 100), &[1, 1], &opts).unwrap();
    let inputs = vec![flat_image(100, 100, 1, 1), flat_image(100, 50, 2, 1)];
    let r = process_tiff_cmyk8(inputs, &info, ScaleAlgorithm::Nearest);
    assert!(matches!(r, Err(Error::InvalidInput(_))));
}

#[test]
fn compose_rejects_empty_and_non_cmyk() {
    let opts = ten_lpi_one_inch();
    let info = plan(geometry(100, 100), &[1, 1], &opts).unwrap();
    let r = opts.process_tiff_cmyk8(vec![], &info, ScaleAlgorithm::Nearest);
    assert!(matches!(r, Err(Error::InvalidInput(_))));

    let mut rgb = flat_image(100, 100, 1, 1);
    rgb.params.set_color_type(ColorType::RGB(8));
    let info = plan(geometry(100, 100), &[1, 1], &opts).unwrap();
    let r = process_tiff_cmyk8(vec![flat_image(100, 100, 1, 1), rgb], &info, ScaleAlgorithm::Nearest);
    assert!(matches!(r, Err(Error::InvalidInput(_))));

    let mut short = flat_image(100, 100, 1, 1);
    short.pixels.pop();
    let info = plan(geometry(100, 100), &[1, 1], &opts).unwrap();
    let r = process_tiff_cmyk8(vec![short], &info, ScaleAlgorithm::Nearest);
    assert!(matches!(r, Err(Error::InvalidInput(_))));
}

#[test]
fn compose_zero_height_is_a_resample_error() {
    // 0.0001 LPI plans a composite with no rows.
    let opts = ProcessOptions::new(1, 25_400);
    let info = plan(geometry(100, 100), &[1], &opts).unwrap();
    assert_eq!(info.height, 0);
    let r = process_tiff_cmyk8(vec![flat_image(100, 100, 1, 1)], &info, ScaleAlgorithm::Nearest);
    assert!(matches!(r, Err(Error::Resample(_))));
}

#[test]
fn images_alternate_columns() {
    let opts = ten_lpi_one_inch();
    let info = plan(geometry(4, 4), &[1, 1], &opts).unwrap();
    let out = process_tiff_cmyk8(
        vec![flat_image(4, 4, 3, 1), flat_image(4, 4, 9, 1)],
        &info,
        ScaleAlgorithm::Nearest,
    )
    .unwrap();
    assert_eq!(out.pixel(0, 0), Cmyk8Color { c: 3, m: 3, y: 3, k: 3 });
    assert_eq!(out.pixel(0, 1), Cmyk8Color { c: 9, m: 9, y: 9, k: 9 });
}

#[test]
fn search_widens_until_tall_enough() {
    let opts = ten_lpi_one_inch();
    let (widths, info) = search_stripe_widths(geometry(1000, 1000), &[2, 4], &opts).unwrap();
    assert_eq!(widths, vec![51, 102]);
    assert_eq!(info.height, 1019);
    assert!(info.height >= 1000);
}

#[test]
fn search_keeps_already_tall_widths() {
    let opts = ten_lpi_one_inch();
    let (widths, info) = search_stripe_widths(geometry(10, 10), &[3, 6], &opts).unwrap();
    assert_eq!(widths, vec![3, 6]);
    assert!(info.height >= 10);
}

#[test]
fn search_gives_up_after_its_bound() {
    let opts = ProcessOptions::new(1, 1);
    let r = search_stripe_widths(geometry(1000, 1000), &[1], &opts);
    assert!(matches!(r, Err(Error::SearchExhausted)));
}

#[test]
fn search_rejects_zero_width() {
    let r = search_stripe_widths(geometry(10, 10), &[0, 2], &ten_lpi_one_inch());
    assert!(matches!(r, Err(Error::InvalidInput(_))));
}

#[test]
fn normalize_equal_dpi_is_unchanged() {
    let mut m = MatrixImage::from_slice(&(0u8..24).collect::<Vec<u8>>(), 3, 2).unwrap();
    m.set_info(DpiInfo { dpi_h: 50_000, dpi_w: 50_000 });
    let before = m.to_bytes();
    let out = normalize(m).unwrap();
    assert_eq!((out.width(), out.height()), (3, 2));
    assert_eq!(out.to_bytes(), before);
    assert_eq!(out.info(), Some(&DpiInfo { dpi_h: 50_000, dpi_w: 50_000 }));
    let twice = normalize(out).unwrap();
    assert_eq!(twice.to_bytes(), before);
}

#[test]
fn normalize_stretches_the_lower_dpi_axis() {
    let mut m = MatrixImage::new(4, 3);
    m.set_info(DpiInfo { dpi_h: 100, dpi_w: 200 });
    let out = normalize(m).unwrap();
    assert_eq!((out.width(), out.height()), (4, 6));
    assert_eq!(out.info(), Some(&DpiInfo { dpi_h: 200, dpi_w: 200 }));

    let mut m = MatrixImage::new(4, 3);
    m.set_info(DpiInfo { dpi_h: 300, dpi_w: 200 });
    let out = normalize(m).unwrap();
    assert_eq!((out.width(), out.height()), (6, 3));
    assert_eq!(out.info(), Some(&DpiInfo { dpi_h: 300, dpi_w: 300 }));
}

#[test]
fn normalize_needs_dpi() {
    let m = MatrixImage::new(4, 3);
    assert!(matches!(normalize(m), Err(Error::InvalidInput(_))));
    let mut m = MatrixImage::new(4, 3);
    m.set_info(DpiInfo { dpi_h: 0, dpi_w: 200 });
    assert!(matches!(normalize(m), Err(Error::InvalidInput(_))));
}

#[test]
fn resize_changes_size_and_keeps_flat_colour() {
    let src = vec![7u8; 2 * 2 * 4];
    let out = resize_cmyk8(src, 2, 2, 3, 5, ScaleAlgorithm::Lanczos3).unwrap();
    assert_eq!(out.len(), 3 * 5 * 4);
    assert!(out.iter().all(|&b| b == 7));
}

#[test]
fn resize_errors() {
    assert!(matches!(
        resize_cmyk8(vec![0; 16], 0, 2, 3, 5, ScaleAlgorithm::Nearest),
        Err(Error::InvalidInput(_))
    ));
    assert!(matches!(
        resize_cmyk8(vec![0; 15], 2, 2, 3, 5, ScaleAlgorithm::Nearest),
        Err(Error::Resample(_))
    ));
    assert!(matches!(
        resize_cmyk8(vec![0; 16], 2, 2, 65536, 65536, ScaleAlgorithm::Nearest),
        Err(Error::Resample(_))
    ));
}

#[test]
fn calc_output_info_auto_width_updates_inputs() {
    let mut inputs = vec![
        InputImageContext::new(0u8, ImageOptions { lenticular_width_px: 2 }),
        InputImageContext::new(1u8, ImageOptions { lenticular_width_px: 4 }),
    ];
    let opts = ten_lpi_one_inch().with_auto_width(true);
    let info = opts.calc_output_info(&mut inputs, geometry(1000, 1000)).unwrap();
    assert_eq!(inputs[0].image_options().lenticular_width_px, 51);
    assert_eq!(inputs[1].image_options().lenticular_width_px, 102);
    assert_eq!(info.height, 1019);
    assert_eq!(*inputs[1].reader_mut(), 1);
}

#[test]
fn calc_output_info_auto_width_failure_keeps_inputs() {
    let mut inputs = vec![InputImageContext::new((), ImageOptions { lenticular_width_px: 1 })];
    let opts = ProcessOptions::new(1, 1).with_auto_width(true);
    let r = calc_output_info(&mut inputs, geometry(1000, 1000), &opts);
    assert!(matches!(r, Err(Error::SearchExhausted)));
    assert_eq!(inputs[0].image_options().lenticular_width_px, 1);
}

#[test]
fn counted_run_reports_dropped_columns() {
    let opts = ten_lpi_one_inch();
    let info = plan(geometry(100, 100), &[1, 1], &opts).unwrap();
    let inputs = vec![flat_image(100, 100, 1, 1), flat_image(100, 100, 2, 1)];
    let (out, dropped) = process_tiff_cmyk8_counted(inputs, &info, ScaleAlgorithm::Nearest).unwrap();
    assert_eq!(out.width(), 19);
    // Both images are fitted to 9 columns; all land below column 18.
    assert_eq!(dropped, vec![0, 0]);
}

#[test]
fn counted_run_drops_edge_columns() {
    // Widths [3, 2] on an 8-wide composite: image 1 is fitted to
    // floor(2 * 8 / 5) = 3 columns, landing at 3, 4 and 8; 8 is past the edge.
    let info = OutputInfo {
        width: 8,
        height: 4,
        dpi_w: 1,
        dpi_h: 1,
        source_params: geometry(100, 100),
    };
    let inputs = vec![flat_image(100, 100, 1, 3), flat_image(100, 100, 2, 2)];
    let (out, dropped) = process_tiff_cmyk8_counted(inputs, &info, ScaleAlgorithm::Nearest).unwrap();
    assert_eq!(dropped, vec![0, 1]);
    let two = Cmyk8Color { c: 2, m: 2, y: 2, k: 2 };
    assert_eq!(out.pixel(0, 3), two);
    assert_eq!(out.pixel(0, 4), two);
    assert_eq!(out.pixel(0, 7), Cmyk8Color::default());
}

#[test]
fn mismatch_error_names_both_geometries() {
    let opts = ten_lpi_one_inch();
    let info = plan(geometry(100, 100), &[1, 1], &opts).unwrap();
    let inputs = vec![flat_image(100, 100, 1, 1), flat_image(100, 50, 2, 1)];
    match process_tiff_cmyk8(inputs, &info, ScaleAlgorithm::Nearest) {
        Err(Error::InvalidInput(msg)) => {
            assert!(msg.contains("expected"));
            assert!(msg.contains("height: 100"));
            assert!(msg.contains("height: 50"));
        }
        _ => panic!("expected an InvalidInput error"),
    }
}

#[test]
fn normalize_resamples_pixels() {
    let data: Vec<u8> = (0u8..48).collect();
    let mut m = MatrixImage::from_slice(&data, 4, 3).unwrap();
    m.set_info(DpiInfo { dpi_h: 100, dpi_w: 200 });
    let expected = resize_cmyk8(data.clone(), 4, 3, 4, 6, ScaleAlgorithm::Bilinear).unwrap();
    let out = normalize(m).unwrap();
    assert_eq!(out.to_bytes(), expected);
    assert_ne!(out.to_bytes()[..48], data[..]);
}

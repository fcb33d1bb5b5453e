use vstd::prelude::*;

use crate::error::{Error, Result};
use crate::image::{blank, cmyk_pixels, Cmyk8Color, DpiInfo, MatrixImage};
use crate::lenticular::{
    is_matching_params, params_match, ColorType, ImageOptions, ProcessOptions, ScaleAlgorithm,
    SourceParams,
};
use crate::mapping::{
    checked_width_sum, column_destination, create_line_index_mapping_advanced,
    lemma_destination_injective, lemma_width_le_sum, width_sum,
};
use crate::planner::{all_widths_positive, widths_positive, OutputInfo};
use crate::resize::{lemma_u32_product, resample_ok, resampled_u8x4, resize_cmyk8};

verus! {

/// A decoded source image: its geometry, its pixels as packed CMYK8
/// bytes, row by row, and its options.
pub struct DecodedImage {
    pub params: SourceParams,
    pub pixels: Vec<u8>,
    pub options: ImageOptions,
}

/// The stripe widths of a run, in input order.
pub open spec fn input_widths(inputs: Seq<DecodedImage>) -> Seq<u32> {
    Seq::new(inputs.len(), |i: int| inputs[i].options.lenticular_width_px)
}

/// `floor(widths[i] / sum(widths) * out_width)`: the width image `i` is
/// resampled to.
pub open spec fn local_width(widths: Seq<u32>, i: int, out_width: int) -> int {
    (widths[i] * out_width) / width_sum(widths)
}

/// The image is 8-bit CMYK and its buffer holds exactly its pixels.
pub open spec fn pixel_layout_ok(img: DecodedImage) -> bool {
    &&& img.params.color_type == Some(ColorType::CMYK(8))
    &&& img.pixels@.len() == img.params.width as int * img.params.height as int * 4
}

/// The image differs from the baseline or has a layout the run cannot take.
pub open spec fn image_rejected(base: SourceParams, img: DecodedImage) -> bool {
    !params_match(base, img.params) || !pixel_layout_ok(img)
}

/// The inputs on which a run fails with `InvalidInput`.
pub open spec fn run_rejected(inputs: Seq<DecodedImage>, info: OutputInfo) -> bool {
    let ws = input_widths(inputs);
    ||| inputs.len() == 0
    ||| !widths_positive(ws)
    ||| width_sum(ws) > u32::MAX
    ||| info.width as int * info.height as int * 4 > isize::MAX
    ||| exists|i: int| 0 <= i < inputs.len() && image_rejected(info.source_params, #[trigger] inputs[i])
}

/// Image `i` cannot be resampled to its place in the composite.
pub open spec fn image_unresizable(inputs: Seq<DecodedImage>, i: int, info: OutputInfo) -> bool {
    let img = inputs[i];
    !resample_ok(
        img.pixels@.len() as int,
        img.params.width as int,
        img.params.height as int,
        local_width(input_widths(inputs), i, info.width as int),
        info.height as int,
    )
}

/// Composite column `c` is the destination of no column of any image.
pub open spec fn column_unclaimed(widths: Seq<u32>, out_width: int, c: int) -> bool {
    forall|i: int, j: int|
        0 <= i < widths.len() && 0 <= j < local_width(widths, i, out_width)
            ==> #[trigger] column_destination(widths, i, j) != c
}

/// How many of the first `local` columns of image `index` land at or beyond
/// the composite width.
pub open spec fn dropped_columns(widths: Seq<u32>, index: int, local: int, out_width: int) -> int
    decreases local,
{
    if local <= 0 {
        0
    } else {
        dropped_columns(widths, index, local - 1, out_width) + if column_destination(
            widths,
            index,
            local - 1,
        ) >= out_width {
            1int
        } else {
            0int
        }
    }
}

/// Copies each column `j` of `resized`, image `index` fitted to its local
/// width, to composite column `column_destination(widths, index, j)`;
/// destinations at or beyond the composite width are dropped, and counted.
pub fn place_columns(
    composite: &mut MatrixImage,
    resized: &MatrixImage,
    widths: &[u32],
    index: usize,
) -> (dropped: u32)
    requires
        old(composite).wf(),
        resized.wf(),
        resized.rows() == old(composite).rows(),
        index < widths@.len(),
        widths@[index as int] > 0,
        width_sum(widths@) <= u32::MAX,
    ensures
        final(composite).wf(),
        final(composite).rows() == old(composite).rows(),
        final(composite).cols() == old(composite).cols(),
        final(composite).dpi() == old(composite).dpi(),
        dropped == dropped_columns(widths@, index as int, resized.cols() as int, old(composite).cols() as int),
        forall|i: int, j: int|
            0 <= i < resized.rows() && 0 <= j < resized.cols() && column_destination(
                widths@,
                index as int,
                j,
            ) < old(composite).cols() ==> final(composite).pixels()[i][column_destination(
                widths@,
                index as int,
                j,
            )] == #[trigger] resized.pixels()[i][j],
        forall|i: int, c: int|
            0 <= i < old(composite).rows() && 0 <= c < old(composite).cols() && (forall|j: int|
                0 <= j < resized.cols() ==> #[trigger] column_destination(widths@, index as int, j)
                    != c) ==> #[trigger] final(composite).pixels()[i][c] == old(composite).pixels()[i][c],
{
    let ghost ws = widths@;
    let ghost orig = *composite;
    let local: u32 = resized.width();
    let out_width: u32 = composite.width();
    let mapping = create_line_index_mapping_advanced(local, widths, index);
    let mut dropped: u32 = 0;
    let mut j: u32 = 0;
    while j < local
        invariant
            dropped == dropped_columns(ws, index as int, j as int, orig.cols() as int),
            dropped <= j,
            ws == widths@,
            index < ws.len(),
            ws[index as int] > 0,
            local == resized.cols(),
            out_width == orig.cols(),
            resized.wf(),
            resized.rows() == orig.rows(),
            mapping@.len() == local,
            forall|k: int|
                0 <= k < local ==> mapping@[k] == column_destination(ws, index as int, k),
            j <= local,
            composite.wf(),
            composite.rows() == orig.rows(),
            composite.cols() == orig.cols(),
            composite.dpi() == orig.dpi(),
            forall|i: int, k: int|
                0 <= i < resized.rows() && 0 <= k < j && column_destination(ws, index as int, k)
                    < orig.cols() ==> composite.pixels()[i][column_destination(ws, index as int, k)]
                    == #[trigger] resized.pixels()[i][k],
            forall|i: int, c: int|
                0 <= i < orig.rows() && 0 <= c < orig.cols() && (forall|k: int|
                    0 <= k < j ==> #[trigger] column_destination(ws, index as int, k) != c)
                    ==> #[trigger] composite.pixels()[i][c] == orig.pixels()[i][c],
        decreases local - j,
    {
        let dest: u64 = mapping[j as usize];
        if dest < out_width as u64 {
            let ghost before = *composite;
            composite.copy_column_from(dest as u32, resized, j);
            proof {
                assert forall|i: int, k: int|
                    0 <= i < resized.rows() && 0 <= k < j + 1 && column_destination(
                        ws,
                        index as int,
                        k,
                    ) < orig.cols() implies composite.pixels()[i][column_destination(
                    ws,
                    index as int,
                    k,
                )] == #[trigger] resized.pixels()[i][k] by {
                    if k < j {
                        lemma_destination_injective(ws, index as int, k, j as int);
                    }
                }
                assert forall|i: int, c: int|
                    0 <= i < orig.rows() && 0 <= c < orig.cols() && (forall|k: int|
                        0 <= k < j + 1 ==> #[trigger] column_destination(ws, index as int, k)
                            != c) implies #[trigger] composite.pixels()[i][c]
                    == orig.pixels()[i][c] by {
                    assert(column_destination(ws, index as int, j as int) != c);
                    assert(before.pixels()[i][c] == orig.pixels()[i][c]);
                }
            }
        } else {
            dropped = dropped + 1;
        }
        j = j + 1;
    }
    dropped
}

/// Whether the image is 8-bit CMYK.
fn is_cmyk8(p: &SourceParams) -> (r: bool)
    ensures
        r == (p.color_type == Some(ColorType::CMYK(8))),
{
    match p.color_type {
        Some(ColorType::CMYK(bits)) => bits == 8,
        _ => false,
    }
}

/// The pixels of image `i` fitted to its place: its buffer resampled with
/// `alg` to its local width and the composite height, row by row.
pub open spec fn fitted_pixels(
    inputs: Seq<DecodedImage>,
    i: int,
    info: OutputInfo,
    alg: ScaleAlgorithm,
) -> Seq<Cmyk8Color> {
    let img = inputs[i];
    cmyk_pixels(
        resampled_u8x4(
            img.pixels@,
            img.params.width as nat,
            img.params.height as nat,
            local_width(input_widths(inputs), i, info.width as int) as nat,
            info.height as nat,
            alg,
        ),
    )
}

/// Some image after `i` and before `hi` has a column landing on composite
/// column `c`.
pub open spec fn claimed_after(widths: Seq<u32>, i: int, hi: int, out_width: int, c: int) -> bool {
    exists|i2: int, j2: int|
        i < i2 < hi && 0 <= j2 < local_width(widths, i2, out_width) && #[trigger] column_destination(
            widths,
            i2,
            j2,
        ) == c
}

/// In `m`, every column of the images before `hi` that lands inside the
/// composite, and that no later image before `hi` lands on, holds that
/// column of the fitted image.
pub open spec fn placed_before(
    m: MatrixImage,
    inputs: Seq<DecodedImage>,
    info: OutputInfo,
    alg: ScaleAlgorithm,
    hi: int,
) -> bool {
    let ws = input_widths(inputs);
    let w = info.width as int;
    forall|i: int, j: int, row: int|
        0 <= i < hi && 0 <= j < local_width(ws, i, w) && 0 <= row < info.height
            && column_destination(ws, i, j) < w && !claimed_after(
            ws,
            i,
            hi,
            w,
            column_destination(ws, i, j),
        ) ==> #[trigger] m.pixels()[row][column_destination(ws, i, j)] == fitted_pixels(
            inputs,
            i,
            info,
            alg,
        )[row * local_width(ws, i, w) + j]
}

/// What a successful run returns: the composite of `info`'s size and DPI in
/// which each image's columns stand at their destinations, later images
/// winning, and in which the columns no image claims are blank.
pub open spec fn composed(
    m: MatrixImage,
    inputs: Seq<DecodedImage>,
    info: OutputInfo,
    alg: ScaleAlgorithm,
) -> bool {
    &&& m.wf()
    &&& m.rows() == info.height
    &&& m.cols() == info.width
    &&& m.dpi() == Some(DpiInfo { dpi_h: info.dpi_h, dpi_w: info.dpi_w })
    &&& placed_before(m, inputs, info, alg, inputs.len() as int)
    &&& forall|row: int, c: int|
        0 <= row < info.height && 0 <= c < info.width && column_unclaimed(
            input_widths(inputs),
            info.width as int,
            c,
        ) ==> #[trigger] m.pixels()[row][c] == blank()
}

/// For each image, how many of its fitted columns fell at or beyond the
/// composite width.
pub open spec fn dropped_per_image(counts: Seq<u32>, inputs: Seq<DecodedImage>, info: OutputInfo) -> bool {
    let ws = input_widths(inputs);
    &&& counts.len() == inputs.len()
    &&& forall|i: int|
        0 <= i < inputs.len() ==> #[trigger] counts[i] == dropped_columns(
            ws,
            i,
            local_width(ws, i, info.width as int),
            info.width as int,
        )
}

/// Relies on `format!` with the derived `Debug` of `SourceParams`: a
/// message naming the expected and the actual geometry.
#[verifier::external_body]
fn mismatch_message(expected: &SourceParams, actual: &SourceParams) -> String {
    format!("input image does not match the baseline: expected {:?}, actual {:?}", expected, actual)
}

/// `floor(sw * out_width / total)`, which is at most `out_width`.
fn local_width_of(sw: u32, total: u32, out_width: u32) -> (r: u32)
    requires
        0 < sw <= total,
    ensures
        r == (sw as int * out_width as int) / total as int,
        r <= out_width,
{
    proof {
        assert(sw as int * out_width as int <= total as int * out_width as int) by (nonlinear_arith)
            requires
                sw <= total,
        ;
        assert((sw as int * out_width as int) / total as int <= out_width) by (nonlinear_arith)
            requires
                sw as int * out_width as int <= total as int * out_width as int,
                total > 0,
        ;
        assert(sw as int * out_width as int <= u32::MAX as int * u32::MAX as int) by (nonlinear_arith)
            requires
                sw <= u32::MAX,
                out_width <= u32::MAX,
        ;
    }
    ((sw as u64 * out_width as u64) / total as u64) as u32
}

/// Interleaves the images into a composite of `output_info`'s size, and
/// reports, for each image, how many of its columns fell beyond the
/// composite's right edge and were dropped.
///
/// Every image is first checked against the baseline geometry, then each,
/// in input order, is resampled to its local width and the composite's
/// height with `scale_alg`, and its columns are placed by
/// `place_columns`; a later image overwrites an earlier one where their
/// destinations meet. The composite carries `output_info`'s DPI.
pub fn process_tiff_cmyk8_counted(
    inputs: Vec<DecodedImage>,
    output_info: &OutputInfo,
    scale_alg: ScaleAlgorithm,
) -> (r: Result<(MatrixImage, Vec<u32>)>)
    ensures
        (r is Err && r->Err_0 is InvalidInput) <==> run_rejected(inputs@, *output_info),
        (r is Err && r->Err_0 is Resample) <==> (!run_rejected(inputs@, *output_info) && exists|
            i: int,
        | 0 <= i < inputs@.len() && image_unresizable(inputs@, i, *output_info)),
        r is Err ==> (r->Err_0 is InvalidInput || r->Err_0 is Resample),
        r is Ok ==> composed(r->Ok_0.0, inputs@, *output_info, scale_alg),
        r is Ok ==> dropped_per_image(r->Ok_0.1@, inputs@, *output_info),
{
    let ghost ins = inputs@;
    let n: usize = inputs.len();
    if n == 0 {
        return Err(Error::InvalidInput("the set of input images is empty".to_string()));
    }
    let mut widths: Vec<u32> = Vec::new();
    let mut i: usize = 0;
    while i < n
        invariant
            n == ins.len(),
            ins == inputs@,
            i <= n,
            widths@ =~= input_widths(ins).take(i as int),
        decreases n - i,
    {
        widths.push(inputs[i].options.lenticular_width_px);
        i = i + 1;
    }
    let ghost ws = widths@;
    assert(ws =~= input_widths(ins));
    if !all_widths_positive(&widths) {
        return Err(Error::InvalidInput("stripe widths must be positive".to_string()));
    }
    let total: u32 = match checked_width_sum(&widths) {
        Some(t) => t,
        None => {
            return Err(Error::InvalidInput("stripe widths sum past u32::MAX".to_string()));
        },
    };
    let out_w: u32 = output_info.width;
    let out_h: u32 = output_info.height;
    proof {
        lemma_u32_product(out_w, out_h);
    }
    if out_w as u128 * out_h as u128 * 4 > isize::MAX as u128 {
        return Err(Error::InvalidInput("composite is too large".to_string()));
    }
    let mut i: usize = 0;
    while i < n
        invariant
            n == ins.len(),
            ins == inputs@,
            i <= n,
            forall|k: int| 0 <= k < i ==> !image_rejected(output_info.source_params, #[trigger] ins[k]),
        decreases n - i,
    {
        let img = &inputs[i];
        proof {
            lemma_u32_product(img.params.width, img.params.height);
        }
        if !is_matching_params(&output_info.source_params, &img.params) || !is_cmyk8(&img.params)
            || img.pixels.len() as u128 != img.params.width as u128 * img.params.height as u128 * 4 {
            proof {
                assert(image_rejected(output_info.source_params, ins[i as int]));
            }
            return Err(Error::InvalidInput(mismatch_message(&output_info.source_params, &img.params)));
        }
        i = i + 1;
    }
    assert(!run_rejected(ins, *output_info));
    let mut i: usize = 0;
    while i < n
        invariant
            n == ins.len(),
            ins == inputs@,
            ws == widths@,
            ws =~= input_widths(ins),
            widths_positive(ws),
            total == width_sum(ws),
            !run_rejected(ins, *output_info),
            out_w == output_info.width,
            out_h == output_info.height,
            i <= n,
            forall|k: int| 0 <= k < i ==> !image_unresizable(ins, k, *output_info),
        decreases n - i,
    {
        let img = &inputs[i];
        proof {
            lemma_width_le_sum(ws, i as int);
        }
        let lw: u32 = local_width_of(widths[i], total, out_w);
        let (w, h) = (img.params.width, img.params.height);
        proof {
            lemma_u32_product(w, h);
            lemma_u32_product(lw, out_h);
        }
        if w == 0 || h == 0 || lw == 0 || out_h == 0 || w as u128 * h as u128 > u32::MAX as u128
            || lw as u128 * out_h as u128 > u32::MAX as u128 || (img.pixels.len() as u128) < w as u128
            * h as u128 * 4 {
            proof {
                assert(image_unresizable(ins, i as int, *output_info));
            }
            return Err(Error::Resample("an image cannot be resampled to its place".to_string()));
        }
        i = i + 1;
    }
    let mut composite = MatrixImage::new(out_w, out_h);
    let mut counts: Vec<u32> = Vec::new();
    let mut i: usize = 0;
    while i < n
        invariant
            placed_before(composite, ins, *output_info, scale_alg, i as int),
            counts@.len() == i,
            forall|k: int|
                0 <= k < i ==> #[trigger] counts@[k] == dropped_columns(
                    ws,
                    k,
                    local_width(ws, k, out_w as int),
                    out_w as int,
                ),
            n == ins.len(),
            ins == inputs@,
            ws == widths@,
            ws =~= input_widths(ins),
            widths_positive(ws),
            total == width_sum(ws),
            total <= u32::MAX,
            out_w == output_info.width,
            out_h == output_info.height,
            out_w as int * out_h as int * 4 <= isize::MAX,
            forall|k: int| 0 <= k < n ==> !image_unresizable(ins, k, *output_info),
            !run_rejected(ins, *output_info),
            i <= n,
            composite.wf(),
            composite.rows() == out_h,
            composite.cols() == out_w,
            composite.dpi() is None,
            forall|row: int, c: int|
                0 <= row < out_h && 0 <= c < out_w && (forall|k: int, j: int|
                    0 <= k < i && 0 <= j < local_width(ws, k, out_w as int)
                        ==> #[trigger] column_destination(ws, k, j) != c)
                    ==> #[trigger] composite.pixels()[row][c] == blank(),
        decreases n - i,
    {
        let img = &inputs[i];
        proof {
            lemma_width_le_sum(ws, i as int);
            assert(!image_unresizable(ins, i as int, *output_info));
        }
        let lw: u32 = local_width_of(widths[i], total, out_w);
        let resized = match resize_cmyk8(img.pixels.clone(), img.params.width, img.params.height, lw, out_h, scale_alg) {
            Ok(buf) => buf,
            Err(e) => {
                return Err(e);
            },
        };
        proof {
            assert(lw as int * out_h as int * 4 <= out_w as int * out_h as int * 4) by (nonlinear_arith)
                requires
                    lw <= out_w,
            ;
            assert((lw as int * out_h as int * 4) % 4 == 0) by (nonlinear_arith);
        }
        let resized_img = match MatrixImage::from_slice(&resized, lw, out_h) {
            Ok(m) => m,
            Err(e) => {
                return Err(e);
            },
        };
        let ghost before = composite;
        let dropped = place_columns(&mut composite, &resized_img, &widths, i);
        counts.push(dropped);
        proof {
            lemma_placed_step(
                before,
                composite,
                resized_img,
                resized@,
                ins,
                *output_info,
                scale_alg,
                i as int,
            );
            assert forall|row: int, c: int|
                0 <= row < out_h && 0 <= c < out_w && (forall|k: int, j: int|
                    0 <= k < i + 1 && 0 <= j < local_width(ws, k, out_w as int)
                        ==> #[trigger] column_destination(ws, k, j) != c)
                    implies #[trigger] composite.pixels()[row][c] == blank() by {
                assert forall|j: int| 0 <= j < resized_img.cols() implies #[trigger] column_destination(ws, i as int, j) != c by {
                    assert(0 <= j < local_width(ws, i as int, out_w as int));
                }
                assert(before.pixels()[row][c] == blank());
            }
        }
        i = i + 1;
    }
    composite.set_info(DpiInfo { dpi_h: output_info.dpi_h, dpi_w: output_info.dpi_w });
    Ok((composite, counts))
}

/// One more image placed: `after` is `before` with image `k`'s fitted
/// columns placed, so the placement holds up to `k + 1`.
proof fn lemma_placed_step(
    before: MatrixImage,
    after: MatrixImage,
    fitted: MatrixImage,
    fitted_bytes: Seq<u8>,
    inputs: Seq<DecodedImage>,
    info: OutputInfo,
    alg: ScaleAlgorithm,
    k: int,
)
    requires
        0 <= k < inputs.len(),
        widths_positive(input_widths(inputs)),
        placed_before(before, inputs, info, alg, k),
        fitted_bytes == resampled_u8x4(
            inputs[k].pixels@,
            inputs[k].params.width as nat,
            inputs[k].params.height as nat,
            local_width(input_widths(inputs), k, info.width as int) as nat,
            info.height as nat,
            alg,
        ),
        fitted.rows() == info.height,
        fitted.cols() == local_width(input_widths(inputs), k, info.width as int),
        forall|i: int, j: int|
            0 <= i < info.height && 0 <= j < fitted.cols() ==> #[trigger] fitted.pixels()[i][j]
                == cmyk_pixels(fitted_bytes)[i * fitted.cols() + j],
        before.rows() == info.height,
        before.cols() == info.width,
        forall|i: int, j: int|
            0 <= i < fitted.rows() && 0 <= j < fitted.cols() && column_destination(
                input_widths(inputs),
                k,
                j,
            ) < before.cols() ==> after.pixels()[i][column_destination(
                input_widths(inputs),
                k,
                j,
            )] == #[trigger] fitted.pixels()[i][j],
        forall|i: int, c: int|
            0 <= i < before.rows() && 0 <= c < before.cols() && (forall|j: int|
                0 <= j < fitted.cols() ==> #[trigger] column_destination(input_widths(inputs), k, j)
                    != c) ==> #[trigger] after.pixels()[i][c] == before.pixels()[i][c],
    ensures
        placed_before(after, inputs, info, alg, k + 1),
{
    let ws = input_widths(inputs);
    let w = info.width as int;
    assert forall|i: int, j: int, row: int|
        0 <= i < k + 1 && 0 <= j < local_width(ws, i, w) && 0 <= row < info.height
            && column_destination(ws, i, j) < w && !claimed_after(
            ws,
            i,
            k + 1,
            w,
            column_destination(ws, i, j),
        ) implies #[trigger] after.pixels()[row][column_destination(ws, i, j)] == fitted_pixels(
        inputs,
        i,
        info,
        alg,
    )[row * local_width(ws, i, w) + j] by {
        let d = column_destination(ws, i, j);
        lemma_width_le_sum(ws, i);
        let own = ws[i] as int;
        assert(j % own >= 0 && j / own >= 0) by (nonlinear_arith)
            requires
                own > 0,
                j >= 0,
        ;
        assert((j / own) * width_sum(ws) >= 0) by (nonlinear_arith)
            requires
                j / own >= 0,
                width_sum(ws) >= 0,
        ;
        if i < k {
            assert forall|j2: int| 0 <= j2 < fitted.cols() implies #[trigger] column_destination(
                ws,
                k,
                j2,
            ) != d by {
                if column_destination(ws, k, j2) == d {
                    assert(claimed_after(ws, i, k + 1, w, d));
                }
            }
            if claimed_after(ws, i, k, w, d) {
                let (i2, j2) = choose|i2: int, j2: int|
                    i < i2 < k && 0 <= j2 < local_width(ws, i2, w) && #[trigger] column_destination(
                        ws,
                        i2,
                        j2,
                    ) == d;
                assert(claimed_after(ws, i, k + 1, w, d));
            }
            assert(after.pixels()[row][d] == before.pixels()[row][d]);
        } else {
            assert(after.pixels()[row][d] == fitted.pixels()[row][j]);
        }
    }
}

/// Interleaves the images into a composite of `output_info`'s size, as
/// `process_tiff_cmyk8_counted` does, without the dropped-column counts.
pub fn process_tiff_cmyk8(
    inputs: Vec<DecodedImage>,
    output_info: &OutputInfo,
    scale_alg: ScaleAlgorithm,
) -> (r: Result<MatrixImage>)
    ensures
        (r is Err && r->Err_0 is InvalidInput) <==> run_rejected(inputs@, *output_info),
        (r is Err && r->Err_0 is Resample) <==> (!run_rejected(inputs@, *output_info) && exists|
            i: int,
        | 0 <= i < inputs@.len() && image_unresizable(inputs@, i, *output_info)),
        r is Err ==> (r->Err_0 is InvalidInput || r->Err_0 is Resample),
        r is Ok ==> composed(r->Ok_0, inputs@, *output_info, scale_alg),
{
    match process_tiff_cmyk8_counted(inputs, output_info, scale_alg) {
        Ok((m, _)) => Ok(m),
        Err(e) => Err(e),
    }
}

impl ProcessOptions {
    /// Interleaves `inputs` as `process_tiff_cmyk8` does.
    pub fn process_tiff_cmyk8(
        &self,
        inputs: Vec<DecodedImage>,
        output_info: &OutputInfo,
        resize_alg: ScaleAlgorithm,
    ) -> (r: Result<MatrixImage>)
        ensures
            (r is Err && r->Err_0 is InvalidInput) <==> run_rejected(inputs@, *output_info),
            (r is Err && r->Err_0 is Resample) <==> (!run_rejected(inputs@, *output_info) && exists|
                i: int,
            | 0 <= i < inputs@.len() && image_unresizable(inputs@, i, *output_info)),
            r is Err ==> (r->Err_0 is InvalidInput || r->Err_0 is Resample),
            r is Ok ==> composed(r->Ok_0, inputs@, *output_info, resize_alg),
    {
        process_tiff_cmyk8(inputs, output_info, resize_alg)
    }
}

} // verus!

use fast_image_resize::{FilterType, Image, PixelType, ResizeAlg, Resizer};
use std::num::NonZeroU32;
use vstd::prelude::*;

use crate::error::{Error, Result};
use crate::lenticular::ScaleAlgorithm;

verus! {

/// What fast_image_resize makes of a `width` by `height` U8x4 buffer resized
/// to `out_width` by `out_height` with `alg`: a function of these alone.
pub uninterp spec fn resampled_u8x4(
    src: Seq<u8>,
    width: nat,
    height: nat,
    out_width: nat,
    out_height: nat,
    alg: ScaleAlgorithm,
) -> Seq<u8>;

/// Relies on fast_image_resize's `Image::from_vec_u8`, `Image::new` and
/// `Resizer::resize` with `PixelType::U8x4` pixels: the source is accepted
/// exactly when its buffer holds at least `width * height` four-byte pixels
/// (such pixels need no alignment), a resize between two U8x4 images
/// succeeds, and the destination holds `out_width * out_height` pixels,
/// which depend on the arguments alone (the crate's results agree across
/// its CPU extensions).
/// The crate multiplies each pair of dimensions in `u32`.
#[verifier::external_body]
fn resample_u8x4(
    src: Vec<u8>,
    width: u32,
    height: u32,
    out_width: u32,
    out_height: u32,
    alg: ScaleAlgorithm,
) -> (r: Option<Vec<u8>>)
    requires
        width > 0 && height > 0 && out_width > 0 && out_height > 0,
        width as int * height as int <= u32::MAX,
        out_width as int * out_height as int <= u32::MAX,
    ensures
        r is Some <==> src@.len() >= width as int * height as int * 4,
        r is Some ==> r->Some_0@.len() == out_width as int * out_height as int * 4,
        r is Some ==> r->Some_0@ == resampled_u8x4(
            src@,
            width as nat,
            height as nat,
            out_width as nat,
            out_height as nat,
            alg,
        ),
{
    let alg = match alg {
        ScaleAlgorithm::Nearest => ResizeAlg::Nearest,
        ScaleAlgorithm::Bilinear => ResizeAlg::Convolution(FilterType::Bilinear),
        ScaleAlgorithm::Lanczos3 => ResizeAlg::Convolution(FilterType::Lanczos3),
    };
    let (w, h) = (NonZeroU32::new(width)?, NonZeroU32::new(height)?);
    let (ow, oh) = (NonZeroU32::new(out_width)?, NonZeroU32::new(out_height)?);
    let src_image = Image::from_vec_u8(w, h, src, PixelType::U8x4).ok()?;
    let mut dst_image = Image::new(ow, oh, PixelType::U8x4);
    Resizer::new(alg).resize(&src_image.view(), &mut dst_image.view_mut()).ok()?;
    Some(dst_image.buffer().to_vec())
}

/// The product of two `u32` values fits `u64`.
pub proof fn lemma_u32_product(a: u32, b: u32)
    ensures
        a as int * b as int <= u64::MAX,
{
    assert(a as int * b as int <= u32::MAX as int * u32::MAX as int) by (nonlinear_arith)
        requires
            a <= u32::MAX,
            b <= u32::MAX,
    ;
}

/// The inputs on which a CMYK8 resample succeeds: no empty side, pixel
/// counts that fit `u32`, and a source buffer that covers the source size.
pub open spec fn resample_ok(src_len: int, width: int, height: int, out_width: int, out_height: int) -> bool {
    &&& width > 0 && height > 0 && out_width > 0 && out_height > 0
    &&& width * height <= u32::MAX
    &&& out_width * out_height <= u32::MAX
    &&& src_len >= width * height * 4
}

/// Resamples a `width` by `height` CMYK8 buffer to `out_width` by
/// `out_height` with `alg`.
pub fn resize_cmyk8(
    src: Vec<u8>,
    width: u32,
    height: u32,
    out_width: u32,
    out_height: u32,
    alg: ScaleAlgorithm,
) -> (r: Result<Vec<u8>>)
    ensures
        r is Ok <==> resample_ok(
            src@.len() as int,
            width as int,
            height as int,
            out_width as int,
            out_height as int,
        ),
        r is Ok ==> r->Ok_0@.len() == out_width as int * out_height as int * 4,
        r is Ok ==> r->Ok_0@ == resampled_u8x4(
            src@,
            width as nat,
            height as nat,
            out_width as nat,
            out_height as nat,
            alg,
        ),
        r is Err ==> (r->Err_0 is InvalidInput <==> (width == 0 || height == 0 || out_width == 0
            || out_height == 0)),
        r is Err ==> (r->Err_0 is InvalidInput || r->Err_0 is Resample),
{
    if width == 0 || height == 0 || out_width == 0 || out_height == 0 {
        return Err(Error::InvalidInput("image dimensions cannot be zero".to_string()));
    }
    proof {
        lemma_u32_product(width, height);
        lemma_u32_product(out_width, out_height);
    }
    if width as u64 * height as u64 > u32::MAX as u64 || out_width as u64 * out_height as u64
        > u32::MAX as u64 {
        return Err(Error::Resample("image has more pixels than u32 can count".to_string()));
    }
    match resample_u8x4(src, width, height, out_width, out_height, alg) {
        Some(buf) => Ok(buf),
        None => Err(Error::Resample("source buffer is smaller than its dimensions".to_string())),
    }
}

} // verus!

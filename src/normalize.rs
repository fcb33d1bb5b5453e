use vstd::prelude::*;

use crate::error::{Error, Result};
use crate::image::{matrix_bytes, DpiInfo, MatrixImage};
use crate::lenticular::ScaleAlgorithm;
use crate::resize::{lemma_u32_product, resample_ok, resampled_u8x4, resize_cmyk8};

verus! {

/// Width, height and uniform DPI of a raster after square-pixel correction:
/// unchanged when the two DPIs agree; otherwise the axis with the lower DPI
/// is stretched by the ratio of the two (rounded down), and the higher DPI
/// becomes the DPI of both axes.
pub open spec fn normalized_size(width: int, height: int, dpi_h: int, dpi_w: int) -> (int, int, int) {
    if dpi_h == dpi_w {
        (width, height, dpi_h)
    } else if dpi_h > dpi_w {
        ((width * dpi_h) / dpi_w, height, dpi_h)
    } else {
        (width, (height * dpi_w) / dpi_h, dpi_w)
    }
}

/// The composite carries resolution metadata, and, where its two DPIs
/// differ, both are positive.
pub open spec fn normalize_accepts(m: MatrixImage) -> bool {
    &&& m.dpi() is Some
    &&& m.dpi()->Some_0.dpi_h != m.dpi()->Some_0.dpi_w ==> (m.dpi()->Some_0.dpi_h > 0
        && m.dpi()->Some_0.dpi_w > 0)
}

/// The corrected raster can be produced: the new size fits `u32`, the
/// resample from the old size to it succeeds, and its bytes fit `isize`.
pub open spec fn normalize_feasible(m: MatrixImage) -> bool {
    let d = m.dpi()->Some_0;
    let t = normalized_size(m.cols() as int, m.rows() as int, d.dpi_h as int, d.dpi_w as int);
    ||| d.dpi_h == d.dpi_w
    ||| {
        &&& t.0 <= u32::MAX
        &&& t.1 <= u32::MAX
        &&& resample_ok((m.rows() * m.cols() * 4) as int, m.cols() as int, m.rows() as int, t.0, t.1)
        &&& t.0 * t.1 * 4 <= isize::MAX
    }
}

/// Resamples `composite` so that it represents square pixels at a single
/// DPI, with a bilinear filter.
pub fn normalize(composite: MatrixImage) -> (r: Result<MatrixImage>)
    requires
        composite.wf(),
    ensures
        (r is Err && r->Err_0 is InvalidInput) <==> !normalize_accepts(composite),
        (r is Err && r->Err_0 is Resample) <==> (normalize_accepts(composite)
            && !normalize_feasible(composite)),
        r is Err ==> (r->Err_0 is InvalidInput || r->Err_0 is Resample),
        r is Ok ==> {
            let m = r->Ok_0;
            let d = composite.dpi()->Some_0;
            let t = normalized_size(
                composite.cols() as int,
                composite.rows() as int,
                d.dpi_h as int,
                d.dpi_w as int,
            );
            &&& m.wf()
            &&& m.cols() == t.0
            &&& m.rows() == t.1
            &&& m.dpi() == Some(DpiInfo { dpi_h: t.2 as u64, dpi_w: t.2 as u64 })
            &&& d.dpi_h != d.dpi_w ==> matrix_bytes(m.pixels(), m.cols()) == resampled_u8x4(
                matrix_bytes(composite.pixels(), composite.cols()),
                composite.cols(),
                composite.rows(),
                t.0 as nat,
                t.1 as nat,
                ScaleAlgorithm::Bilinear,
            )
        },
        r is Ok && composite.dpi()->Some_0.dpi_h == composite.dpi()->Some_0.dpi_w ==> r->Ok_0
            == composite,
{
    let d: DpiInfo = match composite.info() {
        Some(d) => *d,
        None => {
            return Err(Error::InvalidInput("the composite carries no DPI".to_string()));
        },
    };
    if d.dpi_h == d.dpi_w {
        return Ok(composite);
    }
    if d.dpi_h == 0 || d.dpi_w == 0 {
        return Err(Error::InvalidInput("a DPI of zero cannot be corrected".to_string()));
    }
    let w: u32 = composite.width();
    let h: u32 = composite.height();
    proof {
        assert(w as int * d.dpi_h as int <= u32::MAX as int * u64::MAX as int) by (nonlinear_arith)
            requires
                w <= u32::MAX,
                d.dpi_h <= u64::MAX,
        ;
        assert(h as int * d.dpi_w as int <= u32::MAX as int * u64::MAX as int) by (nonlinear_arith)
            requires
                h <= u32::MAX,
                d.dpi_w <= u64::MAX,
        ;
    }
    let (new_w, new_h, dpi): (u128, u128, u64) = if d.dpi_h > d.dpi_w {
        ((w as u128 * d.dpi_h as u128) / d.dpi_w as u128, h as u128, d.dpi_h)
    } else {
        (w as u128, (h as u128 * d.dpi_w as u128) / d.dpi_h as u128, d.dpi_w)
    };
    if new_w > u32::MAX as u128 || new_h > u32::MAX as u128 {
        return Err(Error::Resample("corrected size does not fit u32".to_string()));
    }
    proof {
        lemma_u32_product(new_w as u32, new_h as u32);
    }
    if new_w * new_h * 4 > isize::MAX as u128 {
        return Err(Error::Resample("corrected raster is too large".to_string()));
    }
    let bytes = composite.to_bytes();
    let buf = match resize_cmyk8(bytes, w, h, new_w as u32, new_h as u32, ScaleAlgorithm::Bilinear) {
        Ok(b) => b,
        Err(_) => {
            return Err(Error::Resample("the composite cannot be resampled".to_string()));
        },
    };
    proof {
        assert((new_w * new_h * 4) % 4 == 0) by (nonlinear_arith);
    }
    let mut out = match MatrixImage::from_slice(&buf, new_w as u32, new_h as u32) {
        Ok(m) => m,
        Err(_) => {
            return Err(Error::Resample("resampled buffer does not match its size".to_string()));
        },
    };
    out.set_info(DpiInfo { dpi_h: dpi, dpi_w: dpi });
    Ok(out)
}

/// Correcting twice is correcting once: the corrected size has equal DPIs,
/// and a raster with equal DPIs is left as it is.
pub proof fn lemma_normalize_idempotent(width: int, height: int, dpi_h: int, dpi_w: int)
    ensures
        ({
            let t = normalized_size(width, height, dpi_h, dpi_w);
            normalized_size(t.0, t.1, t.2, t.2) == t
        }),
{
}

} // verus!

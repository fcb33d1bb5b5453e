use vstd::prelude::*;

use crate::error::{Error, Result};

verus! {

/// A declared outside type: ndarray's error for a shape that does not fit
/// the element count.
#[verifier::external_type_specification]
#[verifier::external_body]
pub struct ExShapeError(ndarray::ShapeError);

/// A pixel of four 8-bit channels: cyan, magenta, yellow and key.
#[derive(Debug, Clone, Copy, PartialEq, Eq, Structural)]
pub struct Cmyk8Color {
    pub c: u8,
    pub m: u8,
    pub y: u8,
    pub k: u8,
}

/// The all-zero pixel, which fills a fresh matrix.
pub open spec fn blank() -> Cmyk8Color {
    Cmyk8Color { c: 0, m: 0, y: 0, k: 0 }
}

impl Default for Cmyk8Color {
    fn default() -> (r: Cmyk8Color)
        ensures
            r == blank(),
    {
        Cmyk8Color { c: 0, m: 0, y: 0, k: 0 }
    }
}

/// The pixels that a byte buffer holds, four bytes each, in order.
pub open spec fn cmyk_pixels(b: Seq<u8>) -> Seq<Cmyk8Color> {
    Seq::new(
        b.len() / 4,
        |i: int| Cmyk8Color { c: b[4 * i], m: b[4 * i + 1], y: b[4 * i + 2], k: b[4 * i + 3] },
    )
}

/// A pixel type that can be read from packed bytes.
pub trait Color: Sized {
    /// The pixels that `bytes` encode.
    spec fn decoded(bytes: Seq<u8>) -> Seq<Self>;

    fn from_slice(slice: &[u8]) -> (r: Vec<Self>)
        requires
            slice@.len() % 4 == 0,
        ensures
            r@ == Self::decoded(slice@),
    ;
}

impl Color for Cmyk8Color {
    open spec fn decoded(bytes: Seq<u8>) -> Seq<Cmyk8Color> {
        cmyk_pixels(bytes)
    }

    fn from_slice(slice: &[u8]) -> (r: Vec<Cmyk8Color>) {
        let mut out: Vec<Cmyk8Color> = Vec::new();
        let n: usize = slice.len() / 4;
        let mut i: usize = 0;
        while i < n
            invariant
                n == slice@.len() / 4,
                slice@.len() % 4 == 0,
                i <= n,
                out@ =~= cmyk_pixels(slice@).take(i as int),
            decreases n - i,
        {
            let px = Cmyk8Color {
                c: slice[4 * i],
                m: slice[4 * i + 1],
                y: slice[4 * i + 2],
                k: slice[4 * i + 3],
            };
            out.push(px);
            i = i + 1;
        }
        out
    }
}

/// Resolution of a raster, fixed-point in ten-thousandths of a dot per inch.
#[derive(Debug, Clone, Copy, PartialEq, Eq, Structural)]
pub struct DpiInfo {
    pub dpi_h: u64,
    pub dpi_w: u64,
}

/// Pixel dimensions of a raster.
#[derive(Debug, Clone, Copy, PartialEq, Eq, Structural)]
pub struct ImageInfo {
    pub width: u32,
    pub height: u32,
}

/// A dense row-major grid of pixels, held in an ndarray matrix.
#[verifier::external_body]
pub struct PixelGrid {
    mat: ndarray::Array2<Cmyk8Color>,
}

/// The rows of a grid, top to bottom.
pub uninterp spec fn grid_rows(g: PixelGrid) -> Seq<Seq<Cmyk8Color>>;

/// The number of columns of a grid.
pub uninterp spec fn grid_width(g: PixelGrid) -> nat;

/// Every row of the grid has `grid_width` pixels.
pub open spec fn grid_rectangular(g: PixelGrid) -> bool {
    forall|i: int| 0 <= i < grid_rows(g).len() ==> #[trigger] grid_rows(g)[i].len() == grid_width(g)
}

/// Relies on ndarray's `Array2::default`: a `height` by `width` matrix of
/// default (blank) pixels.
#[verifier::external_body]
fn grid_blank(height: u32, width: u32) -> (r: PixelGrid)
    requires
        height as int * width as int * 4 <= isize::MAX,
    ensures
        grid_rows(r).len() == height,
        grid_width(r) == width,
        grid_rectangular(r),
        forall|i: int, j: int|
            0 <= i < height && 0 <= j < width ==> #[trigger] grid_rows(r)[i][j] == blank(),
{
    PixelGrid { mat: ndarray::Array2::default((height as usize, width as usize)) }
}

/// Relies on ndarray's `Array::from_vec` and `to_shape` in row-major order:
/// the shape is accepted exactly when it holds as many pixels as `pixels`,
/// and pixel `i * width + j` lands in row `i`, column `j`.
#[verifier::external_body]
fn grid_from_pixels(pixels: Vec<Cmyk8Color>, height: u32, width: u32) -> (r:
    core::result::Result<PixelGrid, ndarray::ShapeError>)
    ensures
        r is Ok <==> pixels@.len() == height as int * width as int,
        r is Ok ==> {
            let g = r->Ok_0;
            &&& grid_rows(g).len() == height
            &&& grid_width(g) == width
            &&& grid_rectangular(g)
            &&& forall|i: int, j: int|
                0 <= i < height && 0 <= j < width ==> #[trigger] grid_rows(g)[i][j]
                    == pixels@[i * width + j]
        },
{
    let flat = ndarray::Array::from_vec(pixels);
    match flat.to_shape(((height as usize, width as usize), ndarray::Order::RowMajor)) {
        Ok(m) => Ok(PixelGrid { mat: m.to_owned() }),
        Err(e) => Err(e),
    }
}

/// Relies on ndarray's `index_axis_mut(Axis(1), ..)`, `column` and `assign`:
/// column `dst_col` of `dst` becomes column `src_col` of `src`; nothing else
/// changes.
#[verifier::external_body]
fn grid_copy_column(dst: &mut PixelGrid, dst_col: usize, src: &PixelGrid, src_col: usize)
    requires
        grid_rows(*old(dst)).len() == grid_rows(*src).len(),
        dst_col < grid_width(*old(dst)),
        src_col < grid_width(*src),
    ensures
        grid_rows(*final(dst)).len() == grid_rows(*old(dst)).len(),
        grid_width(*final(dst)) == grid_width(*old(dst)),
        grid_rectangular(*old(dst)) ==> grid_rectangular(*final(dst)),
        forall|i: int, j: int|
            0 <= i < grid_rows(*old(dst)).len() && 0 <= j < grid_width(*old(dst))
                ==> #[trigger] grid_rows(*final(dst))[i][j] == if j == dst_col {
                grid_rows(*src)[i][src_col as int]
            } else {
                grid_rows(*old(dst))[i][j]
            },
{
    dst.mat.index_axis_mut(ndarray::Axis(1), dst_col).assign(&src.mat.column(src_col));
}

/// Relies on ndarray's two-dimensional indexing: the pixel at `row`, `col`.
#[verifier::external_body]
fn grid_pixel(g: &PixelGrid, row: usize, col: usize) -> (r: Cmyk8Color)
    requires
        row < grid_rows(*g).len(),
        col < grid_width(*g),
        grid_rectangular(*g),
    ensures
        r == grid_rows(*g)[row as int][col as int],
{
    g.mat[[row, col]]
}

/// Relies on ndarray's `nrows`: the number of rows.
#[verifier::external_body]
fn grid_nrows(g: &PixelGrid) -> (r: usize)
    ensures
        r == grid_rows(*g).len(),
{
    g.mat.nrows()
}

/// Relies on ndarray's `ncols`: the number of columns.
#[verifier::external_body]
fn grid_ncols(g: &PixelGrid) -> (r: usize)
    ensures
        r == grid_width(*g),
{
    g.mat.ncols()
}

/// The bytes of a pixel matrix in row-major order, four per pixel.
pub open spec fn matrix_bytes(rows: Seq<Seq<Cmyk8Color>>, width: nat) -> Seq<u8> {
    Seq::new(
        rows.len() * width * 4,
        |b: int|
            {
                let p = rows[(b / 4) / (width as int)][(b / 4) % (width as int)];
                let ch = b % 4;
                if ch == 0 {
                    p.c
                } else if ch == 1 {
                    p.m
                } else if ch == 2 {
                    p.y
                } else {
                    p.k
                }
            },
    )
}

/// A CMYK8 raster with optional resolution metadata.
pub struct MatrixImage {
    grid: PixelGrid,
    info: Option<DpiInfo>,
}

impl MatrixImage {
    /// The rows of pixels, top to bottom.
    pub closed spec fn pixels(&self) -> Seq<Seq<Cmyk8Color>> {
        grid_rows(self.grid)
    }

    /// The number of columns.
    pub closed spec fn cols(&self) -> nat {
        grid_width(self.grid)
    }

    /// The resolution metadata.
    pub closed spec fn dpi(&self) -> Option<DpiInfo> {
        self.info
    }

    /// The number of rows.
    pub open spec fn rows(&self) -> nat {
        self.pixels().len()
    }

    /// A rectangular grid whose sizes fit `u32` and whose bytes fit `isize`.
    pub open spec fn wf(&self) -> bool {
        &&& forall|i: int| 0 <= i < self.rows() ==> #[trigger] self.pixels()[i].len() == self.cols()
        &&& self.rows() <= u32::MAX
        &&& self.cols() <= u32::MAX
        &&& self.rows() * self.cols() * 4 <= isize::MAX
    }

    proof fn lemma_wf_grid(&self)
        requires
            self.wf(),
        ensures
            grid_rectangular(self.grid),
    {
    }

    /// A matrix over the pixels that `data` packs, row by row.
    pub fn from_slice(data: &[u8], width: u32, height: u32) -> (r: Result<MatrixImage>)
        requires
            data@.len() % 4 == 0,
        ensures
            r is Ok <==> data@.len() == width as int * height as int * 4 && data@.len() <= isize::MAX,
            r is Ok ==> {
                let m = r->Ok_0;
                &&& m.wf()
                &&& m.rows() == height
                &&& m.cols() == width
                &&& m.dpi() is None
                &&& matrix_bytes(m.pixels(), m.cols()) == data@
                &&& forall|i: int, j: int|
                    0 <= i < height && 0 <= j < width ==> #[trigger] m.pixels()[i][j]
                        == cmyk_pixels(data@)[i * width + j]
            },
            r is Err ==> r->Err_0 is InvalidInput,
    {
        let colors = Cmyk8Color::from_slice(data);
        if data.len() > isize::MAX as usize {
            return Err(Error::InvalidInput("pixel buffer is too large".to_string()));
        }
        match grid_from_pixels(colors, height, width) {
            Ok(grid) => {
                let m = MatrixImage { grid, info: None };
                proof {
                    assert(m.wf()) by (nonlinear_arith)
                        requires
                            grid_rows(m.grid).len() == height,
                            grid_width(m.grid) == width,
                            grid_rectangular(m.grid),
                            data@.len() == width as int * height as int * 4,
                            data@.len() <= isize::MAX,
                    ;
                    lemma_bytes_of_pixels(data@, m.pixels(), width as nat);
                }
                Ok(m)
            },
            Err(_) => Err(
                Error::InvalidInput("pixel buffer does not match the dimensions".to_string()),
            ),
        }
    }

    /// A `width` by `height` matrix of blank pixels, without metadata.
    pub fn new(width: u32, height: u32) -> (r: MatrixImage)
        requires
            height as int * width as int * 4 <= isize::MAX,
        ensures
            r.wf(),
            r.rows() == height,
            r.cols() == width,
            r.dpi() is None,
            forall|i: int, j: int| 0 <= i < height && 0 <= j < width ==> #[trigger] r.pixels()[i][j] == blank(),
    {
        let m = MatrixImage { grid: grid_blank(height, width), info: None };
        proof {
            assert(m.rows() * m.cols() * 4 <= isize::MAX) by (nonlinear_arith)
                requires
                    m.rows() == height,
                    m.cols() == width,
                    height as int * width as int * 4 <= isize::MAX,
            ;
        }
        m
    }

    pub fn height(&self) -> (r: u32)
        requires
            self.wf(),
        ensures
            r == self.rows(),
    {
        grid_nrows(&self.grid) as u32
    }

    pub fn width(&self) -> (r: u32)
        requires
            self.wf(),
        ensures
            r == self.cols(),
    {
        grid_ncols(&self.grid) as u32
    }

    pub fn set_info(&mut self, info: DpiInfo)
        ensures
            final(self).pixels() == old(self).pixels(),
            final(self).cols() == old(self).cols(),
            final(self).dpi() == Some(info),
    {
        self.info = Some(info);
    }

    pub fn info(&self) -> (r: Option<&DpiInfo>)
        ensures
            r is Some <==> self.dpi() is Some,
            r is Some ==> *r->Some_0 == self.dpi()->Some_0,
    {
        match &self.info {
            Some(d) => Some(d),
            None => None,
        }
    }

    /// The pixel at `row`, `col`.
    pub fn pixel(&self, row: u32, col: u32) -> (r: Cmyk8Color)
        requires
            self.wf(),
            row < self.rows(),
            col < self.cols(),
        ensures
            r == self.pixels()[row as int][col as int],
    {
        grid_pixel(&self.grid, row as usize, col as usize)
    }

    /// Column `dst_col` becomes column `src_col` of `src`.
    pub fn copy_column_from(&mut self, dst_col: u32, src: &MatrixImage, src_col: u32)
        requires
            old(self).wf(),
            src.wf(),
            src.rows() == old(self).rows(),
            dst_col < old(self).cols(),
            src_col < src.cols(),
        ensures
            final(self).wf(),
            final(self).rows() == old(self).rows(),
            final(self).cols() == old(self).cols(),
            final(self).dpi() == old(self).dpi(),
            forall|i: int, j: int|
                0 <= i < old(self).rows() && 0 <= j < old(self).cols()
                    ==> #[trigger] final(self).pixels()[i][j] == if j == dst_col {
                    src.pixels()[i][src_col as int]
                } else {
                    old(self).pixels()[i][j]
                },
    {
        proof {
            self.lemma_wf_grid();
        }
        grid_copy_column(&mut self.grid, dst_col as usize, &src.grid, src_col as usize);
    }

    /// The pixels, row by row, four bytes each.
    pub fn to_bytes(&self) -> (r: Vec<u8>)
        requires
            self.wf(),
        ensures
            r@ == matrix_bytes(self.pixels(), self.cols()),
    {
        let h: u32 = self.height();
        let w: u32 = self.width();
        let mut out: Vec<u8> = Vec::new();
        let mut row: u32 = 0;
        while row < h
            invariant
                self.wf(),
                h == self.rows(),
                w == self.cols(),
                row <= h,
                out@.len() == row as int * w as int * 4,
                forall|b: int|
                    0 <= b < out@.len() ==> #[trigger] out@[b] == matrix_bytes(
                        self.pixels(),
                        self.cols(),
                    )[b],
            decreases h - row,
        {
            let mut col: u32 = 0;
            while col < w
                invariant
                    self.wf(),
                    h == self.rows(),
                    w == self.cols(),
                    row < h,
                    col <= w,
                    out@.len() == (row as int * w as int + col as int) * 4,
                    forall|b: int|
                        0 <= b < out@.len() ==> #[trigger] out@[b] == matrix_bytes(
                            self.pixels(),
                            self.cols(),
                        )[b],
                decreases w - col,
            {
                let p = self.pixel(row, col);
                let ghost base = out@.len();
                proof {
                    lemma_pixel_bytes_index(self.pixels(), w as nat, row as int, col as int, 0);
                    lemma_pixel_bytes_index(self.pixels(), w as nat, row as int, col as int, 1);
                    lemma_pixel_bytes_index(self.pixels(), w as nat, row as int, col as int, 2);
                    lemma_pixel_bytes_index(self.pixels(), w as nat, row as int, col as int, 3);
                }
                out.push(p.c);
                out.push(p.m);
                out.push(p.y);
                out.push(p.k);
                col = col + 1;
            }
            proof {
                assert((row as int * w as int + w as int) * 4 == (row as int + 1) * w as int * 4)
                    by (nonlinear_arith);
            }
            row = row + 1;
        }
        proof {
            assert(out@ =~= matrix_bytes(self.pixels(), self.cols()));
        }
        out
    }
}

/// Byte `ch` of pixel `row`, `col` sits at `4 * (row * width + col) + ch`.
proof fn lemma_pixel_bytes_index(rows: Seq<Seq<Cmyk8Color>>, width: nat, row: int, col: int, ch: int)
    requires
        0 <= row < rows.len(),
        0 <= col < width,
        0 <= ch < 4,
    ensures
        ({
            let b = (row * width + col) * 4 + ch;
            &&& (b / 4) / (width as int) == row
            &&& (b / 4) % (width as int) == col
            &&& b % 4 == ch
            &&& b < rows.len() * width * 4
        }),
{
    let b = (row * width + col) * 4 + ch;
    assert(b / 4 == row * width + col && b % 4 == ch) by (nonlinear_arith)
        requires
            b == (row * width + col) * 4 + ch,
            0 <= ch < 4,
            row >= 0,
            col >= 0,
    ;
    assert((row * width + col) / (width as int) == row && (row * width + col) % (width as int)
        == col) by (nonlinear_arith)
        requires
            0 <= col < width,
            row >= 0,
    ;
    assert(b < rows.len() * width * 4) by (nonlinear_arith)
        requires
            b == (row * width + col) * 4 + ch,
            0 <= ch < 4,
            0 <= row < rows.len(),
            0 <= col < width,
    ;
}

/// A grid laid out row-major from the pixels of `data` gives back `data`.
proof fn lemma_bytes_of_pixels(data: Seq<u8>, rows: Seq<Seq<Cmyk8Color>>, width: nat)
    requires
        data.len() % 4 == 0,
        data.len() == rows.len() * width * 4,
        forall|i: int| 0 <= i < rows.len() ==> #[trigger] rows[i].len() == width,
        forall|i: int, j: int|
            0 <= i < rows.len() && 0 <= j < width ==> #[trigger] rows[i][j] == cmyk_pixels(
                data,
            )[i * width + j],
    ensures
        matrix_bytes(rows, width) == data,
{
    let mb = matrix_bytes(rows, width);
    assert forall|b: int| 0 <= b < data.len() implies mb[b] == data[b] by {
        let p = b / 4;
        let i = p / (width as int);
        let j = p % (width as int);
        assert(width > 0) by (nonlinear_arith)
            requires
                data.len() == rows.len() * width * 4,
                0 <= b < data.len(),
        ;
        assert(0 <= i < rows.len() && 0 <= j < width && i * width + j == p) by (nonlinear_arith)
            requires
                p == b / 4,
                i == p / (width as int),
                j == p % (width as int),
                width > 0,
                0 <= b < rows.len() * width * 4,
        ;
        assert(4 * p + b % 4 == b && 4 * p + 3 < data.len()) by (nonlinear_arith)
            requires
                p == b / 4,
                0 <= b < data.len(),
                data.len() % 4 == 0,
        ;
    }
    assert(mb =~= data);
}

/// Packed pixel bytes with their dimensions and resolution, tagged with
/// the pixel type they hold.
pub struct TypedRawImage<C> {
    data: Vec<u8>,
    info: ImageInfo,
    dpi_info: DpiInfo,
    _color_marker: core::marker::PhantomData<C>,
}

impl<C> TypedRawImage<C> {
    pub closed spec fn bytes(&self) -> Seq<u8> {
        self.data@
    }

    pub closed spec fn size(&self) -> ImageInfo {
        self.info
    }

    pub closed spec fn resolution(&self) -> DpiInfo {
        self.dpi_info
    }

    pub fn new(data: Vec<u8>, width: u32, height: u32, dpi_h: u64, dpi_w: u64) -> (r: Self)
        ensures
            r.bytes() == data@,
            r.size() == (ImageInfo { width, height }),
            r.resolution() == (DpiInfo { dpi_h, dpi_w }),
    {
        TypedRawImage {
            data,
            info: ImageInfo { width, height },
            dpi_info: DpiInfo { dpi_h, dpi_w },
            _color_marker: core::marker::PhantomData,
        }
    }
}

} // verus!

use vstd::prelude::*;

verus! {

/// A declared outside type: a TIFF tag value, carried through unread.
#[verifier::external_type_specification]
#[verifier::external_body]
pub struct ExTiffValue(tiff::decoder::ifd::Value);

/// Resampling filter used when an image is fitted to its target size.
#[derive(Debug, Clone, Copy, PartialEq, Eq, Structural)]
pub enum ScaleAlgorithm {
    Nearest,
    Bilinear,
    Lanczos3,
}

impl Default for ScaleAlgorithm {
    fn default() -> (r: ScaleAlgorithm)
        ensures
            r == ScaleAlgorithm::Bilinear,
    {
        ScaleAlgorithm::Bilinear
    }
}

/// Per-image options: the width, in pixels, of the stripe the image
/// contributes to each repeating block of the composite.
#[derive(Debug, Clone, Copy, PartialEq, Eq, Structural)]
pub struct ImageOptions {
    pub lenticular_width_px: u32,
}

/// Global print options.
///
/// Both quantities are fixed-point numbers with four decimal places:
/// `lpi` is in ten-thousandths of a line per inch (91.6 LPI is `916000`),
/// `physical_width_um` is the printed width in micrometres, that is in
/// ten-thousandths of a centimetre (10.6 cm is `106000`). With
/// `auto_width`, planning widens the stripe widths by their ratio until the
/// composite is at least as tall as the source images.
#[derive(Debug, Clone, Copy)]
pub struct ProcessOptions {
    pub lpi: u32,
    pub physical_width_um: u32,
    pub scale_algorithm: Option<ScaleAlgorithm>,
    pub auto_width: bool,
}

impl ProcessOptions {
    pub fn new(lpi: u32, physical_width_um: u32) -> (r: ProcessOptions)
        ensures
            r.lpi == lpi,
            r.physical_width_um == physical_width_um,
            r.scale_algorithm is None,
            !r.auto_width,
    {
        ProcessOptions { lpi, physical_width_um, scale_algorithm: None, auto_width: false }
    }

    pub fn with_scale_algorithm(self, algorithm: ScaleAlgorithm) -> (r: ProcessOptions)
        ensures
            r.lpi == self.lpi,
            r.physical_width_um == self.physical_width_um,
            r.scale_algorithm == Some(algorithm),
            r.auto_width == self.auto_width,
    {
        ProcessOptions { scale_algorithm: Some(algorithm), ..self }
    }

    pub fn with_auto_width(self, enabled: bool) -> (r: ProcessOptions)
        ensures
            r.lpi == self.lpi,
            r.physical_width_um == self.physical_width_um,
            r.scale_algorithm == self.scale_algorithm,
            r.auto_width == enabled,
    {
        ProcessOptions { auto_width: enabled, ..self }
    }
}

/// An input stream together with the options of the image it holds.
pub struct InputImageContext<R> {
    reader: R,
    image_options: ImageOptions,
}

impl<R> InputImageContext<R> {
    pub closed spec fn options(&self) -> ImageOptions {
        self.image_options
    }

    pub closed spec fn stream(&self) -> R {
        self.reader
    }

    pub fn new(reader: R, options: ImageOptions) -> (r: Self)
        ensures
            r.options() == options,
            r.stream() == reader,
    {
        InputImageContext { reader, image_options: options }
    }

    pub fn image_options(&self) -> (r: &ImageOptions)
        ensures
            *r == self.options(),
    {
        &self.image_options
    }

    pub fn image_options_mut(&mut self) -> (r: &mut ImageOptions)
        ensures
            *r == old(self).options(),
            final(self).options() == *final(r),
            final(self).stream() == old(self).stream(),
    {
        &mut self.image_options
    }

    /// The stream, for the caller that decodes it.
    pub fn reader_mut(&mut self) -> (r: &mut R)
        ensures
            *r == old(self).stream(),
            final(self).stream() == *final(r),
            final(self).options() == old(self).options(),
    {
        &mut self.reader
    }
}

/// The stripe widths of a sequence of inputs, in order.
pub open spec fn option_widths<R>(inputs: Seq<InputImageContext<R>>) -> Seq<u32> {
    Seq::new(inputs.len(), |i: int| inputs[i].options().lenticular_width_px)
}

/// Colour model and bit depth of a decoded image.
#[derive(Debug, Clone, Copy, PartialEq, Eq, Structural)]
pub enum ColorType {
    Gray(u8),
    RGB(u8),
    Palette(u8),
    GrayA(u8),
    RGBA(u8),
    CMYK(u8),
    YCbCr(u8),
}

/// Geometry and resolution tags of a source image.
#[derive(Debug)]
pub struct SourceParams {
    pub color_type: Option<ColorType>,
    pub width: u32,
    pub height: u32,
    pub resolution_unit: u32,
    pub x_resolution: Option<tiff::decoder::ifd::Value>,
    pub y_resolution: Option<tiff::decoder::ifd::Value>,
}

impl Default for SourceParams {
    fn default() -> (r: SourceParams)
        ensures
            r.color_type is None,
            r.width == 0,
            r.height == 0,
            r.resolution_unit == 0,
            r.x_resolution is None,
            r.y_resolution is None,
    {
        SourceParams {
            color_type: None,
            width: 0,
            height: 0,
            resolution_unit: 0,
            x_resolution: None,
            y_resolution: None,
        }
    }
}

impl SourceParams {
    pub fn set_color_type(&mut self, color_type: ColorType)
        ensures
            final(self).color_type == Some(color_type),
            final(self).width == old(self).width,
            final(self).height == old(self).height,
            final(self).resolution_unit == old(self).resolution_unit,
            final(self).x_resolution == old(self).x_resolution,
            final(self).y_resolution == old(self).y_resolution,
    {
        self.color_type = Some(color_type);
    }

    pub fn set_source_dimensions(&mut self, width: u32, height: u32)
        ensures
            final(self).color_type == old(self).color_type,
            final(self).width == width,
            final(self).height == height,
            final(self).resolution_unit == old(self).resolution_unit,
            final(self).x_resolution == old(self).x_resolution,
            final(self).y_resolution == old(self).y_resolution,
    {
        self.width = width;
        self.height = height;
    }

    pub fn set_resolution(
        &mut self,
        resolution_unit: u32,
        x_resolution: tiff::decoder::ifd::Value,
        y_resolution: tiff::decoder::ifd::Value,
    )
        ensures
            final(self).color_type == old(self).color_type,
            final(self).width == old(self).width,
            final(self).height == old(self).height,
            final(self).resolution_unit == resolution_unit,
            final(self).x_resolution == Some(x_resolution),
            final(self).y_resolution == Some(y_resolution),
    {
        self.resolution_unit = resolution_unit;
        self.x_resolution = Some(x_resolution);
        self.y_resolution = Some(y_resolution);
    }
}

/// Whether `other` has a known colour type and the colour type and
/// dimensions of `base`.
pub open spec fn params_match(base: SourceParams, other: SourceParams) -> bool {
    &&& other.color_type is Some
    &&& base.color_type == other.color_type
    &&& base.width == other.width
    &&& base.height == other.height
}

pub fn is_matching_params(base: &SourceParams, other: &SourceParams) -> (r: bool)
    ensures
        r == params_match(*base, *other),
{
    other.color_type.is_some() && base.color_type == other.color_type && base.width == other.width
        && base.height == other.height
}

} // verus!

//! Lenticular interleaving: composite dimensions, column placement and
//! resolution correction for CMYK8 rasters.

pub mod compositor;
pub mod error;
pub mod image;
pub mod lenticular;
pub mod mapping;
pub mod normalize;
pub mod planner;
pub mod resize;
pub mod search;

pub use compositor::{place_columns, process_tiff_cmyk8, process_tiff_cmyk8_counted, DecodedImage};
pub use error::{Error, Result};
pub use image::{Cmyk8Color, Color, DpiInfo, ImageInfo, MatrixImage, TypedRawImage};
pub use lenticular::{
    is_matching_params, ColorType, ImageOptions, InputImageContext, ProcessOptions, ScaleAlgorithm,
    SourceParams,
};
pub use mapping::create_line_index_mapping_advanced;
pub use normalize::normalize;
pub use planner::{calc_output_info, plan, resolution_rational, OutputInfo};
pub use resize::resize_cmyk8;
pub use search::{search_stripe_widths, MAX_SEARCH_STEPS};

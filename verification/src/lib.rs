//! Conversion of 32-bit RGBA rasters into two compact pixel encodings for
//! small displays: packed 8-bit RGB332 and a 1-bit monochrome bitmap.

pub mod converter;
pub mod lookup;
pub mod mask;
pub mod monochrome;
pub mod pixel;
pub mod raster;
pub mod rgb332;

//! Decoding of raw sensor pixel planes into display rasters.

pub mod complex;
pub mod error;
pub mod handler;
pub mod image_wrapper;
pub mod level;
pub mod mosaic;
pub mod raster;
pub mod resample;

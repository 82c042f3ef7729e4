//! Data refresh and rendering rules for a small e-paper dashboard: weather
//! aggregation and caching, transit arrival decoding, template patching on a
//! scene model, and monochrome bit packing.

pub mod clock;
pub mod raster;
pub mod render;
pub mod scalar;
pub mod scene;
pub mod text;
pub mod transit;
pub mod weather;

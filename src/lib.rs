//! Integer side of a small ray-casting renderer: the order in which the
//! raster is scanned and the plain-text PPM image that a render produces.

pub mod ppm;
pub mod raster;

//! A codec between a 3D point cloud and a square 16-bit-per-channel RGB
//! raster grid.
//!
//! Coordinates are fixed-point integers in a unit chosen by the caller.
//! Encoding normalizes each coordinate by the cloud's bounding extent and
//! quantizes it to a 16-bit channel; decoding maps each channel back to a
//! signed numerator over the channel depth under a unit scale.

pub mod cloud;
pub mod codec;
pub mod raster;

//! A small viewer library for the classic lump-archive level format: it decodes
//! the archive's header and directory, extracts level geometry, and rasterises
//! that geometry into a flat frame buffer, either as a top-down overview or
//! through a fixed-point perspective projection.

pub mod bytes;
pub mod wad;
pub mod raster;
pub mod overview;
pub mod view;
pub mod game;
pub mod frame;

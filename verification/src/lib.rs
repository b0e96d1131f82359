//! Escape-time fractal rendering core: the integer side of the engine.
//!
//! The crate partitions a raster into horizontal bands, maps pixels to
//! centred lattice offsets, bounds the escape-time iteration, turns
//! iteration outcomes into colours and lays those colours out in a flat
//! RGB byte buffer.  Every function carries a machine-checked contract.

pub mod color;
pub mod error;
pub mod escape;
pub mod lattice;
pub mod plan;
pub mod raster;
pub mod tile;

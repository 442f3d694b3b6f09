//! A small 2D tile-world game library and its spritesheet build tool,
//! modelled over milli-unit fixed-point integers so that every rule of the
//! game logic carries a proved contract.
//!
//! The engine-facing shell (windowing, rendering, device input, file I/O)
//! lives outside this crate and exchanges plain values with it.

pub mod camera;
pub mod dev;
pub mod forge;
pub mod gamepad;
pub mod movement;
pub mod settings;
pub mod tile_generation;
pub mod time;
pub mod tilemap;
pub mod units;

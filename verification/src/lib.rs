//! A 2.5-D ray-casting renderer over a tile grid.
//!
//! All geometry is carried in 16.16 fixed-point world units and all angles in
//! binary angle units (a full turn is `ANGLE_FULL`), so every quantity the
//! renderer computes is an exact integer with a stated contract.  The caller
//! converts between these units and whatever its windowing layer uses.

pub mod fixed;
pub mod angle;
pub mod grid;
pub mod framebuffer;
pub mod cast;
pub mod texture;
pub mod texgen;
pub mod player;
pub mod renderer;
pub mod sprites;
pub mod maze;

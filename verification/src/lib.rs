//! A discrete sandpile: locations arranged as a pyramid on a grid, grains that
//! land, roll and settle on them, and avalanches that collect the grains set in
//! motion by one falling grain.

pub mod constants;
pub mod grain;
pub mod location;
pub mod avalanche;
pub mod stats;

//! Frame bookkeeping, keyboard controls and scene-grid layout for a
//! Gaussian splatting viewer, with their contracts proved by Verus.

pub mod grid;
pub mod input;
pub mod renderer;

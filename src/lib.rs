//! Escape-time fractal rendering: sample points on a fixed-point grid, iteration
//! counts, histogram equalisation and gradient colouring.

pub mod error;
pub mod escape;
pub mod view;
pub mod cells;
pub mod grid;
pub mod histogram;
pub mod gradient;
pub mod render;
pub mod size2d;

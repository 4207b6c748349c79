//! Verified core of the S.O.U.L. cellular-automata workbench: cell states,
//! world grids and their slice allocators, GPU atlas packing, grid-to-texture
//! upload and the camera/input decision logic driven by the render layer.

pub mod math;
pub mod rect;
pub mod cell;
pub mod gpu_atlas;
pub mod gpu;
pub mod pipelines;
pub mod compute;
pub mod renderer_atlas;
pub mod grid;
pub mod worldgrid;
pub mod upload;
pub mod state;
pub mod commands;
pub mod camera;
pub mod input;
pub mod controller;
pub mod origin;
pub mod plugins;

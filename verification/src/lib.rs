use vstd::prelude::*;

pub mod block;
pub mod chunk;
pub mod compression;
pub mod coords;
pub mod gpu;
pub mod meshing;
pub mod meshing_registry;
pub mod meshlet;
pub mod pipeline;
pub mod registry;
pub mod render;
pub mod vfs;
pub mod world;

//! The voxel world of a block-based sandbox: a store of chunks of voxels,
//! a terrain generator, the lifecycle that loads, generates, saves and
//! unloads chunks around a viewpoint, the codec of the save files, and the
//! builder of the chunks' meshes.

pub mod chunk;
pub mod codec;
pub mod grid;
pub mod mesh;
pub mod player;
pub mod registry;
pub mod save_file;
pub mod table;
pub mod terrain;
pub mod voxel_world;

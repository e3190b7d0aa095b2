//! Terrain streaming core of a voxel world: a lazily generated voxel field,
//! a surface mesher working at several levels of detail, the arbitration of
//! the level of detail at which each block is held for several observers, and
//! the loader that keeps the collider store in step with that arbitration.
//!
//! All world coordinates are exact: block and voxel positions are integers,
//! and mesh coordinates are fixed-point integers in a power-of-two unit.

pub mod client_recv_thread;
pub mod collision;
pub mod communicate;
pub mod cube_shell;
pub mod entity;
pub mod block_position;
pub mod field;
pub mod generate;
pub mod ground;
pub mod id_allocator;
pub mod in_progress_terrain;
pub mod init_mobs;
pub mod invariants;
pub mod lod;
pub mod mesh;
pub mod mesher;
pub mod physics;
pub mod server;
pub mod stored;
pub mod surroundings_iter;
pub mod surroundings_loader;
pub mod terrain;
pub mod terrain_block;
pub mod terrain_game_loader;
pub mod tree_placer;
pub mod update_gaia;
pub mod update_world;
pub mod voxel;
pub mod voxel_tree;

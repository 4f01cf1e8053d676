//! A voxel terrain streaming core: fixed-size chunks of block variants,
//! deterministic terrain filling, face-culling surface meshing with
//! cross-chunk neighbor queries, and the streaming policy that decides
//! which chunks exist around a moving viewpoint.
//!
//! - `blocks`: the closed set of voxel variants and their per-face looks.
//! - `chunk`: the voxel grid, its position keying, and cell access.
//! - `mesh`: face-culling meshing, pinned by a full functional spec.
//! - `world_gen`: terrain filling from clamped per-column heights.
//! - `world`: the per-position Absent/InFlight/Loaded state machine and
//!   the per-tick streaming passes, each an exact model transition.
//! - `textures`: validation of texture-array inputs.

pub mod blocks;
pub mod chunk;
pub mod mesh;
pub mod textures;
pub mod world;
pub mod world_gen;

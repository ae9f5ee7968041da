//! Voxel sandbox world logic: block kinds, chunk storage, world editing,
//! face culling, terrain layout, sand physics and the chunk streaming rules.
pub mod block;
pub mod coords;
pub mod chunk_data;
pub mod keys;
pub mod world;
pub mod meshing;
pub mod edit;
pub mod mesher;
pub mod physics;
pub mod chunk_manager;
pub mod terrain;
pub mod interaction;
pub mod inventory;

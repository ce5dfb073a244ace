//! Game logic of a voxel building game: blocks, chunks and their loading,
//! caching and spatial lookup, inventory, crafting, terrain columns, ground
//! search, weather transitions and UI texture conversion, with their contracts.

pub mod block;
pub mod chunk;
pub mod chunk_manager;
pub mod collision;
pub mod crafting;
pub mod hotbar_ui;
pub mod inventory;
pub mod weather;
pub mod world_gen;

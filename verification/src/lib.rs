//! Verified core logic of the Loomz game client and engine: the save file
//! format, the terrain grid, the gui builder, its layout plan and its
//! interaction state, gpu memory bookkeeping, descriptor bookkeeping,
//! pipeline descriptions, render batching and swapchain setup decisions.

pub mod memory;
pub mod store;
pub mod terrain;
pub mod world;
pub mod gui_batch;
pub mod descriptors;
pub mod setup;
pub mod frame;
pub mod client;
pub mod gui_state;
pub mod texture;
pub mod cache;
pub mod render;
pub mod pipelines;
pub mod module_setup;
pub mod gui_builder;
pub mod gui_layout;

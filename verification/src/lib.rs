//! World management for a real-time 3D game: terrain streaming around the
//! player, a registry that deduplicates and tracks content loads, and the
//! activity lifecycle of spawned entities.
//!
//! The crate works on plain values. Lengths and positions are whole numbers of
//! sub-units (`geometry::UNIT` of them make one world unit), durations are
//! milliseconds, entities are the integer ids that the scene graph gives them.

pub mod geometry;
pub mod flat_mesh;
pub mod asset_model;
pub mod session_table;
pub mod asset_loader;
pub mod hierarchy;
pub mod animation;
pub mod random;
pub mod scatter;
pub mod world;
pub mod spawner;
pub mod states;

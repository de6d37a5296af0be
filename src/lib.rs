//! Core of a two-dimensional n-body gravity simulation: bounded position
//! trails, the body store, collision pairing and the per-tick phase pipeline.
pub mod trail;
pub mod collision;
pub mod store;
pub mod pipeline;
pub mod resources;
pub mod controls;

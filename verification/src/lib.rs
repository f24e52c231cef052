//! Snapshot, restore and dirty-page tracking logic of a microVM monitor.
pub mod backend;
pub mod bitmap;
pub mod config;
pub mod create;
pub mod delta;
pub mod dirty_ring;
pub mod errors;
pub mod external;
pub mod layered;
pub mod memory;
pub mod offsets;
pub mod prefault;
pub mod ranges;
pub mod restore;
pub mod results;
pub mod ring_caps;
pub mod ring_state;
pub mod sanity;
pub mod state;
pub mod text;

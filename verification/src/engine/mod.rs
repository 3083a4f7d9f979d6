//! Deterministic aquarium economy.

pub mod params;
pub mod state;
pub mod laws;

pub use params::{Params, Ratio, ReefKind, Species, MICRO, SLOTS, SPECIES};
pub use state::{Reef, State, ANCHOR_POS_MAX, DEFAULT_ANCHOR_POS};

//! Deterministic economy engine for an aquarium incremental game, with the
//! pure rules around it: the application shell, the save format, the command
//! line, the scenario harness and the arithmetic of the pictures.
//!
//! The engine is a pure state machine: no I/O, no clock, no floats. Time is
//! driven from the outside via `State::advance`, which is also how offline
//! progress is settled (settlement is the same simulation).

pub mod app;
pub mod cli;
pub mod content;
pub mod engine;
pub mod harness;
pub mod hud;
pub mod save;
pub mod scene;
pub mod scan;
pub mod text;

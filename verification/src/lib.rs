//! Agent runtime state: round replay checkpoints, file read gating and one-shot model routing.

pub mod error;
pub mod file_read_state;
pub mod json;
pub mod laws;
pub mod message;
pub mod ordering;
pub mod round_model_route;
pub mod round_replay;
pub mod text;

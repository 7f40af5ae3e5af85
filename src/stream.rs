//! Event classification: timing model, chord orchestrator and device rules.
pub mod detect;
pub mod listener;
pub mod timing;

pub use detect::{ChordConfig, ChordStream};

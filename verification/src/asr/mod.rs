//! Speech recognition: talking to recognition services and judging and merging
//! what they return.

pub mod client;
pub mod filter;
pub mod hypothesis;
pub mod provider;

pub use client::{AsrConnectionTest, AsrOutcome, TranscribeRequest};
pub use filter::{is_suspect, suspect_reason};
pub use hypothesis::{Agreement, HypothesisBuffer};
pub use provider::{presets, provider_from_preset, AsrPreset};

//! Meeting transcription and minutes: the verified core.
//!
//! Strings are modelled as sequences of characters. Sample values and other
//! single precision quantities are carried as bit patterns (see [`num`]).

pub mod text;
pub mod num;
pub mod error;
pub mod json;
pub mod util;
pub mod http;
pub mod audio;
pub mod settings;
pub mod pipeline;
pub mod asr;
pub mod ai;
pub mod session;
pub mod events;
pub mod diagnostics;
pub mod commands;

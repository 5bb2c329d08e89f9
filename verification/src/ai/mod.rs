//! Minutes by a language model: talking to the service, prompts, and the rolling
//! state of the minutes.

pub mod client;
pub mod patch;
pub mod presets;
pub mod prompts;
pub mod summarizer;

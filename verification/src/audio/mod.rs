//! Audio: sources, mixing, speech detection.

pub mod capture;
pub mod decode;
pub mod loopback;
pub mod mixer;
pub mod vad;
pub mod wav;

//! Live transcription: cut speech into sentences, recognise them, keep rolling
//! minutes.

pub mod heard;
pub mod live;
pub mod queue;
pub mod segmenter;
pub mod timeline;
pub mod summary;
pub mod worker;

pub use live::speaker_for_single_source;
pub use queue::JobQueue;
pub use segmenter::{AsrJob, Segmenter, SegmenterAction, SourceShare};
pub use worker::AsrWorkerConfig;

//! Subtitle post-processing, transcription-output parsing and model/cache
//! bookkeeping for the AutoSub subtitle generator.
//!
//! Times are integer microseconds throughout the library.
pub mod thermal;
pub mod text;
pub mod subtitle;
pub mod post_process;
pub mod error;
pub mod model_manager;
pub mod sensevoice;
pub mod cache;
pub mod srt;
pub mod pipeline;
pub mod whisper;
pub mod ffmpeg;
pub mod environment;

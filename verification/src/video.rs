//! Video downloads through yt-dlp: command lines, progress lines, page information and
//! the life of the process.
pub mod bin;
pub mod engine;
pub mod number;
pub mod probe;
pub mod progress;
pub mod runner;
pub mod service;

pub use crate::video::runner::{FakeRunner, KillReason, RunResult, ScriptStep, TokioChildRunner};
pub use crate::video::service::VideoService;

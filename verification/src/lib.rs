//! Verified core of the Sparkling download manager: segment bookkeeping, worker and
//! task state machines, queue scheduling, rate limiting and the yt-dlp front end.
pub mod control_file;
pub mod disk;
pub mod engine;
pub mod error;
pub mod http_engine;
pub mod manager;
pub mod paths;
pub mod probe;
pub mod segment;
pub mod store;
pub mod task;
pub mod text;
pub mod throttle;
pub mod video;

pub use crate::error::SparklingError;

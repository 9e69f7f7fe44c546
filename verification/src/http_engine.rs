//! The HTTP engine: a file is split into segments, each downloaded by a worker; idle
//! workers take over half of the largest remaining segment.
pub mod batch;
pub mod content;
pub mod download;
pub mod driver;
pub mod retry;
pub mod run;
pub mod shared;
pub mod worker;

pub use crate::http_engine::retry::{Delay, RetryPolicy};
pub use crate::http_engine::run::{part_path_for, sanitize_filename};
pub use crate::http_engine::shared::Shared;

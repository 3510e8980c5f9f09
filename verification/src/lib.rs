//! Shifts the cue timestamps of SubRip subtitle text by a signed number of
//! milliseconds.
//!
//! A timestamp has the form `HH:MM:SS,mmm`. A line that holds the arrow `-->`
//! is a timing line: its last two arrow-delimited fields are read as
//! timestamps, shifted, and written back as `START --> END`. Every other line
//! is kept as it is.
//!
//! The library does not touch the file system. `first_step` and `next_step`
//! say what is to be done to it, one step after the other: read the file,
//! move it to its backup path, write the shifted text.

pub mod backup;
pub mod config;
pub mod contents;
pub mod cue;
pub mod decimal;
pub mod driver;
pub mod duration;
pub mod error;
pub mod text;

pub use backup::backup_file_name;
pub use config::Config;
pub use contents::skew_file_contents;
pub use cue::skew_line;
pub use driver::{first_step, next_step, next_step_at, Outcome, Step};
pub use duration::{format_duration, parse_duration, skew_duration};
pub use error::SkewError;

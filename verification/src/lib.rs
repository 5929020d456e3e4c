//! Building blocks of a segmented-stream downloader: manifest parsing, the
//! retry policy, the bounded dispatch of segment fetches, the ordered
//! reassembly of what was fetched and the detection of the container format.

pub mod budget;
pub mod error;
pub mod format;
pub mod manifest;
pub mod pipeline;
pub mod retry;
pub mod scratch;
pub mod text;

//! Metadata purging engines for PNG, JPEG, PDF and Office Open XML files.
//!
//! Each engine locates exactly the bytes that carry document metadata and
//! removes them, leaving all rendering-relevant content unchanged.  A small
//! pipeline layer accounts for per-file outcomes so that one bad file never
//! aborts a batch.

pub mod errors;
pub mod jpeg;
pub mod mso_x;
pub mod paths;
pub mod pdf;
pub mod pipeline;
pub mod png;
pub mod ranges;
pub mod zipio;

pub use errors::{PurgeErr, ToUser, UISideErr};
pub use paths::DataPaths;
pub use pipeline::{DocumentType, Getpath, PipelineMessage};
pub use ranges::{dont_take_ranges, Range};

//! Verified core of the ullam flight-log workflow: decoding of DataFlash
//! records, per-message field interpretation, windowing and grouping of the
//! decoded stream, the layout of the summaries and reports, and the small
//! decisions around the model runtime.

pub mod time;
pub mod value;
pub mod chunking;
pub mod grouping;
pub mod config;
pub mod preprocess;
pub mod text;
pub mod format;
pub mod message;
pub mod providers;
pub mod aggregate;
pub mod analysis;
pub mod runtime;
pub mod fixed_bytes;

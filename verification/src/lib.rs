//! Verified core of an adaptive file-processing pipeline: stage model,
//! compression and encryption settings, the `.adapipe` byte format and the
//! bookkeeping of transactional chunk writes.

pub mod adapters;
pub mod binary_format;
pub mod cli;
pub mod clock;
pub mod compression;
pub mod digest;
pub mod encryption;
pub mod error;
pub mod executor;
pub mod file_io;
pub mod header;
pub mod parameters;
pub mod pipeline;
pub mod processing;
pub mod restoration;
pub mod service;
pub mod stage;
pub mod text;
pub mod transaction;
pub mod workload;

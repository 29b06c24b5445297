//! Streaming line-to-JSONL conversion engine: a transparent (gzip or plain)
//! byte source, a line splitter, a pool of per-line transformation workers
//! that batch output into blobs, and a writer that concatenates the blobs.
//!
//! The concurrency shell (threads, channels, file handles) lives outside this
//! library; everything here is the decision logic those threads run, with
//! contracts that pin down record counts, blob boundaries and output bytes.

pub mod counter;
pub mod gzip;
pub mod json;
pub mod lines;
pub mod modules;
pub mod parser;
pub mod pipeline;
pub mod registry;
pub mod sizefmt;
pub mod textnum;

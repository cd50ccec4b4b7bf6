//! Compactor: a lossless compressor built on context mixing.
//!
//! Data is coded one bit at a time by a binary arithmetic coder ([`rc`]) that is
//! driven by a predicted probability ([`model`]). Everything is deterministic
//! integer arithmetic, so an archive made on one machine decodes bit for bit
//! identically on any other.
//!
//! The codec:
//!   - [`crc32`]: integrity check
//!   - [`rc`]: binary arithmetic coder
//!   - [`logistic`], [`counter`], [`mixer`], [`apm`], [`matching`], [`history`],
//!     [`bank`], [`network`]: the parts of the predictor
//!   - [`model`]: the predictor
//!   - [`progress`], [`codec`], [`container`]: payloads and archives
//!
//! The programs around it, as far as they decide anything:
//!   - [`text`], [`args`]: text and argument lists
//!   - [`convert`], [`video`], [`download`]: what ffmpeg, yt-dlp and curl are
//!     asked to do
//!   - [`http`], [`jobs`], [`server`]: the web interface
//!   - [`cli`]: the command line

pub mod crc32;
pub mod rc;
pub mod logistic;
pub mod counter;
pub mod mixer;
pub mod apm;
pub mod matching;
pub mod history;
pub mod bank;
pub mod network;
pub mod model;
pub mod progress;
pub mod codec;
pub mod container;

pub mod text;
pub mod args;
pub mod convert;
pub mod video;
pub mod download;
pub mod http;
pub mod jobs;
pub mod server;
pub mod cli;

pub use crate::container::{
    compress, compress_with_progress, decompress, decompress_with_progress, is_archive,
    model_memory, DEFAULT_LEVEL, HEADER_LEN, MAGIC, MAX_LEVEL, METHOD_CM, METHOD_STORED, VERSION,
};

//! Streams a video as minimal per-frame pixel updates for a pixel-drawing
//! canvas service: a frame/raster data model, two delta-compression codecs
//! (threshold-gated and budget-ranked), a chunked compression pipeline, the
//! wire-protocol encoders and a frame-pacing scheduler.

pub mod cache;
pub mod codec;
pub mod color;
pub mod compression;
pub mod frame;
pub mod levels;
pub mod pacing;
pub mod parse;
pub mod pipeline;
pub mod settings;
pub mod pixel;
pub mod protocol;

use vstd::prelude::*;

verus! {

/// The error kinds of the library: I/O failures are carried as text by the
/// caller, malformed input, invalid configuration and aggregated pipeline
/// failures each have a variant of their own.
#[derive(Debug, Clone, PartialEq, Eq)]
pub enum Error {
    Io(String),
    FileParseError(String),
    FFmpegError(String),
    InvalidArgs(String),
    InvalidConfig(String),
    Custom(String),
}

} // verus!

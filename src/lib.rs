//! Lossless codecs for two binary container formats: the marker-delimited
//! segment stream of JPEG files and the nested chunk tree of RIFF files.
use vstd::prelude::*;

pub mod buffer;
pub mod entropy;
pub mod error;
pub mod markers;
pub mod riff;
pub mod segment;
pub mod wire;

pub use entropy::Entropy;
pub use error::Error;
pub use riff::{RiffChunk, RiffContent};
pub use segment::JpegSegment;

verus! {

} // verus!

use vstd::prelude::*;

verus! {

/// The ways in which decoding or encoding a segment or a chunk can fail.
#[derive(Debug, Clone, Copy, PartialEq, Eq, Structural)]
pub enum Error {
    /// Fewer bytes remain than a length field or a fixed-width read demands.
    Truncated,
    /// A segment's length field is smaller than the two bytes it occupies.
    BadSegmentLength,
    /// The outermost chunk does not carry the `RIFF` tag.
    NoRiffHeader,
    /// A container's content is not a whole number of chunks.
    MalformedNesting,
    /// The pad byte after data of odd length is not zero.
    BadPadding,
    /// An encoded length does not fit in its length field.
    Overflow,
}

} // verus!

//! Classification of JPEG marker bytes.
use vstd::prelude::*;

verus! {

/// The byte written before every marker.
pub const P: u8 = 0xFF;
/// Temporary private use marker, which stands alone.
pub const TEM: u8 = 0x01;
/// First of the eight restart markers.
pub const RST0: u8 = 0xD0;
/// Last of the eight restart markers.
pub const RST7: u8 = 0xD7;
/// Start of image.
pub const SOI: u8 = 0xD8;
/// End of image.
pub const EOI: u8 = 0xD9;
/// Start of scan: followed by entropy-coded data.
pub const SOS: u8 = 0xDA;
/// Application segment carrying EXIF metadata.
pub const APP1: u8 = 0xE1;
/// Application segment carrying an ICC color profile.
pub const APP2: u8 = 0xE2;

/// Whether a segment with this marker carries a two-byte length field.
pub open spec fn spec_has_length(marker: u8) -> bool {
    !(marker == TEM || (RST0 <= marker && marker <= EOI))
}

/// Whether a segment with this marker is followed by entropy-coded data.
pub open spec fn spec_has_entropy(marker: u8) -> bool {
    marker == SOS
}

/// Whether `marker` is a restart marker.
pub open spec fn spec_is_restart(marker: u8) -> bool {
    RST0 <= marker && marker <= RST7
}

pub fn has_length(marker: u8) -> (r: bool)
    ensures
        r == spec_has_length(marker),
{
    !(marker == TEM || (RST0 <= marker && marker <= EOI))
}

pub fn has_entropy(marker: u8) -> (r: bool)
    ensures
        r == spec_has_entropy(marker),
{
    marker == SOS
}

pub fn is_restart(marker: u8) -> (r: bool)
    ensures
        r == spec_is_restart(marker),
{
    RST0 <= marker && marker <= RST7
}

} // verus!

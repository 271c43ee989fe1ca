//! The errors of box parsing and of muxing.
use vstd::prelude::*;

use crate::framing::BoxPrint;

verus! {

/// What can go wrong while parsing boxes.
#[derive(Debug, Clone, Copy, PartialEq, Eq, Structural)]
pub enum Mp4BoxError {
    /// The bytes ended before a field that was to be read.
    UnexpectedEos,
    /// A handler name that is not UTF-8.
    InvalidUtf8,
    /// A box header whose size is smaller than the header itself
    /// (this includes the "to end of file" size 0); carries the box name and size.
    InvalidBoxSize(BoxPrint, u64),
    /// A sample entry of a kind this library does not handle.
    UnsupportedSampleEntry(BoxPrint),
    /// A box of a fixed type had another name: expected, then found.
    UnexpectedName(BoxPrint, BoxPrint),
    RequiredBoxNotFound(BoxPrint),
    RequiredEitherBoxesNotFound(BoxPrint, BoxPrint),
    /// Box name, the number required, the number found.
    NotEnoughBoxes(BoxPrint, u32, u32),
    /// A descriptor tag that differs from the expected one: expected, then found.
    UnexpectedTag(u8, u8),
    UnsupportedMpeg4Codec(u8),
    /// A full box of a version that this library cannot read.
    UnsupportedVersion(BoxPrint, u8),
    /// Sample tables that contradict each other or overflow: unsorted or
    /// overrunning sample-to-chunk entries, sample counts that disagree, times
    /// or offsets that do not fit in 64 bits.
    InvalidSampleTable,
    /// A VP9 configuration record with codec initialization data.
    UnexpectedInitializationData(u16),
}

/// What can go wrong while muxing.
#[derive(Debug, Clone, PartialEq, Eq)]
pub enum Mp4MuxerError {
    /// The codec identifier, as bytes.
    UnsupportedCodec(Vec<u8>),
    MissingCodec,
    MissingInfo,
    MissingCodecFeature(u8),
    /// A packet that carries neither a duration nor a timestamp.
    InvalidTiming,
    /// More samples, tracks or bytes than the tables or 64-bit sizes can hold.
    FileTooLarge,
}

} // verus!

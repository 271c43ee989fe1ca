//! MP4 (ISO base media file format) boxes, sample tables, and the logic of a
//! demuxer and a muxer over them.
pub mod bytes;
pub mod error;
pub mod framing;
pub mod tables;
pub mod index;
pub mod demuxer;
pub mod builder;
pub mod headers;
pub mod codec;
pub mod esds;
pub mod stsd;
pub mod containers;
pub mod bridge;
pub mod muxer;

//! Header and information boxes: `ftyp`, `mdat`, `mvhd`, `tkhd`, `mdhd`,
//! `hdlr`, `vmhd`, `smhd`, `url `, `dref`, `dinf`, `mehd`, `trex`, `mvex`.
use vstd::prelude::*;

use crate::bytes::{
    be_at, be_bytes, concat_map, lemma_be_bytes_len, lemma_concat_map_len,
    lemma_concat_map_push, push_bytes, push_u16, push_u32,
    push_u32_list, push_u64, push_zeros, read_bytes, read_u32, read_u64, skip_bytes, u32_bytes,
    u64_bytes, zeros,
};
use crate::error::Mp4BoxError;
use crate::framing::{
    after, box_children, child_data, children, frame_ok, lemma_children_step, lemma_last_named_bound, lemma_last_named_push, last_named, Child,
    full_content_start, full_header_ok, full_version, versioned_ok,
    full_box_bytes, header_result, lemma_full_box_len, lemma_plain_box_len, plain_box_bytes, rest,
    total_with_header, write_full_header, write_header, BoxName, BoxPrint, Boks, FullBox, I16F16,
    DINF, DREF, FTYP, HDLR, MDAT, MDHD, MEHD, MVEX, MVHD, SMHD, TKHD, TREX, URL, VMHD,
};

verus! {

broadcast use lemma_be_bytes_len;

/// `b` is the `tkhd` box read at `q`.
pub open spec fn tkhd_fields(data: Seq<u8>, q: int, b: TrackHeaderBox) -> bool {
    let p = q + b.full_box.read_size;
    &&& b.full_box.boks.name == TKHD
    &&& b.full_box.version == 0 ==> b.track_id == be_at(data, p + 8, 4) && b.duration
        == be_at(data, p + 16, 4) && b.width.0 == be_at(data, p + 72, 4)
        && b.height.0 == be_at(data, p + 76, 4)
    &&& b.full_box.version == 1 ==> b.track_id == be_at(data, p + 16, 4)
        && b.duration == be_at(data, p + 24, 8) && b.width.0 == be_at(data, p + 84, 4)
        && b.height.0 == be_at(data, p + 88, 4)
    &&& b.full_box.version <= 1
}

/// `b` is the `mdhd` box read at `q`.
pub open spec fn mdhd_fields(data: Seq<u8>, q: int, b: MediaHeaderBox) -> bool {
    let p = q + b.full_box.read_size;
    &&& b.full_box.boks.name == MDHD
    &&& b.full_box.version == 0 ==> b.timescale == be_at(data, p + 8, 4)
        && b.duration == be_at(data, p + 12, 4)
    &&& b.full_box.version == 1 ==> b.timescale == be_at(data, p + 16, 4)
        && b.duration == be_at(data, p + 20, 8)
    &&& b.full_box.version <= 1
}

/// `b` is the `hdlr` box read at `q`.
pub open spec fn hdlr_fields(data: Seq<u8>, q: int, b: HandlerBox) -> bool {
    let p = q + b.full_box.read_size;
    let end = q + b.full_box.boks.size;
    &&& b.full_box.boks.name == HDLR
    &&& end <= data.len()
    &&& b.handler_type == be_at(data, p + 4, 4)
    &&& p + 20 + b.name@.len() <= end
    &&& b.name@ == data.subrange(p + 20, p + 20 + b.name@.len())
    &&& forall|i: int| 0 <= i < b.name@.len() ==> #[trigger] b.name@[i] != 0
    &&& (p + 20 + b.name@.len() == end || data[p + 20 + b.name@.len()] == 0)
    &&& is_utf8(b.name@)
}

/// `b` is the `mehd` box read at `q`.
pub open spec fn mehd_fields(data: Seq<u8>, q: int, b: MovieExtendsHeaderBox) -> bool {
    let p = q + b.full_box.read_size;
    &&& b.full_box.boks.name == MEHD
    &&& b.full_box.version == 0 ==> b.fragment_duration == be_at(data, p, 4)
    &&& b.full_box.version == 1 ==> b.fragment_duration == be_at(data, p, 8)
    &&& b.full_box.version <= 1
}

/// `b` is the `trex` box read at `q`.
pub open spec fn trex_fields(data: Seq<u8>, q: int, b: TrackExtendsBox) -> bool {
    let p = q + b.full_box.read_size;
    &&& b.full_box.boks.name == TREX
    &&& b.track_id == be_at(data, p, 4)
    &&& b.default_sample_description_index == be_at(data, p + 4, 4)
    &&& b.default_sample_duration == be_at(data, p + 8, 4)
    &&& b.default_sample_size == be_at(data, p + 12, 4)
    &&& b.default_sample_flags == be_at(data, p + 16, 4)
}

/// The identity transformation matrix of movie and track headers.
pub open spec fn identity_matrix() -> Seq<u8> {
    u32_bytes(0x0001_0000) + zeros(12) + u32_bytes(0x0001_0000) + zeros(12) + u32_bytes(
        0x4000_0000,
    )
}

fn push_identity_matrix(out: &mut Vec<u8>)
    ensures
        final(out)@ == old(out)@ + identity_matrix(),
{
    push_u32(out, 0x0001_0000);
    push_zeros(out, 12);
    push_u32(out, 0x0001_0000);
    push_zeros(out, 12);
    push_u32(out, 0x4000_0000);
    assert(final(out)@ =~= old(out)@ + identity_matrix());
}

// ---------------------------------------------------------------------------

/// The file type box: a major brand, a minor version and compatible brands.
pub struct FileTypeBox {
    pub major_brand: BoxName,
    pub minor_version: u32,
    pub compatible_brands: Vec<BoxName>,
}

impl FileTypeBox {
    pub open spec fn wf(&self) -> bool {
        self.compatible_brands@.len() <= u32::MAX
    }

    pub open spec fn spec_contents(&self) -> Seq<u8> {
        u32_bytes(self.major_brand) + u32_bytes(self.minor_version) + concat_map(
            self.compatible_brands@,
            |v: u32| u32_bytes(v),
        )
    }

    pub open spec fn spec_bytes(&self) -> Seq<u8> {
        plain_box_bytes(FTYP, self.spec_contents())
    }

    pub fn new(major_brand: BoxName, minor_version: u32, compatible_brands: Vec<BoxName>) -> (r:
        Self)
        ensures
            r.major_brand == major_brand,
            r.minor_version == minor_version,
            r.compatible_brands == compatible_brands,
    {
        FileTypeBox { major_brand, minor_version, compatible_brands }
    }

    /// Reads an `ftyp` box at `*pos`: the brands fill the rest of the box.
    pub fn read(data: &[u8], pos: &mut usize) -> (r: Result<Self, Mp4BoxError>)
        requires
            *old(pos) <= data@.len(),
        ensures
            r is Ok ==> {
                let b = r->Ok_0;
                let h = header_result(rest(data@, *old(pos) as int))->Ok_0;
                let c = *old(pos) + h.2;
                &&& header_result(rest(data@, *old(pos) as int)) is Ok
                &&& h.0 == FTYP
                &&& b.major_brand == be_at(data@, c, 4)
                &&& b.minor_version == be_at(data@, c + 4, 4)
                &&& b.compatible_brands@.len() == (h.1 - h.2 - 8) / 4
                &&& data@.subrange(c, *final(pos) as int) == b.spec_contents()
            },
            r is Ok <==> ({
                let h = header_result(rest(data@, *old(pos) as int));
                &&& h is Ok
                &&& h->Ok_0.0 == FTYP
                &&& h->Ok_0.1 - h->Ok_0.2 >= 8
                &&& (h->Ok_0.1 - h->Ok_0.2 - 8) / 4 <= u32::MAX
                &&& *old(pos) + h->Ok_0.2 + 8 + 4 * ((h->Ok_0.1 - h->Ok_0.2 - 8) / 4) <= data@.len()
            }),
    {
        let start = *pos;
        let boks = Boks::read_named(data, pos, FTYP)?;
        let c = *pos;
        let major_brand = read_u32(data, pos)?;
        let minor_version = read_u32(data, pos)?;
        let content = boks.size - boks.read_size as u64;
        if content < 8 {
            return Err(Mp4BoxError::UnexpectedEos);
        }
        let count = (content - 8) / 4;
        if count > 0xFFFF_FFFF {
            return Err(Mp4BoxError::UnexpectedEos);
        }
        let m = *pos;
        let compatible_brands = crate::bytes::read_u32_list(data, pos, count as u32)?;
        proof {
            crate::bytes::lemma_be_bytes_of_value(data@.subrange(c as int, c + 4));
            crate::bytes::lemma_be_bytes_of_value(data@.subrange(c + 4, c + 8));
            assert(data@.subrange(c as int, *pos as int) =~= data@.subrange(c as int, c + 4)
                + data@.subrange(c + 4, c + 8) + data@.subrange(m as int, *pos as int));
        }
        Ok(FileTypeBox { major_brand, minor_version, compatible_brands })
    }

    /// Emits the box.
    pub fn write(&self, out: &mut Vec<u8>)
        requires
            self.wf(),
        ensures
            final(out)@ == old(out)@ + self.spec_bytes(),
    {
        let total = self.total_size();
        Boks::new(FTYP).write(out, total);
        push_u32(out, self.major_brand);
        push_u32(out, self.minor_version);
        push_u32_list(out, self.compatible_brands.as_slice());
        assert(final(out)@ =~= old(out)@ + self.spec_bytes());
    }

    /// The size of the encoded box.
    pub fn total_size(&self) -> (r: u64)
        requires
            self.wf(),
        ensures
            r == self.spec_bytes().len(),
            r == total_with_header(self.spec_contents().len()),
            r == total_with_header(8 + 4 * self.compatible_brands@.len()),
    {
        proof {
            lemma_concat_map_len(self.compatible_brands@, |v: u32| u32_bytes(v), 4);
            lemma_plain_box_len(FTYP, self.spec_contents());
        }
        Boks::new(FTYP).size(8 + 4 * self.compatible_brands.len() as u64)
    }
}

/// The media data box, holding sample payloads.
pub struct MediaDataBox {
    pub data: Vec<u8>,
}

impl MediaDataBox {
    pub open spec fn spec_bytes(&self) -> Seq<u8> {
        plain_box_bytes(MDAT, self.data@)
    }

    pub fn new(data: Vec<u8>) -> (r: Self)
        ensures
            r.data == data,
    {
        MediaDataBox { data }
    }

    /// Emits the box, in the 16-byte header form where its size needs 64 bits.
    pub fn write(&self, out: &mut Vec<u8>)
        requires
            total_with_header(self.data@.len()) <= u64::MAX,
        ensures
            final(out)@ == old(out)@ + self.spec_bytes(),
    {
        write_header(out, MDAT, self.data.len() as u64);
        push_bytes(out, self.data.as_slice());
    }

    pub fn total_size(&self) -> (r: u64)
        requires
            total_with_header(self.data@.len()) <= u64::MAX,
        ensures
            r == self.spec_bytes().len(),
    {
        proof {
            lemma_plain_box_len(MDAT, self.data@);
        }
        Boks::new(MDAT).size(self.data.len() as u64)
    }
}

// ---------------------------------------------------------------------------

/// The movie header box.
pub struct MovieHeaderBox {
    pub full_box: FullBox,
    pub creation_time: u64,
    pub modification_time: u64,
    pub timescale: u32,
    pub duration: u64,
}

impl MovieHeaderBox {
    /// The version 1 contents that this library writes.
    pub open spec fn spec_contents(&self) -> Seq<u8> {
        u64_bytes(self.creation_time) + u64_bytes(self.modification_time) + u32_bytes(
            self.timescale,
        ) + u64_bytes(self.duration) + u32_bytes(0x0001_0000) + be_bytes(0x0100, 2) + zeros(10)
            + identity_matrix() + zeros(24) + u32_bytes(1)
    }

    pub open spec fn spec_bytes(&self) -> Seq<u8> {
        full_box_bytes(MVHD, 1, 0, self.spec_contents())
    }

    pub fn new(timescale: u32, duration: u64) -> (r: Self)
        ensures
            r.timescale == timescale,
            r.duration == duration,
            r.creation_time == 0,
            r.modification_time == 0,
    {
        MovieHeaderBox {
            full_box: FullBox::new(MVHD, 1, 0),
            creation_time: 0,
            modification_time: 0,
            timescale,
            duration,
        }
    }

    /// Reads an `mvhd` box of version 0 or 1 at `*pos`.
    pub fn read(data: &[u8], pos: &mut usize) -> (r: Result<Self, Mp4BoxError>)
        requires
            *old(pos) <= data@.len(),
        ensures
            r is Ok <==> versioned_ok(data@, *old(pos) as int, MVHD, 96, 108),
            r is Ok ==> r->Ok_0.full_box.read_size == full_content_start(data@, *old(pos) as int)
                - *old(pos) && r->Ok_0.full_box.version == full_version(data@, *old(pos) as int),
            r is Ok ==> {
                let b = r->Ok_0;
                let p = *old(pos) + b.full_box.read_size;
                &&& b.full_box.boks.name == MVHD
                &&& b.full_box.version == 0 ==> b.timescale == be_at(data@, p + 8, 4)
                    && b.duration == be_at(data@, p + 12, 4)
                &&& b.full_box.version == 1 ==> b.timescale == be_at(data@, p + 16, 4)
                    && b.duration == be_at(data@, p + 20, 8)
                &&& b.full_box.version <= 1
            },
    {
        let full_box = FullBox::read_named(data, pos, MVHD)?;
        if full_box.version == 0 {
            MovieHeaderBox::read_v0(data, pos, full_box)
        } else if full_box.version == 1 {
            MovieHeaderBox::read_v1(data, pos, full_box)
        } else {
            Err(Mp4BoxError::UnsupportedVersion(BoxPrint(MVHD), full_box.version))
        }
    }

    /// Reads the 96 bytes of version 0 contents at `*pos`.
    pub fn read_v0(data: &[u8], pos: &mut usize, full_box: FullBox) -> (r: Result<
        Self,
        Mp4BoxError,
    >)
        ensures
            r is Ok ==> {
                let b = r->Ok_0;
                let p = *old(pos);
                &&& p + 96 <= data@.len()
                &&& *final(pos) == p + 96
                &&& b.full_box == full_box
                &&& b.creation_time == be_at(data@, p as int, 4)
                &&& b.modification_time == be_at(data@, p + 4, 4)
                &&& b.timescale == be_at(data@, p + 8, 4)
                &&& b.duration == be_at(data@, p + 12, 4)
            },
            r is Err ==> *old(pos) + 96 > data@.len(),
    {
        if data.len() < 96 || *pos > data.len() - 96 {
            return Err(Mp4BoxError::UnexpectedEos);
        }
        let creation_time = read_u32(data, pos)?;
        let modification_time = read_u32(data, pos)?;
        let timescale = read_u32(data, pos)?;
        let duration = read_u32(data, pos)?;
        skip_bytes(data, pos, 80)?;
        Ok(MovieHeaderBox {
            full_box,
            creation_time: creation_time as u64,
            modification_time: modification_time as u64,
            timescale,
            duration: duration as u64,
        })
    }

    /// Reads the 108 bytes of version 1 contents at `*pos`.
    pub fn read_v1(data: &[u8], pos: &mut usize, full_box: FullBox) -> (r: Result<
        Self,
        Mp4BoxError,
    >)
        ensures
            r is Ok ==> {
                let b = r->Ok_0;
                let p = *old(pos);
                &&& p + 108 <= data@.len()
                &&& *final(pos) == p + 108
                &&& b.full_box == full_box
                &&& b.creation_time == be_at(data@, p as int, 8)
                &&& b.modification_time == be_at(data@, p + 8, 8)
                &&& b.timescale == be_at(data@, p + 16, 4)
                &&& b.duration == be_at(data@, p + 20, 8)
            },
            r is Err ==> *old(pos) + 108 > data@.len(),
    {
        if data.len() < 108 || *pos > data.len() - 108 {
            return Err(Mp4BoxError::UnexpectedEos);
        }
        let creation_time = read_u64(data, pos)?;
        let modification_time = read_u64(data, pos)?;
        let timescale = read_u32(data, pos)?;
        let duration = read_u64(data, pos)?;
        skip_bytes(data, pos, 80)?;
        Ok(MovieHeaderBox { full_box, creation_time, modification_time, timescale, duration })
    }

    /// Emits the box, always as version 1.
    pub fn write(&self, out: &mut Vec<u8>)
        ensures
            final(out)@ == old(out)@ + self.spec_bytes(),
    {
        write_full_header(out, MVHD, 1, 0, 108);
        push_u64(out, self.creation_time);
        push_u64(out, self.modification_time);
        push_u32(out, self.timescale);
        push_u64(out, self.duration);
        push_u32(out, 0x0001_0000);
        push_u16(out, 0x0100);
        push_zeros(out, 10);
        push_identity_matrix(out);
        push_zeros(out, 24);
        push_u32(out, 1);
        assert(final(out)@ =~= old(out)@ + self.spec_bytes());
    }

    pub fn total_size(&self) -> (r: u64)
        ensures
            r == self.spec_bytes().len(),
            r == 120,
    {
        proof {
            lemma_full_box_len(MVHD, 1, 0, self.spec_contents());
        }
        self.full_box.size(108)
    }
}

/// Track header flag: the track is enabled.
pub const TRACK_ENABLED: u32 = 0x000001;
/// Track header flag: the track is used in the presentation.
pub const TRACK_IN_MOVIE: u32 = 0x000002;
/// Track header flag: the track is used in previews.
pub const TRACK_IN_PREVIEW: u32 = 0x000004;
/// Track header flag: width and height give an aspect ratio.
pub const TRACK_SIZE_IS_ASPECT_RATIO: u32 = 0x000008;

/// The track header box.
pub struct TrackHeaderBox {
    pub full_box: FullBox,
    pub creation_time: u64,
    pub modification_time: u64,
    pub track_id: u32,
    pub duration: u64,
    pub width: I16F16,
    pub height: I16F16,
}

impl TrackHeaderBox {
    pub open spec fn spec_contents(&self) -> Seq<u8> {
        u64_bytes(self.creation_time) + u64_bytes(self.modification_time) + u32_bytes(
            self.track_id,
        ) + zeros(4) + u64_bytes(self.duration) + zeros(16) + identity_matrix() + u32_bytes(
            self.width.0,
        ) + u32_bytes(self.height.0)
    }

    pub open spec fn spec_bytes(&self) -> Seq<u8> {
        full_box_bytes(TKHD, 1, self.full_box.flags, self.spec_contents())
    }

    pub fn new(flags: u32, track_id: u32, duration: u64, width: I16F16, height: I16F16) -> (r:
        Self)
        ensures
            r.full_box.flags == flags,
            r.full_box.version == 1,
            r.track_id == track_id,
            r.duration == duration,
            r.width == width,
            r.height == height,
    {
        TrackHeaderBox {
            full_box: FullBox::new(TKHD, 1, flags),
            creation_time: 0,
            modification_time: 0,
            track_id,
            duration,
            width,
            height,
        }
    }

    /// Reads a `tkhd` box of version 0 or 1 at `*pos`.
    pub fn read(data: &[u8], pos: &mut usize) -> (r: Result<Self, Mp4BoxError>)
        requires
            *old(pos) <= data@.len(),
        ensures
            r is Ok <==> versioned_ok(data@, *old(pos) as int, TKHD, 80, 92),
            r is Ok ==> tkhd_fields(data@, *old(pos) as int, r->Ok_0),
    {
        let full_box = FullBox::read_named(data, pos, TKHD)?;
        let p = *pos;
        if full_box.version == 0 {
            if data.len() < 80 || p > data.len() - 80 {
                return Err(Mp4BoxError::UnexpectedEos);
            }
            let creation_time = read_u32(data, pos)?;
            let modification_time = read_u32(data, pos)?;
            let track_id = read_u32(data, pos)?;
            skip_bytes(data, pos, 4)?;
            let duration = read_u32(data, pos)?;
            skip_bytes(data, pos, 52)?;
            let width = read_u32(data, pos)?;
            let height = read_u32(data, pos)?;
            Ok(TrackHeaderBox {
                full_box,
                creation_time: creation_time as u64,
                modification_time: modification_time as u64,
                track_id,
                duration: duration as u64,
                width: I16F16(width),
                height: I16F16(height),
            })
        } else if full_box.version == 1 {
            if data.len() < 92 || p > data.len() - 92 {
                return Err(Mp4BoxError::UnexpectedEos);
            }
            let creation_time = read_u64(data, pos)?;
            let modification_time = read_u64(data, pos)?;
            let track_id = read_u32(data, pos)?;
            skip_bytes(data, pos, 4)?;
            let duration = read_u64(data, pos)?;
            skip_bytes(data, pos, 52)?;
            let width = read_u32(data, pos)?;
            let height = read_u32(data, pos)?;
            Ok(TrackHeaderBox {
                full_box,
                creation_time,
                modification_time,
                track_id,
                duration,
                width: I16F16(width),
                height: I16F16(height),
            })
        } else {
            Err(Mp4BoxError::UnsupportedVersion(BoxPrint(TKHD), full_box.version))
        }
    }

    /// Emits the box, always as version 1.
    pub fn write(&self, out: &mut Vec<u8>)
        ensures
            final(out)@ == old(out)@ + self.spec_bytes(),
    {
        write_full_header(out, TKHD, 1, self.full_box.flags, 92);
        push_u64(out, self.creation_time);
        push_u64(out, self.modification_time);
        push_u32(out, self.track_id);
        push_zeros(out, 4);
        push_u64(out, self.duration);
        push_zeros(out, 16);
        push_identity_matrix(out);
        push_u32(out, self.width.0);
        push_u32(out, self.height.0);
        assert(final(out)@ =~= old(out)@ + self.spec_bytes());
    }

    pub fn total_size(&self) -> (r: u64)
        ensures
            r == self.spec_bytes().len(),
            r == 104,
    {
        proof {
            lemma_full_box_len(TKHD, 1, self.full_box.flags, self.spec_contents());
        }
        self.full_box.size(92)
    }
}

/// The media header box.
pub struct MediaHeaderBox {
    pub full_box: FullBox,
    pub creation_time: u64,
    pub modification_time: u64,
    pub timescale: u32,
    pub duration: u64,
}

impl MediaHeaderBox {
    pub open spec fn spec_contents(&self) -> Seq<u8> {
        u64_bytes(self.creation_time) + u64_bytes(self.modification_time) + u32_bytes(
            self.timescale,
        ) + u64_bytes(self.duration) + zeros(4)
    }

    pub open spec fn spec_bytes(&self) -> Seq<u8> {
        full_box_bytes(MDHD, 1, 0, self.spec_contents())
    }

    pub fn new(timescale: u32, duration: u64) -> (r: Self)
        ensures
            r.timescale == timescale,
            r.duration == duration,
            r.creation_time == 0,
            r.modification_time == 0,
    {
        MediaHeaderBox {
            full_box: FullBox::new(MDHD, 1, 0),
            creation_time: 0,
            modification_time: 0,
            timescale,
            duration,
        }
    }

    /// Reads an `mdhd` box of version 0 or 1 at `*pos`.
    pub fn read(data: &[u8], pos: &mut usize) -> (r: Result<Self, Mp4BoxError>)
        requires
            *old(pos) <= data@.len(),
        ensures
            r is Ok <==> versioned_ok(data@, *old(pos) as int, MDHD, 20, 32),
            r is Ok ==> mdhd_fields(data@, *old(pos) as int, r->Ok_0),
    {
        let full_box = FullBox::read_named(data, pos, MDHD)?;
        if full_box.version == 0 {
            MediaHeaderBox::read_v0(data, pos, full_box)
        } else if full_box.version == 1 {
            MediaHeaderBox::read_v1(data, pos, full_box)
        } else {
            Err(Mp4BoxError::UnsupportedVersion(BoxPrint(MDHD), full_box.version))
        }
    }

    /// Reads the 20 bytes of version 0 contents at `*pos`.
    pub fn read_v0(data: &[u8], pos: &mut usize, full_box: FullBox) -> (r: Result<
        Self,
        Mp4BoxError,
    >)
        ensures
            r is Ok ==> {
                let b = r->Ok_0;
                let p = *old(pos);
                &&& p + 20 <= data@.len()
                &&& *final(pos) == p + 20
                &&& b.full_box == full_box
                &&& b.creation_time == be_at(data@, p as int, 4)
                &&& b.modification_time == be_at(data@, p + 4, 4)
                &&& b.timescale == be_at(data@, p + 8, 4)
                &&& b.duration == be_at(data@, p + 12, 4)
            },
            r is Err ==> *old(pos) + 20 > data@.len(),
    {
        if data.len() < 20 || *pos > data.len() - 20 {
            return Err(Mp4BoxError::UnexpectedEos);
        }
        let creation_time = read_u32(data, pos)?;
        let modification_time = read_u32(data, pos)?;
        let timescale = read_u32(data, pos)?;
        let duration = read_u32(data, pos)?;
        skip_bytes(data, pos, 4)?;
        Ok(MediaHeaderBox {
            full_box,
            creation_time: creation_time as u64,
            modification_time: modification_time as u64,
            timescale,
            duration: duration as u64,
        })
    }

    /// Reads the 32 bytes of version 1 contents at `*pos`.
    pub fn read_v1(data: &[u8], pos: &mut usize, full_box: FullBox) -> (r: Result<
        Self,
        Mp4BoxError,
    >)
        ensures
            r is Ok ==> {
                let b = r->Ok_0;
                let p = *old(pos);
                &&& p + 32 <= data@.len()
                &&& *final(pos) == p + 32
                &&& b.full_box == full_box
                &&& b.creation_time == be_at(data@, p as int, 8)
                &&& b.modification_time == be_at(data@, p + 8, 8)
                &&& b.timescale == be_at(data@, p + 16, 4)
                &&& b.duration == be_at(data@, p + 20, 8)
            },
            r is Err ==> *old(pos) + 32 > data@.len(),
    {
        if data.len() < 32 || *pos > data.len() - 32 {
            return Err(Mp4BoxError::UnexpectedEos);
        }
        let creation_time = read_u64(data, pos)?;
        let modification_time = read_u64(data, pos)?;
        let timescale = read_u32(data, pos)?;
        let duration = read_u64(data, pos)?;
        skip_bytes(data, pos, 4)?;
        Ok(MediaHeaderBox { full_box, creation_time, modification_time, timescale, duration })
    }

    /// Emits the box, always as version 1.
    pub fn write(&self, out: &mut Vec<u8>)
        ensures
            final(out)@ == old(out)@ + self.spec_bytes(),
    {
        write_full_header(out, MDHD, 1, 0, 32);
        push_u64(out, self.creation_time);
        push_u64(out, self.modification_time);
        push_u32(out, self.timescale);
        push_u64(out, self.duration);
        push_zeros(out, 4);
        assert(final(out)@ =~= old(out)@ + self.spec_bytes());
    }

    pub fn total_size(&self) -> (r: u64)
        ensures
            r == self.spec_bytes().len(),
            r == 44,
    {
        proof {
            lemma_full_box_len(MDHD, 1, 0, self.spec_contents());
        }
        self.full_box.size(32)
    }
}

/// Whether the bytes are well-formed UTF-8.
pub uninterp spec fn is_utf8(b: Seq<u8>) -> bool;

/// Relies on `std::str::from_utf8`: it succeeds exactly on well-formed UTF-8.
#[verifier::external_body]
fn check_utf8(b: &[u8]) -> (r: bool)
    ensures
        r == is_utf8(b@),
{
    std::str::from_utf8(b).is_ok()
}

/// The position of the first zero byte of `d` in `[i, end)`, or `end`.
pub open spec fn first_zero(d: Seq<u8>, i: int, end: int) -> int
    decreases end - i,
{
    if i >= end {
        end
    } else if d[i] == 0 {
        i
    } else {
        first_zero(d, i + 1, end)
    }
}

/// An `hdlr` box can be read at `pos`: its full-box header, its 20 bytes of
/// fields within the box, the box within `d`, and a UTF-8 name.
pub open spec fn hdlr_ok(d: Seq<u8>, pos: int) -> bool {
    let end = pos + header_result(rest(d, pos))->Ok_0.1;
    let c = full_content_start(d, pos);
    &&& full_header_ok(d, pos, HDLR)
    &&& end <= d.len()
    &&& c + 20 <= end
    &&& is_utf8(d.subrange(c + 20, first_zero(d, c + 20, end)))
}

/// The handler reference box: the handler type and a name.
pub struct HandlerBox {
    pub full_box: FullBox,
    pub handler_type: u32,
    /// The UTF-8 bytes of the name, without the terminating zero.
    pub name: Vec<u8>,
}

impl HandlerBox {
    pub open spec fn wf(&self) -> bool {
        self.name@.len() <= u32::MAX
    }

    pub open spec fn spec_contents(&self) -> Seq<u8> {
        u32_bytes(0) + u32_bytes(self.handler_type) + zeros(12) + self.name@ + seq![0u8]
    }

    pub open spec fn spec_bytes(&self) -> Seq<u8> {
        full_box_bytes(HDLR, 0, 0, self.spec_contents())
    }

    pub fn new(handler_type: u32, name: Vec<u8>) -> (r: Self)
        ensures
            r.handler_type == handler_type,
            r.name == name,
    {
        HandlerBox { full_box: FullBox::new(HDLR, 0, 0), handler_type, name }
    }

    /// Reads an `hdlr` box at `*pos`: the name runs to the first zero byte,
    /// or to the end of the box, and must be UTF-8.
    pub fn read(data: &[u8], pos: &mut usize) -> (r: Result<Self, Mp4BoxError>)
        requires
            *old(pos) <= data@.len(),
        ensures
            r is Ok ==> hdlr_fields(data@, *old(pos) as int, r->Ok_0),
            r is Ok <==> hdlr_ok(data@, *old(pos) as int),
    {
        let start = *pos;
        let full_box = FullBox::read_named(data, pos, HDLR)?;
        let size = full_box.boks.size;
        if size > (data.len() - start) as u64 {
            return Err(Mp4BoxError::UnexpectedEos);
        }
        let end = start + size as usize;
        let p = *pos;
        skip_bytes(data, pos, 4)?;
        let handler_type = read_u32(data, pos)?;
        skip_bytes(data, pos, 12)?;
        if *pos > end {
            return Err(Mp4BoxError::UnexpectedEos);
        }
        let n0 = *pos;
        let mut q = n0;
        while q < end && data[q] != 0
            invariant
                n0 <= q <= end <= data@.len(),
                forall|i: int| n0 <= i < q ==> #[trigger] data@[i] != 0,
                first_zero(data@, n0 as int, end as int) == first_zero(data@, q as int, end as int),
            decreases end - q,
        {
            q = q + 1;
        }
        assert(first_zero(data@, n0 as int, end as int) == q);
        let name = read_bytes(data, pos, q - n0)?;
        if q < end {
            *pos = q + 1;
        }
        if !check_utf8(name.as_slice()) {
            return Err(Mp4BoxError::InvalidUtf8);
        }
        Ok(HandlerBox { full_box, handler_type, name })
    }

    /// Emits the box.
    pub fn write(&self, out: &mut Vec<u8>)
        requires
            self.wf(),
        ensures
            final(out)@ == old(out)@ + self.spec_bytes(),
    {
        write_full_header(out, HDLR, 0, 0, 21 + self.name.len() as u64);
        push_u32(out, 0);
        push_u32(out, self.handler_type);
        push_zeros(out, 12);
        push_bytes(out, self.name.as_slice());
        out.push(0u8);
        assert(final(out)@ =~= old(out)@ + self.spec_bytes());
    }

    pub fn total_size(&self) -> (r: u64)
        requires
            self.wf(),
        ensures
            r == self.spec_bytes().len(),
            r == total_with_header(25 + self.name@.len()),
    {
        proof {
            lemma_full_box_len(HDLR, 0, 0, self.spec_contents());
        }
        self.full_box.size(21 + self.name.len() as u64)
    }
}

/// The video media header box.
pub struct VideoMediaHeaderBox {
    pub full_box: FullBox,
}

impl VideoMediaHeaderBox {
    /// A version 0 box with flags 1, its graphics mode and colour all zero.
    pub open spec fn spec_bytes(&self) -> Seq<u8> {
        full_box_bytes(VMHD, 0, 1, zeros(8))
    }

    pub fn new() -> (r: Self)
        ensures
            r.full_box.flags == 1,
    {
        VideoMediaHeaderBox { full_box: FullBox::new(VMHD, 0, 1) }
    }

    pub fn write(&self, out: &mut Vec<u8>)
        ensures
            final(out)@ == old(out)@ + self.spec_bytes(),
    {
        write_full_header(out, VMHD, 0, 1, 8);
        push_zeros(out, 8);
        assert(final(out)@ =~= old(out)@ + self.spec_bytes());
    }

    pub fn total_size(&self) -> (r: u64)
        ensures
            r == self.spec_bytes().len(),
            r == 20,
    {
        proof {
            lemma_full_box_len(VMHD, 0, 1, zeros(8));
        }
        self.full_box.size(8)
    }
}

/// The sound media header box.
pub struct SoundMediaHeaderBox {
    pub full_box: FullBox,
}

impl SoundMediaHeaderBox {
    /// A version 0 box with a zero balance.
    pub open spec fn spec_bytes(&self) -> Seq<u8> {
        full_box_bytes(SMHD, 0, 0, zeros(4))
    }

    pub fn new() -> (r: Self) {
        SoundMediaHeaderBox { full_box: FullBox::new(SMHD, 0, 0) }
    }

    pub fn write(&self, out: &mut Vec<u8>)
        ensures
            final(out)@ == old(out)@ + self.spec_bytes(),
    {
        write_full_header(out, SMHD, 0, 0, 4);
        push_zeros(out, 4);
        assert(final(out)@ =~= old(out)@ + self.spec_bytes());
    }

    pub fn total_size(&self) -> (r: u64)
        ensures
            r == self.spec_bytes().len(),
            r == 16,
    {
        proof {
            lemma_full_box_len(SMHD, 0, 0, zeros(4));
        }
        self.full_box.size(4)
    }
}

/// A data entry URL box; with flags 1 the media data is in the same file.
pub struct DataEntryUrlBox {
    pub full_box: FullBox,
    /// The bytes of the location, without the terminating zero.
    pub location: Vec<u8>,
}

pub open spec fn url_bytes(e: DataEntryUrlBox) -> Seq<u8> {
    full_box_bytes(URL, 0, 1, e.location@ + seq![0u8])
}

impl DataEntryUrlBox {
    pub open spec fn wf(&self) -> bool {
        self.location@.len() <= u32::MAX
    }

    pub open spec fn spec_bytes(&self) -> Seq<u8> {
        url_bytes(*self)
    }

    pub fn new(location: Vec<u8>) -> (r: Self)
        ensures
            r.location == location,
            r.full_box.flags == 1,
    {
        DataEntryUrlBox { full_box: FullBox::new(URL, 0, 1), location }
    }

    pub fn write(&self, out: &mut Vec<u8>)
        requires
            self.wf(),
        ensures
            final(out)@ == old(out)@ + self.spec_bytes(),
    {
        write_full_header(out, URL, 0, 1, self.location.len() as u64 + 1);
        push_bytes(out, self.location.as_slice());
        out.push(0u8);
        assert(final(out)@ =~= old(out)@ + self.spec_bytes());
    }

    pub fn total_size(&self) -> (r: u64)
        requires
            self.wf(),
        ensures
            r == self.spec_bytes().len(),
            r <= 0x1_0000_0014,
    {
        proof {
            lemma_full_box_len(URL, 0, 1, self.location@ + seq![0u8]);
        }
        self.full_box.size(self.location.len() as u64 + 1)
    }
}

/// The data reference box: a count and the entries.
pub struct DataReferenceBox {
    pub full_box: FullBox,
    pub entries: Vec<DataEntryUrlBox>,
}

impl DataReferenceBox {
    pub open spec fn wf(&self) -> bool {
        &&& self.entries@.len() <= u16::MAX
        &&& forall|i: int| 0 <= i < self.entries@.len() ==> #[trigger] self.entries@[i].wf()
    }

    pub open spec fn spec_contents(&self) -> Seq<u8> {
        u32_bytes(self.entries@.len() as u32) + concat_map(
            self.entries@,
            |e: DataEntryUrlBox| url_bytes(e),
        )
    }

    pub open spec fn spec_bytes(&self) -> Seq<u8> {
        full_box_bytes(DREF, 0, 0, self.spec_contents())
    }

    pub fn new(entries: Vec<DataEntryUrlBox>) -> (r: Self)
        ensures
            r.entries == entries,
    {
        DataReferenceBox { full_box: FullBox::new(DREF, 0, 0), entries }
    }

    fn content_size(&self) -> (r: u64)
        requires
            self.wf(),
        ensures
            r == self.spec_contents().len(),
            r <= 0x1_0000_0014 * 0x1_0000 + 4,
    {
        let mut size: u64 = 4;
        let mut i: usize = 0;
        while i < self.entries.len()
            invariant
                self.wf(),
                i <= self.entries@.len(),
                size == 4 + concat_map(
                    self.entries@.subrange(0, i as int),
                    |e: DataEntryUrlBox| url_bytes(e),
                ).len(),
                size <= 4 + i * 0x1_0000_0014,
            decreases self.entries@.len() - i,
        {
            let e = &self.entries[i];
            assert(self.entries@[i as int].wf());
            let t = e.total_size();
            proof {
                lemma_concat_map_push(
                    self.entries@.subrange(0, i as int),
                    self.entries@[i as int],
                    |e: DataEntryUrlBox| url_bytes(e),
                );
                assert(self.entries@.subrange(0, i + 1) =~= self.entries@.subrange(0, i as int).push(
                    self.entries@[i as int],
                ));
                assert((i + 1) * 0x1_0000_0014 == i * 0x1_0000_0014 + 0x1_0000_0014) by (nonlinear_arith);
                assert(i * 0x1_0000_0014 <= 0xFFFF * 0x1_0000_0014) by (nonlinear_arith)
                    requires
                        i < 0xFFFF,
                ;
            }
            size = size + t;
            i = i + 1;
        }
        assert(self.entries@.subrange(0, i as int) =~= self.entries@);
        proof {
            assert(i * 0x1_0000_0014 <= 0x1_0000 * 0x1_0000_0014) by (nonlinear_arith)
                requires
                    i <= 0xFFFF,
            ;
        }
        size
    }

    pub fn write(&self, out: &mut Vec<u8>)
        requires
            self.wf(),
        ensures
            final(out)@ == old(out)@ + self.spec_bytes(),
    {
        let content = self.content_size();
        write_full_header(out, DREF, 0, 0, content);
        push_u32(out, self.entries.len() as u32);
        let ghost mid = out@;
        let mut i: usize = 0;
        while i < self.entries.len()
            invariant
                self.wf(),
                i <= self.entries@.len(),
                out@ == mid + concat_map(
                    self.entries@.subrange(0, i as int),
                    |e: DataEntryUrlBox| url_bytes(e),
                ),
            decreases self.entries@.len() - i,
        {
            assert(self.entries@[i as int].wf());
            self.entries[i].write(out);
            proof {
                lemma_concat_map_push(
                    self.entries@.subrange(0, i as int),
                    self.entries@[i as int],
                    |e: DataEntryUrlBox| url_bytes(e),
                );
                assert(self.entries@.subrange(0, i + 1) =~= self.entries@.subrange(0, i as int).push(
                    self.entries@[i as int],
                ));
            }
            i = i + 1;
        }
        assert(self.entries@.subrange(0, i as int) =~= self.entries@);
        assert(final(out)@ =~= old(out)@ + self.spec_bytes());
    }

    pub fn total_size(&self) -> (r: u64)
        requires
            self.wf(),
        ensures
            r == self.spec_bytes().len(),
            r <= 0x1_0000_0014 * 0x1_0000 + 24,
    {
        let content = self.content_size();
        proof {
            lemma_full_box_len(DREF, 0, 0, self.spec_contents());
        }
        self.full_box.size(content)
    }
}

/// The data information box, holding the data reference box.
pub struct DataInformationBox {
    pub dref: DataReferenceBox,
}

impl DataInformationBox {
    pub open spec fn wf(&self) -> bool {
        self.dref.wf()
    }

    pub open spec fn spec_bytes(&self) -> Seq<u8> {
        plain_box_bytes(DINF, self.dref.spec_bytes())
    }

    pub fn new(dref: DataReferenceBox) -> (r: Self)
        ensures
            r.dref == dref,
    {
        DataInformationBox { dref }
    }

    pub fn write(&self, out: &mut Vec<u8>)
        requires
            self.wf(),
        ensures
            final(out)@ == old(out)@ + self.spec_bytes(),
    {
        let content = self.dref.total_size();
        write_header(out, DINF, content);
        self.dref.write(out);
        assert(final(out)@ =~= old(out)@ + self.spec_bytes());
    }

    pub fn total_size(&self) -> (r: u64)
        requires
            self.wf(),
        ensures
            r == self.spec_bytes().len(),
            r <= 0x1_0000_0014 * 0x1_0000 + 40,
    {
        let content = self.dref.total_size();
        proof {
            lemma_plain_box_len(DINF, self.dref.spec_bytes());
        }
        Boks::new(DINF).size(content)
    }
}

/// The movie extends header box: the duration of a fragmented movie.
pub struct MovieExtendsHeaderBox {
    pub full_box: FullBox,
    pub fragment_duration: u64,
}

impl MovieExtendsHeaderBox {
    pub open spec fn spec_bytes(&self) -> Seq<u8> {
        full_box_bytes(MEHD, 1, 0, u64_bytes(self.fragment_duration))
    }

    pub fn new(fragment_duration: u64) -> (r: Self)
        ensures
            r.fragment_duration == fragment_duration,
    {
        MovieExtendsHeaderBox { full_box: FullBox::new(MEHD, 1, 0), fragment_duration }
    }

    /// Reads an `mehd` box of version 0 (32-bit duration) or 1 (64-bit) at `*pos`.
    pub fn read(data: &[u8], pos: &mut usize) -> (r: Result<Self, Mp4BoxError>)
        requires
            *old(pos) <= data@.len(),
        ensures
            r is Ok ==> mehd_fields(data@, *old(pos) as int, r->Ok_0),
            r is Ok <==> versioned_ok(data@, *old(pos) as int, MEHD, 4, 8),
    {
        let full_box = FullBox::read_named(data, pos, MEHD)?;
        let fragment_duration = if full_box.version == 0 {
            read_u32(data, pos)? as u64
        } else if full_box.version == 1 {
            read_u64(data, pos)?
        } else {
            return Err(Mp4BoxError::UnsupportedVersion(BoxPrint(MEHD), full_box.version));
        };
        Ok(MovieExtendsHeaderBox { full_box, fragment_duration })
    }

    pub fn write(&self, out: &mut Vec<u8>)
        ensures
            final(out)@ == old(out)@ + self.spec_bytes(),
    {
        write_full_header(out, MEHD, 1, 0, 8);
        push_u64(out, self.fragment_duration);
        assert(final(out)@ =~= old(out)@ + self.spec_bytes());
    }

    pub fn total_size(&self) -> (r: u64)
        ensures
            r == self.spec_bytes().len(),
            r == 20,
    {
        proof {
            lemma_full_box_len(MEHD, 1, 0, u64_bytes(self.fragment_duration));
        }
        self.full_box.size(8)
    }
}

/// The track extends box: a track's defaults for movie fragments.
pub struct TrackExtendsBox {
    pub full_box: FullBox,
    pub track_id: u32,
    pub default_sample_description_index: u32,
    pub default_sample_duration: u32,
    pub default_sample_size: u32,
    pub default_sample_flags: u32,
}

impl TrackExtendsBox {
    pub open spec fn spec_contents(&self) -> Seq<u8> {
        u32_bytes(self.track_id) + u32_bytes(self.default_sample_description_index) + u32_bytes(
            self.default_sample_duration,
        ) + u32_bytes(self.default_sample_size) + u32_bytes(self.default_sample_flags)
    }

    pub open spec fn spec_bytes(&self) -> Seq<u8> {
        full_box_bytes(TREX, 0, 0, self.spec_contents())
    }

    pub fn new(
        track_id: u32,
        default_sample_description_index: u32,
        default_sample_duration: u32,
        default_sample_size: u32,
        default_sample_flags: u32,
    ) -> (r: Self)
        ensures
            r.track_id == track_id,
            r.default_sample_description_index == default_sample_description_index,
            r.default_sample_duration == default_sample_duration,
            r.default_sample_size == default_sample_size,
            r.default_sample_flags == default_sample_flags,
    {
        TrackExtendsBox {
            full_box: FullBox::new(TREX, 0, 0),
            track_id,
            default_sample_description_index,
            default_sample_duration,
            default_sample_size,
            default_sample_flags,
        }
    }

    /// Reads a `trex` box at `*pos`.
    pub fn read(data: &[u8], pos: &mut usize) -> (r: Result<Self, Mp4BoxError>)
        requires
            *old(pos) <= data@.len(),
        ensures
            r is Ok ==> trex_fields(data@, *old(pos) as int, r->Ok_0),
            r is Ok <==> (full_header_ok(data@, *old(pos) as int, TREX) && full_content_start(data@, *old(pos) as int) + 20 <= data@.len()),
    {
        let full_box = FullBox::read_named(data, pos, TREX)?;
        let track_id = read_u32(data, pos)?;
        let default_sample_description_index = read_u32(data, pos)?;
        let default_sample_duration = read_u32(data, pos)?;
        let default_sample_size = read_u32(data, pos)?;
        let default_sample_flags = read_u32(data, pos)?;
        Ok(TrackExtendsBox {
            full_box,
            track_id,
            default_sample_description_index,
            default_sample_duration,
            default_sample_size,
            default_sample_flags,
        })
    }

    pub fn write(&self, out: &mut Vec<u8>)
        ensures
            final(out)@ == old(out)@ + self.spec_bytes(),
    {
        write_full_header(out, TREX, 0, 0, 20);
        push_u32(out, self.track_id);
        push_u32(out, self.default_sample_description_index);
        push_u32(out, self.default_sample_duration);
        push_u32(out, self.default_sample_size);
        push_u32(out, self.default_sample_flags);
        assert(final(out)@ =~= old(out)@ + self.spec_bytes());
    }

    pub fn total_size(&self) -> (r: u64)
        ensures
            r == self.spec_bytes().len(),
            r == 32,
    {
        proof {
            lemma_full_box_len(TREX, 0, 0, self.spec_contents());
        }
        self.full_box.size(20)
    }
}

/// The movie extends box.
pub struct MovieExtendsBox {
    pub mehd: MovieExtendsHeaderBox,
    pub trex: TrackExtendsBox,
}

/// A child of a movie extends box reads, where it is of a kind that is read.
pub open spec fn mvex_child_ok(d: Seq<u8>, ch: Child) -> bool {
    let dc = child_data(d, ch);
    if ch.0 == MEHD {
        versioned_ok(dc, ch.1, MEHD, 4, 8)
    } else if ch.0 == TREX {
        full_header_ok(dc, ch.1, TREX) && full_content_start(dc, ch.1) + 20 <= dc.len()
    } else {
        true
    }
}

pub open spec fn mvex_all_ok(d: Seq<u8>, cs: Seq<Child>) -> bool {
    forall|i: int| 0 <= i < cs.len() ==> #[trigger] mvex_child_ok(d, cs[i])
}

/// The error for the first required child of a movie extends box that is missing, if any.
pub open spec fn mvex_missing(cs: Seq<Child>) -> Option<Mp4BoxError> {
    if last_named(cs, MEHD) < 0 {
        Some(Mp4BoxError::RequiredBoxNotFound(BoxPrint(MEHD)))
    } else if last_named(cs, TREX) < 0 {
        Some(Mp4BoxError::RequiredBoxNotFound(BoxPrint(TREX)))
    } else {
        None
    }
}

/// The fields of `b` are those read from the last child of each kind among `cs`.
pub open spec fn mvex_fields(d: Seq<u8>, cs: Seq<Child>, b: MovieExtendsBox) -> bool {
    &&& {
        let i = last_named(cs, MEHD);
        0 <= i < cs.len() && mehd_fields(child_data(d, cs[i]), cs[i].1, b.mehd)
    }
    &&& {
        let i = last_named(cs, TREX);
        0 <= i < cs.len() && trex_fields(child_data(d, cs[i]), cs[i].1, b.trex)
    }
}

/// A movie extends box can be read at `q`: its children fit, those of kinds that
/// are read read, and the required ones are there.
pub open spec fn mvex_ok(d: Seq<u8>, q: int) -> bool {
    &&& frame_ok(d, q, MVEX)
    &&& box_children(d, q) is Some
    &&& mvex_all_ok(d, box_children(d, q)->Some_0)
    &&& mvex_missing(box_children(d, q)->Some_0) is None
}

/// `b` is a movie extends box read at `q`.
pub open spec fn mvex_parsed(d: Seq<u8>, q: int, b: MovieExtendsBox) -> bool {
    box_children(d, q) is Some && mvex_fields(d, box_children(d, q)->Some_0, b)
}

proof fn lemma_mvex_child_fails(d: Seq<u8>, done: Seq<Child>, ch: Child, o: Option<Seq<Child>>)
    requires
        !mvex_child_ok(d, ch),
    ensures
        match after(done.push(ch), o) {
            Some(full) => !mvex_all_ok(d, full),
            None => true,
        },
{
    match o {
        Some(t) => {
            let full = done.push(ch) + t;
            assert(full[done.len() as int] == ch);
        },
        None => {},
    }
}

impl MovieExtendsBox {
    pub open spec fn spec_bytes(&self) -> Seq<u8> {
        plain_box_bytes(MVEX, self.mehd.spec_bytes() + self.trex.spec_bytes())
    }

    pub fn new(mehd: MovieExtendsHeaderBox, trex: TrackExtendsBox) -> (r: Self)
        ensures
            r.mehd == mehd,
            r.trex == trex,
    {
        MovieExtendsBox { mehd, trex }
    }

    /// Reads an `mvex` box at `*pos`; its `mehd` and `trex` are required.
    #[verifier::rlimit(100)]
    pub fn read(data: &[u8], pos: &mut usize) -> (r: Result<Self, Mp4BoxError>)
        requires
            *old(pos) <= data@.len(),
        ensures
            r is Ok <==> mvex_ok(data@, *old(pos) as int),
            r is Ok ==> mvex_parsed(data@, *old(pos) as int, r->Ok_0),
            r is Ok ==> {
                &&& header_result(rest(data@, *old(pos) as int)) is Ok
                &&& header_result(rest(data@, *old(pos) as int))->Ok_0.0 == MVEX
                &&& *final(pos) == *old(pos) + header_result(rest(data@, *old(pos) as int))->Ok_0.1
            },
            frame_ok(data@, *old(pos) as int, MVEX) && box_children(data@, *old(pos) as int) is Some
                && mvex_all_ok(data@, box_children(data@, *old(pos) as int)->Some_0)
                && mvex_missing(box_children(data@, *old(pos) as int)->Some_0) is Some ==> r
                == Err::<Self, _>(mvex_missing(box_children(data@, *old(pos) as int)->Some_0)->Some_0),
    {
        let start = *pos;
        let boks = Boks::read_named(data, pos, MVEX)?;
        if boks.size > (data.len() - start) as u64 {
            return Err(Mp4BoxError::UnexpectedEos);
        }
        let end = start + boks.size as usize;
        let region = &data[0..end];
        let mut mehd: Option<MovieExtendsHeaderBox> = None;
        let mut trex: Option<TrackExtendsBox> = None;
        let ghost done: Seq<Child> = Seq::empty();
        let ghost c0 = *pos as int;
        assert(after(done, children(data@, c0, end as int)) =~= children(data@, c0, end as int));
        assert(box_children(data@, start as int) == children(data@, c0, end as int));
        while *pos < end
            invariant
                region@ == data@.subrange(0, end as int),
                end <= data@.len(),
                start == *old(pos),
                end == start + boks.size,
                frame_ok(data@, start as int, MVEX),
                box_children(data@, start as int) == children(data@, c0, end as int),
                c0 <= *pos <= end,
                after(done, children(data@, *pos as int, end as int)) == children(data@, c0, end as int),
                mvex_all_ok(data@, done),
                (mehd is Some) == (last_named(done, MEHD) >= 0),
                mehd is Some ==> mehd_fields(child_data(data@, done[last_named(done, MEHD)]), done[last_named(done, MEHD)].1, mehd->Some_0),
                (trex is Some) == (last_named(done, TREX) >= 0),
                trex is Some ==> trex_fields(child_data(data@, done[last_named(done, TREX)]), done[last_named(done, TREX)].1, trex->Some_0),
            decreases end - *pos,
        {
            let child_start = *pos;
            let h = match Boks::peek(region, child_start) {
                Ok(h) => h,
                Err(e) => {
                    assert(children(data@, child_start as int, end as int) is None);
                    return Err(e);
                },
            };
            if h.size > (end - child_start) as u64 {
                assert(children(data@, child_start as int, end as int) is None);
                return Err(Mp4BoxError::UnexpectedEos);
            }
            let child_end = child_start + h.size as usize;
            let ghost ch: Child = (h.name, child_start as int, child_end as int);
            let ghost nd = done.push(ch);
            proof {
                lemma_children_step(data@, child_start as int, end as int, done);
                lemma_last_named_push(done, ch, MEHD);
                lemma_last_named_push(done, ch, TREX);
                assert(forall|i: int| 0 <= i < done.len() ==> nd[i] == done[i]);
                assert(nd[done.len() as int] == ch);
            }
            let child = &data[0..child_end];
            assert(child@ == child_data(data@, ch));
            let mut p = child_start;
            let ok = if h.name == MEHD {
                match MovieExtendsHeaderBox::read(child, &mut p) {
                    Ok(b) => {
                        mehd = Some(b);
                        true
                    },
                    Err(_) => false,
                }
            } else if h.name == TREX {
                match TrackExtendsBox::read(child, &mut p) {
                    Ok(b) => {
                        trex = Some(b);
                        true
                    },
                    Err(_) => false,
                }
            } else {
                true
            };
            if !ok {
                proof {
                    lemma_mvex_child_fails(data@, done, ch, children(data@, child_end as int, end as int));
                }
                return Err(Mp4BoxError::UnexpectedEos);
            }
            proof {
                assert(mvex_child_ok(data@, ch));
                assert forall|i: int| 0 <= i < nd.len() implies #[trigger] mvex_child_ok(data@, nd[i]) by {
                    if i < done.len() {
                        assert(nd[i] == done[i]);
                    }
                }
                done = nd;
            }
            *pos = child_end;
        }
        assert(children(data@, end as int, end as int) == Some(Seq::<Child>::empty()));
        assert(done + Seq::<Child>::empty() =~= done);
        proof {
            lemma_last_named_bound(done, MEHD);
            lemma_last_named_bound(done, TREX);
        }
        let mehd = match mehd {
            Some(b) => b,
            None => {
                return Err(Mp4BoxError::RequiredBoxNotFound(BoxPrint(MEHD)));
            },
        };
        let trex = match trex {
            Some(b) => b,
            None => {
                return Err(Mp4BoxError::RequiredBoxNotFound(BoxPrint(TREX)));
            },
        };
        let b = MovieExtendsBox { mehd, trex };
        assert(box_children(data@, start as int) == Some(done));
        Ok(b)
    }

    pub fn write(&self, out: &mut Vec<u8>)
        ensures
            final(out)@ == old(out)@ + self.spec_bytes(),
    {
        let content = self.mehd.total_size() + self.trex.total_size();
        write_header(out, MVEX, content);
        self.mehd.write(out);
        self.trex.write(out);
        assert(final(out)@ =~= old(out)@ + self.spec_bytes());
    }

    pub fn total_size(&self) -> (r: u64)
        ensures
            r == self.spec_bytes().len(),
            r == 60,
    {
        let content = self.mehd.total_size() + self.trex.total_size();
        proof {
            lemma_plain_box_len(MVEX, self.mehd.spec_bytes() + self.trex.spec_bytes());
        }
        Boks::new(MVEX).size(content)
    }
}

} // verus!

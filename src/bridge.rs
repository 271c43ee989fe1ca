//! The codec bridge: between sample entries and the per-stream codec
//! parameters of a host (codec identifier, picture size, pixel format,
//! colour description and extradata).
use vstd::prelude::*;

use crate::codec::{
    AvcSampleEntryBox, VpCodecConfigurationBox, VpCodecConfigurationRecord, Vp9SampleEntryBox,
};
use crate::error::Mp4MuxerError;
use crate::stsd::SampleEntry;

verus! {

/// The pixel formats that VP9 tracks map to.
#[derive(Debug, Clone, Copy, PartialEq, Eq, Structural)]
pub enum PixelFormat {
    Yuv420,
    Yuv420P10,
    Yuv422,
    Yuv422P10,
    Yuv444,
    Yuv444P10,
}

/// A pixel format with its colour description.
#[derive(Debug, Clone, Copy, PartialEq, Eq, Structural)]
pub struct VideoFormat {
    pub pixel_format: PixelFormat,
    pub colour_primaries: u8,
    pub transfer_characteristics: u8,
    pub matrix_coefficients: u8,
}

/// The picture of a video stream.
#[derive(Debug, Clone, Copy, PartialEq, Eq, Structural)]
pub struct VideoInfo {
    pub width: usize,
    pub height: usize,
    pub format: Option<VideoFormat>,
}

/// The codec parameters of a stream.
pub struct CodecParams {
    /// The codec identifier, as ASCII bytes (`vp9`, `h264`, `mpeg4`).
    pub codec_id: Option<Vec<u8>>,
    pub video: Option<VideoInfo>,
    pub extradata: Option<Vec<u8>>,
}

pub open spec fn vp9_id() -> Seq<u8> {
    seq![0x76u8, 0x70u8, 0x39u8]
}

pub open spec fn h264_id() -> Seq<u8> {
    seq![0x68u8, 0x32u8, 0x36u8, 0x34u8]
}

pub open spec fn mpeg4_id() -> Seq<u8> {
    seq![0x6Du8, 0x70u8, 0x65u8, 0x67u8, 0x34u8]
}

fn vp9_id_vec() -> (r: Vec<u8>)
    ensures
        r@ == vp9_id(),
{
    let r = vec![0x76u8, 0x70u8, 0x39u8];
    assert(r@ =~= vp9_id());
    r
}

/// The pixel format of a VP9 stream of the given profile, bit depth and
/// chroma subsampling, where there is one.
pub open spec fn vp9_pixel_format(profile: u8, bit_depth: u8, chroma: u8) -> Option<PixelFormat> {
    if profile == 0 && bit_depth == 8 && chroma == 0 {
        Some(PixelFormat::Yuv420)
    } else if profile == 2 && bit_depth == 10 && chroma == 0 {
        Some(PixelFormat::Yuv420P10)
    } else if profile == 1 && bit_depth == 8 && chroma == 0 {
        Some(PixelFormat::Yuv422)
    } else if profile == 3 && bit_depth == 10 && chroma == 0 {
        Some(PixelFormat::Yuv422P10)
    } else if profile == 1 && bit_depth == 8 && chroma == 2 {
        Some(PixelFormat::Yuv444)
    } else if profile == 3 && bit_depth == 10 && chroma == 2 {
        Some(PixelFormat::Yuv444P10)
    } else {
        None
    }
}

/// The extradata of a VP9 stream: (id, 1, value) for the profile (1), the
/// level (2), the bit depth (3) and the chroma subsampling (4).
pub open spec fn vp9_extradata(c: VpCodecConfigurationRecord) -> Seq<u8> {
    seq![1u8, 1u8, c.profile, 2u8, 1u8, c.level, 3u8, 1u8, c.bit_depth, 4u8, 1u8, c.chroma_subsampling]
}

/// `r` failed with `UnsupportedCodec` naming `id`.
pub open spec fn unsupported<T>(r: Result<T, Mp4MuxerError>, id: Seq<u8>) -> bool {
    match r {
        Err(Mp4MuxerError::UnsupportedCodec(v)) => v@ == id,
        _ => false,
    }
}

/// What a VP9 configuration gives a host.
pub struct VpxCodecData {
    pub format: VideoFormat,
    pub extradata: Vec<u8>,
}

/// The pixel format, colour description and extradata of a VP9 configuration;
/// `UnsupportedCodec` where its profile, bit depth and chroma subsampling
/// have no pixel format.
pub fn get_vpx_codec_data(vpcc: &VpCodecConfigurationBox) -> (r: Result<VpxCodecData, Mp4MuxerError>)
    ensures
        ({
            let c = vpcc.config;
            match vp9_pixel_format(c.profile, c.bit_depth, c.chroma_subsampling) {
                None => unsupported(r, vp9_id()),
                Some(f) => r is Ok && r->Ok_0.format == VideoFormat {
                    pixel_format: f,
                    colour_primaries: c.colour_primaries,
                    transfer_characteristics: c.transfer_characteristics,
                    matrix_coefficients: c.matrix_coefficients,
                } && r->Ok_0.extradata@ == vp9_extradata(c),
            }
        }),
{
    let c = vpcc.config;
    let p = c.profile;
    let b = c.bit_depth;
    let s = c.chroma_subsampling;
    let pixel_format = if p == 0 && b == 8 && s == 0 {
        PixelFormat::Yuv420
    } else if p == 2 && b == 10 && s == 0 {
        PixelFormat::Yuv420P10
    } else if p == 1 && b == 8 && s == 0 {
        PixelFormat::Yuv422
    } else if p == 3 && b == 10 && s == 0 {
        PixelFormat::Yuv422P10
    } else if p == 1 && b == 8 && s == 2 {
        PixelFormat::Yuv444
    } else if p == 3 && b == 10 && s == 2 {
        PixelFormat::Yuv444P10
    } else {
        return Err(Mp4MuxerError::UnsupportedCodec(vp9_id_vec()));
    };
    let extradata = vec![1u8, 1u8, p, 2u8, 1u8, c.level, 3u8, 1u8, b, 4u8, 1u8, s];
    assert(extradata@ =~= vp9_extradata(c));
    Ok(VpxCodecData {
        format: VideoFormat {
            pixel_format,
            colour_primaries: c.colour_primaries,
            transfer_characteristics: c.transfer_characteristics,
            matrix_coefficients: c.matrix_coefficients,
        },
        extradata,
    })
}

/// The AVC extradata: the first sequence parameter set after the start code
/// `00 00 01`, then the first picture parameter set after another, each
/// where there is one.
pub open spec fn avc_extradata(e: AvcSampleEntryBox) -> Seq<u8> {
    let c = e.avcc.config;
    (if c.sequence_parameter_sets@.len() > 0 {
        seq![0u8, 0u8, 1u8] + c.sequence_parameter_sets@[0].0@
    } else {
        Seq::empty()
    }) + (if c.picture_parameter_sets@.len() > 0 {
        seq![0u8, 0u8, 1u8] + c.picture_parameter_sets@[0].0@
    } else {
        Seq::empty()
    })
}

/// Builds the AVC extradata of a sample entry.
pub fn get_avc_extradata(e: &AvcSampleEntryBox) -> (r: Vec<u8>)
    ensures
        r@ == avc_extradata(*e),
{
    let c = &e.avcc.config;
    let mut r: Vec<u8> = Vec::new();
    if c.sequence_parameter_sets.len() > 0 {
        r.push(0u8);
        r.push(0u8);
        r.push(1u8);
        crate::bytes::push_bytes(&mut r, c.sequence_parameter_sets[0].0.as_slice());
    }
    let ghost mid = r@;
    if c.picture_parameter_sets.len() > 0 {
        r.push(0u8);
        r.push(0u8);
        r.push(1u8);
        crate::bytes::push_bytes(&mut r, c.picture_parameter_sets[0].0.as_slice());
    }
    assert(r@ =~= avc_extradata(*e));
    r
}

fn h264_id_vec() -> (r: Vec<u8>)
    ensures
        r@ == h264_id(),
{
    let r = vec![0x68u8, 0x32u8, 0x36u8, 0x34u8];
    assert(r@ =~= h264_id());
    r
}

fn mpeg4_id_vec() -> (r: Vec<u8>)
    ensures
        r@ == mpeg4_id(),
{
    let r = vec![0x6Du8, 0x70u8, 0x65u8, 0x67u8, 0x34u8];
    assert(r@ =~= mpeg4_id());
    r
}

/// Whether the codec parameters of a sample entry can be had: all but VP9
/// entries whose format has no pixel format.
pub open spec fn codec_params_ok(e: SampleEntry) -> bool {
    match e {
        SampleEntry::Vp9(b) => vp9_pixel_format(
            b.vpcc.config.profile,
            b.vpcc.config.bit_depth,
            b.vpcc.config.chroma_subsampling,
        ) is Some,
        _ => true,
    }
}

/// What `as_codec_params` gives for a sample entry.
pub open spec fn codec_params_of(e: SampleEntry, r: Result<CodecParams, Mp4MuxerError>) -> bool {
    match e {
        SampleEntry::Vp9(b) => {
            let c = b.vpcc.config;
            match vp9_pixel_format(c.profile, c.bit_depth, c.chroma_subsampling) {
                None => unsupported(r, vp9_id()),
                Some(f) => r is Ok && {
                    let p = r->Ok_0;
                    &&& p.codec_id is Some && p.codec_id->Some_0@ == vp9_id()
                    &&& p.video == Some(
                        VideoInfo {
                            width: b.visual_sample_entry.width as usize,
                            height: b.visual_sample_entry.height as usize,
                            format: Some(
                                VideoFormat {
                                    pixel_format: f,
                                    colour_primaries: c.colour_primaries,
                                    transfer_characteristics: c.transfer_characteristics,
                                    matrix_coefficients: c.matrix_coefficients,
                                },
                            ),
                        },
                    )
                    &&& p.extradata is Some && p.extradata->Some_0@ == vp9_extradata(c)
                },
            }
        },
        SampleEntry::Avc(b) => r is Ok && {
            let p = r->Ok_0;
            &&& p.codec_id is Some && p.codec_id->Some_0@ == h264_id()
            &&& p.video == Some(
                VideoInfo {
                    width: b.visual_sample_entry.width as usize,
                    height: b.visual_sample_entry.height as usize,
                    format: None,
                },
            )
            &&& p.extradata is Some && p.extradata->Some_0@ == avc_extradata(b)
        },
        SampleEntry::Mpeg4(b) => r is Ok && {
            let p = r->Ok_0;
            &&& p.codec_id is Some && p.codec_id->Some_0@ == mpeg4_id()
            &&& p.video == Some(
                VideoInfo {
                    width: b.visual_sample_entry.width as usize,
                    height: b.visual_sample_entry.height as usize,
                    format: None,
                },
            )
            &&& p.extradata is Some && p.extradata->Some_0@
                == b.esds.descriptor.decoder_description.decoder_specific@
        },
    }
}

impl SampleEntry {
    /// The codec parameters of the stream this entry describes: `vp9` with
    /// its pixel format, colours and feature extradata; `h264` with its
    /// parameter sets; `mpeg4` with its decoder specific information.
    pub fn as_codec_params(&self) -> (r: Result<CodecParams, Mp4MuxerError>)
        ensures
            codec_params_of(*self, r),
            r is Ok <==> codec_params_ok(*self),
    {
        match self {
            SampleEntry::Vp9(e) => {
                let data = get_vpx_codec_data(&e.vpcc)?;
                Ok(CodecParams {
                    codec_id: Some(vp9_id_vec()),
                    video: Some(
                        VideoInfo {
                            width: e.visual_sample_entry.width as usize,
                            height: e.visual_sample_entry.height as usize,
                            format: Some(data.format),
                        },
                    ),
                    extradata: Some(data.extradata),
                })
            },
            SampleEntry::Avc(e) => Ok(
                CodecParams {
                    codec_id: Some(h264_id_vec()),
                    video: Some(
                        VideoInfo {
                            width: e.visual_sample_entry.width as usize,
                            height: e.visual_sample_entry.height as usize,
                            format: None,
                        },
                    ),
                    extradata: Some(get_avc_extradata(e)),
                },
            ),
            SampleEntry::Mpeg4(e) => Ok(
                CodecParams {
                    codec_id: Some(mpeg4_id_vec()),
                    video: Some(
                        VideoInfo {
                            width: e.visual_sample_entry.width as usize,
                            height: e.visual_sample_entry.height as usize,
                            format: None,
                        },
                    ),
                    extradata: Some(e.esds.descriptor.decoder_description.decoder_specific.clone()),
                },
            ),
        }
    }
}

// ---------------------------------------------------------------------------
// From codec parameters back to a sample entry.

/// The value of feature `id` in VP9 extradata read from byte `i` on: the
/// last (id, 1, value) triplet; triplets of other ids or lengths are skipped
/// by their length.
pub open spec fn feature_from(d: Seq<u8>, i: nat, id: u8) -> Option<u8>
    decreases d.len() - i,
{
    if i + 2 >= d.len() {
        None
    } else {
        let next = i + d[i + 1int] + 2;
        let later = if next < d.len() {
            feature_from(d, next as nat, id)
        } else {
            None
        };
        if later is Some {
            later
        } else if d[i as int] == id && d[i + 1int] == 1 {
            Some(d[i + 2int])
        } else {
            None
        }
    }
}

/// The value of feature `id` in VP9 extradata.
pub fn find_feature(data: &[u8], id: u8) -> (r: Option<u8>)
    ensures
        r == feature_from(data@, 0, id),
{
    let d = Ghost(data@);
    let len = data.len();
    let mut found: Option<u8> = None;
    let mut i: usize = 0;
    while len >= 3 && i < len - 2
        invariant
            d@ == data@,
            len == data@.len(),
            i <= len,
            (match feature_from(d@, i as nat, id) {
                Some(v) => Some(v),
                None => found,
            }) == feature_from(d@, 0, id),
        decreases len - i,
    {
        let k = data[i];
        let n = data[i + 1];
        if k == id && n == 1 {
            found = Some(data[i + 2]);
        }
        if n as usize + 2 >= len - i {
            i = len;
        } else {
            i = i + n as usize + 2;
        }
    }
    found
}

/// The VP9 features that extradata carries.
#[derive(Debug, Clone, Copy, PartialEq, Eq, Structural)]
pub struct VpxFeatures {
    pub profile: u8,
    pub level: u8,
    pub bit_depth: u8,
    pub chroma_subsampling: u8,
}

/// Reads the profile (1), level (2), bit depth (3) and chroma subsampling
/// (4) out of VP9 extradata; `MissingCodecFeature` names the first missing.
pub fn parse_vpx_codec_data(data: &[u8]) -> (r: Result<VpxFeatures, Mp4MuxerError>)
    ensures
        ({
            let f1 = feature_from(data@, 0, 1);
            let f2 = feature_from(data@, 0, 2);
            let f3 = feature_from(data@, 0, 3);
            let f4 = feature_from(data@, 0, 4);
            if f1 is None {
                r == Err::<VpxFeatures, _>(Mp4MuxerError::MissingCodecFeature(1))
            } else if f2 is None {
                r == Err::<VpxFeatures, _>(Mp4MuxerError::MissingCodecFeature(2))
            } else if f3 is None {
                r == Err::<VpxFeatures, _>(Mp4MuxerError::MissingCodecFeature(3))
            } else if f4 is None {
                r == Err::<VpxFeatures, _>(Mp4MuxerError::MissingCodecFeature(4))
            } else {
                r == Ok::<_, Mp4MuxerError>(
                    VpxFeatures {
                        profile: f1->Some_0,
                        level: f2->Some_0,
                        bit_depth: f3->Some_0,
                        chroma_subsampling: f4->Some_0,
                    },
                )
            }
        }),
{
    let profile = match find_feature(data, 1) {
        Some(v) => v,
        None => {
            return Err(Mp4MuxerError::MissingCodecFeature(1));
        },
    };
    let level = match find_feature(data, 2) {
        Some(v) => v,
        None => {
            return Err(Mp4MuxerError::MissingCodecFeature(2));
        },
    };
    let bit_depth = match find_feature(data, 3) {
        Some(v) => v,
        None => {
            return Err(Mp4MuxerError::MissingCodecFeature(3));
        },
    };
    let chroma_subsampling = match find_feature(data, 4) {
        Some(v) => v,
        None => {
            return Err(Mp4MuxerError::MissingCodecFeature(4));
        },
    };
    Ok(VpxFeatures { profile, level, bit_depth, chroma_subsampling })
}

/// Whether the codec identifier is `vp9`.
fn is_vp9(id: &Vec<u8>) -> (r: bool)
    ensures
        r == (id@ == vp9_id()),
{
    let r = id.len() == 3 && id[0] == 0x76 && id[1] == 0x70 && id[2] == 0x39;
    proof {
        if r {
            assert(id@ =~= vp9_id());
        }
    }
    r
}

/// Whether the codec identifier is `h264`.
fn is_h264(id: &Vec<u8>) -> (r: bool)
    ensures
        r == (id@ == h264_id()),
{
    let r = id.len() == 4 && id[0] == 0x68 && id[1] == 0x32 && id[2] == 0x36 && id[3] == 0x34;
    proof {
        if r {
            assert(id@ =~= h264_id());
        }
    }
    r
}

/// Whether a start code `00 00 01` begins at `i`.
pub open spec fn start_code_at(d: Seq<u8>, i: int) -> bool {
    0 <= i && i + 3 <= d.len() && d[i] == 0 && d[i + 1] == 0 && d[i + 2] == 1
}

/// The position of the first start code at or after `from`, or the length
/// where there is none.
pub fn find_start_code(d: &[u8], from: usize) -> (r: usize)
    requires
        from <= d@.len(),
    ensures
        from <= r <= d@.len(),
        r < d@.len() ==> start_code_at(d@, r as int),
        forall|j: int| from <= j < r ==> !start_code_at(d@, j),
        r == d@.len() ==> forall|j: int| from <= j < d@.len() ==> !start_code_at(d@, j),
{
    let len = d.len();
    let mut i = from;
    while i < len
        invariant
            from <= i <= len,
            len == d@.len(),
            forall|j: int| from <= j < i ==> !start_code_at(d@, j),
        decreases len - i,
    {
        if len - i >= 3 && d[i] == 0 && d[i + 1] == 0 && d[i + 2] == 1 {
            return i;
        }
        i = i + 1;
    }
    i
}

/// The position of the first start code at or after `i`, or the length.
pub open spec fn first_start_code(d: Seq<u8>, i: int) -> int
    decreases d.len() - i,
{
    if i >= d.len() {
        d.len() as int
    } else if start_code_at(d, i) {
        i
    } else {
        first_start_code(d, i + 1)
    }
}

proof fn lemma_first_start_code(d: Seq<u8>, from: int, r: int)
    requires
        0 <= from <= r <= d.len(),
        r < d.len() ==> start_code_at(d, r),
        forall|j: int| from <= j < r ==> !start_code_at(d, j),
    ensures
        first_start_code(d, from) == r,
    decreases r - from,
{
    if from < r {
        lemma_first_start_code(d, from + 1, r);
    }
}

/// Extradata from which an AVC configuration can be rebuilt: a start code,
/// a sequence parameter set of 4 to 65535 bytes up to the next start code,
/// and after that start code, if any, a picture parameter set of at most
/// 65535 bytes.
pub open spec fn avc_extradata_ok(d: Seq<u8>) -> bool {
    let e = first_start_code(d, 3);
    &&& start_code_at(d, 0)
    &&& 4 <= e - 3 <= 0xFFFF
    &&& (e < d.len() ==> d.len() - (e + 3) <= 0xFFFF)
}

/// Copies `d[a..b]`.
fn copy_range(d: &[u8], a: usize, b: usize) -> (r: Vec<u8>)
    requires
        a <= b <= d@.len(),
    ensures
        r@ == d@.subrange(a as int, b as int),
{
    let mut r: Vec<u8> = Vec::new();
    let mut i = a;
    while i < b
        invariant
            a <= i <= b <= d@.len(),
            r@ == d@.subrange(a as int, i as int),
        decreases b - i,
    {
        r.push(d[i]);
        i = i + 1;
        assert(r@ =~= d@.subrange(a as int, i as int));
    }
    r
}

/// Rebuilds an AVC configuration record from extradata that starts with a
/// start code and a sequence parameter set of at least 4 bytes, optionally
/// followed by another start code and a picture parameter set: the profile,
/// compatibility and level are bytes 1 to 3 of the sequence parameter set.
pub fn parse_avc_extradata(data: &[u8]) -> (r: Result<
    crate::codec::AvcDecoderConfigurationRecord,
    Mp4MuxerError,
>)
    ensures
        r is Ok ==> {
            let c = r->Ok_0;
            &&& c.wf()
            &&& start_code_at(data@, 0)
            &&& c.sequence_parameter_sets@.len() == 1
            &&& c.sequence_parameter_sets@[0].0@.len() >= 4
            &&& c.profile_indication == c.sequence_parameter_sets@[0].0@[1]
            &&& c.profile_compatibility == c.sequence_parameter_sets@[0].0@[2]
            &&& c.level_indication == c.sequence_parameter_sets@[0].0@[3]
            &&& data@ == seq![0u8, 0u8, 1u8] + c.sequence_parameter_sets@[0].0@ + if c.picture_parameter_sets@.len() > 0 {
                seq![0u8, 0u8, 1u8] + c.picture_parameter_sets@[0].0@
            } else {
                Seq::empty()
            }
            &&& c.picture_parameter_sets@.len() <= 1
        },
        r is Err ==> r->Err_0 == Mp4MuxerError::MissingInfo,
        r is Ok <==> avc_extradata_ok(data@),
{
    let len = data.len();
    if len < 3 || data[0] != 0 || data[1] != 0 || data[2] != 1 {
        return Err(Mp4MuxerError::MissingInfo);
    }
    let e = find_start_code(data, 3);
    proof {
        lemma_first_start_code(data@, 3, e as int);
    }
    if e - 3 < 4 || e - 3 > 0xFFFF {
        return Err(Mp4MuxerError::MissingInfo);
    }
    let sps = copy_range(data, 3, e);
    let mut pps_sets: Vec<crate::codec::PictureParameterSet> = Vec::new();
    if e < len {
        if len - (e + 3) > 0xFFFF {
            return Err(Mp4MuxerError::MissingInfo);
        }
        let pps = copy_range(data, e + 3, len);
        pps_sets.push(crate::codec::PictureParameterSet(pps));
    }
    let profile_indication = sps[1];
    let profile_compatibility = sps[2];
    let level_indication = sps[3];
    let mut sps_sets: Vec<crate::codec::SequenceParameterSet> = Vec::new();
    sps_sets.push(crate::codec::SequenceParameterSet(sps));
    let c = crate::codec::AvcDecoderConfigurationRecord {
        profile_indication,
        profile_compatibility,
        level_indication,
        sequence_parameter_sets: sps_sets,
        picture_parameter_sets: pps_sets,
    };
    proof {
        if e < len {
            assert(data@ =~= seq![0u8, 0u8, 1u8] + data@.subrange(3, e as int) + (seq![0u8, 0u8, 1u8] + data@.subrange(e + 3, len as int)));
        } else {
            assert(data@ =~= seq![0u8, 0u8, 1u8] + data@.subrange(3, e as int) + Seq::<u8>::empty());
        }
    }
    Ok(c)
}

/// The parts of a VP9 sample entry that codec parameters give, where the
/// identifier is `vp9`.
pub open spec fn vp9_entry_of(
    width: usize,
    height: usize,
    f: VideoFormat,
    x: VpxFeatures,
    e: Vp9SampleEntryBox,
) -> bool {
    &&& e.wf()
    &&& e.visual_sample_entry.width == width as u16
    &&& e.visual_sample_entry.height == height as u16
    &&& e.vpcc.config == VpCodecConfigurationRecord {
        profile: x.profile,
        level: x.level,
        bit_depth: x.bit_depth,
        chroma_subsampling: x.chroma_subsampling,
        video_full_range_flags: 0,
        colour_primaries: f.colour_primaries,
        transfer_characteristics: f.transfer_characteristics,
        matrix_coefficients: f.matrix_coefficients,
    }
}

/// The sample entry for a stream's codec parameters: `vp9` from its
/// features, colours and picture size, `h264` from its parameter sets.
/// Fails with `MissingCodec` without an identifier, `MissingInfo` without
/// the picture, format or extradata that the codec needs, the feature
/// parsing error, `UnsupportedCodec` for other codecs or for VP9 bit depths
/// or chroma subsamplings out of range.
pub fn get_sample_entry_for_codec(params: &CodecParams) -> (r: Result<SampleEntry, Mp4MuxerError>)
    ensures
        params.codec_id is None ==> r == Err::<SampleEntry, _>(Mp4MuxerError::MissingCodec),
        r is Ok ==> r->Ok_0.wf() && params.codec_id is Some && params.video is Some,
        r is Ok ==> entry_for(*params, r->Ok_0),
        r is Err ==> r->Err_0 != Mp4MuxerError::FileTooLarge,
        is_vp9_params(*params) ==> (r is Ok <==> vp9_params_complete(*params)),
        is_vp9_params(*params) && vp9_params_complete(*params) ==> match r->Ok_0 {
            SampleEntry::Vp9(e) => {
                let v = params.video->Some_0;
                vp9_entry_of(
                    v.width,
                    v.height,
                    v.format->Some_0,
                    parse_vpx_codec_data_spec(params.extradata->Some_0@)->Some_0,
                    e,
                )
            },
            _ => false,
        },
        is_vp9_params(*params) && (params.video is None || params.video->Some_0.format is None
            || params.extradata is None) ==> r == Err::<SampleEntry, _>(
            Mp4MuxerError::MissingInfo,
        ),
        is_vp9_params(*params) && params.video is Some && params.video->Some_0.format is Some
            && params.extradata is Some && parse_vpx_codec_data_spec(params.extradata->Some_0@)
            is None ==> r is Err && r->Err_0 is MissingCodecFeature,
        is_h264_params(*params) && (params.video is None || params.extradata is None) ==> r
            == Err::<SampleEntry, _>(Mp4MuxerError::MissingInfo),
        is_h264_params(*params) && r is Ok ==> match r->Ok_0 {
            SampleEntry::Avc(e) => {
                &&& e.visual_sample_entry.width == params.video->Some_0.width as u16
                &&& e.visual_sample_entry.height == params.video->Some_0.height as u16
                &&& avc_extradata(e) == params.extradata->Some_0@
            },
            _ => false,
        },
        is_h264_params(*params) && r is Err ==> r->Err_0 == Mp4MuxerError::MissingInfo,
        is_h264_params(*params) ==> (r is Ok <==> (params.video is Some && params.extradata is Some
            && avc_extradata_ok(params.extradata->Some_0@))),
        params.codec_id is Some && params.codec_id->Some_0@ != vp9_id()
            && params.codec_id->Some_0@ != h264_id() ==> unsupported(
            r,
            params.codec_id->Some_0@,
        ),
{
    let id = match &params.codec_id {
        Some(id) => id,
        None => {
            return Err(Mp4MuxerError::MissingCodec);
        },
    };
    if is_vp9(id) {
        let v = match params.video {
            Some(v) => v,
            None => {
                return Err(Mp4MuxerError::MissingInfo);
            },
        };
        let f = match v.format {
            Some(f) => f,
            None => {
                return Err(Mp4MuxerError::MissingInfo);
            },
        };
        let extra = match &params.extradata {
            Some(x) => x,
            None => {
                return Err(Mp4MuxerError::MissingInfo);
            },
        };
        let x = parse_vpx_codec_data(extra.as_slice())?;
        if x.bit_depth >= 16 || x.chroma_subsampling >= 8 {
            return Err(Mp4MuxerError::UnsupportedCodec(vp9_id_vec()));
        }
        let config = VpCodecConfigurationRecord {
            profile: x.profile,
            level: x.level,
            bit_depth: x.bit_depth,
            chroma_subsampling: x.chroma_subsampling,
            video_full_range_flags: 0,
            colour_primaries: f.colour_primaries,
            transfer_characteristics: f.transfer_characteristics,
            matrix_coefficients: f.matrix_coefficients,
        };
        let e = Vp9SampleEntryBox::new(
            #[verifier::truncate] (v.width as u16),
            #[verifier::truncate] (v.height as u16),
            VpCodecConfigurationBox::new(config),
        );
        Ok(SampleEntry::Vp9(e))
    } else if is_h264(id) {
        let v = match params.video {
            Some(v) => v,
            None => {
                return Err(Mp4MuxerError::MissingInfo);
            },
        };
        let extra = match &params.extradata {
            Some(x) => x,
            None => {
                return Err(Mp4MuxerError::MissingInfo);
            },
        };
        let config = parse_avc_extradata(extra.as_slice())?;
        let e = AvcSampleEntryBox::new(
            #[verifier::truncate] (v.width as u16),
            #[verifier::truncate] (v.height as u16),
            crate::codec::AvcConfigurationBox::new(config),
        );
        Ok(SampleEntry::Avc(e))
    } else {
        Err(Mp4MuxerError::UnsupportedCodec(id.clone()))
    }
}

/// `e` is the sample entry built for the codec parameters: for VP9, the
/// entry of its picture, colours and features; for AVC, an entry whose
/// extradata gives back the parameters' extradata.
pub open spec fn entry_for(p: CodecParams, e: SampleEntry) -> bool {
    &&& e.wf()
    &&& (is_vp9_params(p) ==> match e {
        SampleEntry::Vp9(b) => vp9_params_complete(p) && vp9_entry_of(
            p.video->Some_0.width,
            p.video->Some_0.height,
            p.video->Some_0.format->Some_0,
            parse_vpx_codec_data_spec(p.extradata->Some_0@)->Some_0,
            b,
        ),
        _ => false,
    })
    &&& (is_h264_params(p) ==> match e {
        SampleEntry::Avc(b) => {
            &&& p.video is Some
            &&& p.extradata is Some
            &&& b.visual_sample_entry.width == p.video->Some_0.width as u16
            &&& b.visual_sample_entry.height == p.video->Some_0.height as u16
            &&& avc_extradata(b) == p.extradata->Some_0@
        },
        _ => false,
    })
}

/// Codec parameters whose identifier is `vp9`.
pub open spec fn is_vp9_params(p: CodecParams) -> bool {
    p.codec_id is Some && p.codec_id->Some_0@ == vp9_id()
}

/// Codec parameters whose identifier is `h264`.
pub open spec fn is_h264_params(p: CodecParams) -> bool {
    p.codec_id is Some && p.codec_id->Some_0@ == h264_id()
}

/// VP9 parameters from which a sample entry can be built: the picture, its
/// format, and extradata with all four features, the bit depth below 16 and
/// the chroma subsampling below 8.
pub open spec fn vp9_params_complete(p: CodecParams) -> bool {
    &&& p.video is Some
    &&& p.video->Some_0.format is Some
    &&& p.extradata is Some
    &&& parse_vpx_codec_data_spec(p.extradata->Some_0@) is Some
    &&& parse_vpx_codec_data_spec(p.extradata->Some_0@)->Some_0.bit_depth < 16
    &&& parse_vpx_codec_data_spec(p.extradata->Some_0@)->Some_0.chroma_subsampling < 8
}

/// The features that `parse_vpx_codec_data` gives, where all four are there.
pub open spec fn parse_vpx_codec_data_spec(d: Seq<u8>) -> Option<VpxFeatures> {
    let f1 = feature_from(d, 0, 1);
    let f2 = feature_from(d, 0, 2);
    let f3 = feature_from(d, 0, 3);
    let f4 = feature_from(d, 0, 4);
    if f1 is Some && f2 is Some && f3 is Some && f4 is Some {
        Some(
            VpxFeatures {
                profile: f1->Some_0,
                level: f2->Some_0,
                bit_depth: f3->Some_0,
                chroma_subsampling: f4->Some_0,
            },
        )
    } else {
        None
    }
}

} // verus!

//! The muxer: emits the file type box and an open-ended media data box,
//! records each packet in its track's tables, and at the end emits the movie
//! box and the true size of the media data box.
use vstd::prelude::*;

use crate::bridge::{avc_extradata_ok, entry_for, get_sample_entry_for_codec, is_h264_params, is_vp9_params, vp9_params_complete, CodecParams};
use crate::builder::{packet_added, packet_delta, PacketInfo, TrackChunkBuilder};
use crate::bytes::{be_bytes, push_u64, u32_bytes};
use crate::containers::{MediaBox, MediaHeader, MediaInformationBox, MovieBox, SampleTableBox, TrackBox};
use crate::demuxer::StreamInfo;
use crate::error::Mp4MuxerError;
use crate::framing::{total_with_header, header_bytes, plain_box_bytes, Boks, I16F16, FTYP, ISO5, ISOM, MDAT, VIDE};
use crate::headers::{
    DataEntryUrlBox, DataInformationBox, DataReferenceBox, FileTypeBox, HandlerBox,
    MediaHeaderBox, MovieHeaderBox, TrackHeaderBox, VideoMediaHeaderBox, TRACK_ENABLED,
    TRACK_IN_MOVIE,
};
use crate::stsd::SampleDescriptionBox;
use crate::tables::{
    ChunkLargeOffsetBox, ChunkOffsets, SampleSizeBox, SampleSizes, SampleToChunkBox,
    SyncSampleBox, TimeToSampleBox,
};

verus! {

/// What the host knows of the movie.
pub struct GlobalInfo {
    /// The movie time base, as numerator and denominator.
    pub timebase: Option<(i64, i64)>,
    pub streams: Vec<StreamInfo>,
}

/// The ticks per second of a time base of `num / den` seconds per tick.
pub open spec fn timescale_of(num: i64, den: i64) -> u32 {
    (den / num) as u32
}

/// A global time base that gives a movie timescale: none, or both parts positive.
pub open spec fn timebase_ok(timebase: Option<(i64, i64)>) -> bool {
    match timebase {
        Some(t) => t.0 > 0 && t.1 > 0,
        None => true,
    }
}

/// The movie timescale for a global time base: 10000 where there is none.
pub open spec fn movie_timescale(timebase: Option<(i64, i64)>) -> u32 {
    match timebase {
        Some(t) => timescale_of(t.0, t.1),
        None => 10_000,
    }
}

/// The ticks per second of a time base; `MissingInfo` where either part is
/// not positive.
pub fn timescale(timebase: (i64, i64)) -> (r: Result<u32, Mp4MuxerError>)
    ensures
        timebase.0 > 0 && timebase.1 > 0 ==> r == Ok::<u32, Mp4MuxerError>(
            timescale_of(timebase.0, timebase.1),
        ),
        !(timebase.0 > 0 && timebase.1 > 0) ==> r == Err::<u32, _>(Mp4MuxerError::MissingInfo),
{
    let (num, den) = timebase;
    if num <= 0 || den <= 0 {
        return Err(Mp4MuxerError::MissingInfo);
    }
    Ok((den / num) as u32)
}

/// The name of the video handler.
pub open spec fn video_handler_name_bytes() -> Seq<u8> {
    seq![
        0x56u8, 0x69u8, 0x64u8, 0x65u8, 0x6Fu8, 0x20u8, 0x48u8, 0x61u8, 0x6Eu8, 0x64u8, 0x6Cu8,
        0x65u8, 0x72u8,
    ]
}

fn video_handler_name() -> (r: Vec<u8>)
    ensures
        r@ == video_handler_name_bytes(),
        r@.len() == 13,
{
    let r = vec![
        0x56u8, 0x69u8, 0x64u8, 0x65u8, 0x6Fu8, 0x20u8, 0x48u8, 0x61u8, 0x6Eu8, 0x64u8, 0x6Cu8,
        0x65u8, 0x72u8,
    ];
    assert(r@ =~= video_handler_name_bytes());
    r
}

/// `t` is the track box that builder `b` (before its open chunk and time run
/// are closed) makes for `stream` with id `id`: a video track with the
/// stream's timescale, the `vide` handler named "Video Handler", the
/// stream's sample entry, and the builder's tables, with 64-bit chunk
/// offsets and 1-based sync sample numbers.
pub open spec fn trak_built(b: TrackChunkBuilder, id: u32, stream: StreamInfo, t: TrackBox) -> bool {
    let stbl = t.mdia.minf.stbl;
    &&& t.wf()
    &&& t.tkhd.track_id == id
    &&& stream.timebase.0 > 0 && stream.timebase.1 > 0
    &&& t.mdia.mdhd.timescale == timescale_of(stream.timebase.0, stream.timebase.1)
    &&& t.mdia.mdhd.duration == 0
    &&& t.mdia.hdlr.handler_type == VIDE
    &&& t.mdia.hdlr.name@ == video_handler_name_bytes()
    &&& t.mdia.minf.media_header is Some && t.mdia.minf.media_header->Some_0 is Video
    &&& t.mdia.minf.dinf is Some
    &&& stbl.stsd.entries@.len() == 1
    &&& entry_for(stream.params, stbl.stsd.entries@[0])
    &&& stbl.stts.entries@ == match b.current_time {
        Some(c) => b.times@.push(c),
        None => b.times@,
    }
    &&& stbl.stsc.entries@ == match b.current_chunk {
        Some(c) => b.chunks@.push(c),
        None => b.chunks@,
    }
    &&& stbl.stsz.sample_sizes == SampleSizes::Variable(b.sizes)
    &&& stbl.chunk_offsets is Co64
    &&& stbl.chunk_offsets.spec_offsets() == b.offsets@
    &&& stbl.stss is Some
    &&& stbl.stss->Some_0.sync_samples@ == b.sync_samples@.map_values(|n: u32| (n + 1) as u32)
}


/// A sample table box of the given tables, with 64-bit chunk offsets.
fn build_stbl(
    entry: crate::stsd::SampleEntry,
    times: Vec<crate::tables::TimeToSampleEntry>,
    chunks: Vec<crate::tables::SampleToChunkEntry>,
    sizes: Vec<u32>,
    offsets: Vec<u64>,
    sync: Vec<u32>,
) -> (r: SampleTableBox)
    requires
        entry.wf(),
        times@.len() <= u32::MAX,
        chunks@.len() <= u32::MAX,
        sizes@.len() <= u32::MAX,
        offsets@.len() <= u32::MAX,
        sync@.len() <= u32::MAX,
    ensures
        r.wf(),
        r.spec_bytes().len() <= 0x0800_0000_0000_0000,
        r.stts.entries == times,
        r.stsc.entries == chunks,
        r.stsz.sample_sizes == SampleSizes::Variable(sizes),
        r.chunk_offsets is Co64,
        r.chunk_offsets.spec_offsets() == offsets@,
        r.stss is Some,
        r.stss->Some_0.sync_samples == sync,
        r.stsd.entries@ == seq![entry],
{
    let mut entries: Vec<crate::stsd::SampleEntry> = Vec::new();
    entries.push(entry);
    let stsd = SampleDescriptionBox::new(entries);
    assert(stsd.entries@ =~= seq![entry]);
    let stts = TimeToSampleBox::new(times);
    let stsc = SampleToChunkBox::new(chunks);
    let stsz = SampleSizeBox::new(SampleSizes::Variable(sizes));
    let co = ChunkOffsets::Co64(ChunkLargeOffsetBox::new(offsets));
    let stss = SyncSampleBox::new(sync);
    let s1 = stsd.total_size();
    let s2 = stts.total_size();
    let s3 = stsc.total_size();
    let s4 = stsz.total_size();
    let s5 = co.size();
    let s6 = stss.total_size();
    let stbl = SampleTableBox::new(stsd, stts, stsc, stsz, co, Some(stss));
    assert(stbl.spec_contents().len() == s1 + s2 + s3 + s4 + s5 + s6);
    proof {
        reveal(SampleTableBox::wf);
    }
    let s7 = stbl.total_size();
    stbl
}

/// A data information box whose one entry says that the media data is in
/// the same file.
fn self_reference_dinf() -> (r: DataInformationBox)
    ensures
        r.wf(),
        r.spec_bytes().len() <= 0x1_0000_0014 * 0x1_0000 + 40,
{
    let mut urls: Vec<DataEntryUrlBox> = Vec::new();
    let url = DataEntryUrlBox::new(Vec::new());
    urls.push(url);
    let dinf = DataInformationBox::new(DataReferenceBox::new(urls));
    assert(dinf.dref.entries@[0].wf());
    let n = dinf.total_size();
    dinf
}

/// A video media information box around a sample table box.
fn build_minf(stbl: SampleTableBox) -> (r: MediaInformationBox)
    requires
        stbl.wf(),
        stbl.spec_bytes().len() <= 0x0800_0000_0000_0000,
    ensures
        r.wf(),
        r.spec_bytes().len() <= 0x0900_0000_0000_0000,
        r.stbl == stbl,
        r.media_header is Some && r.media_header->Some_0 is Video,
        r.dinf is Some,
{
    let dinf = self_reference_dinf();
    let vmhd = VideoMediaHeaderBox::new();
    let a = vmhd.total_size();
    let b = dinf.total_size();
    let c = stbl.total_size();
    let minf = MediaInformationBox { media_header: Some(MediaHeader::Video(vmhd)), dinf: Some(dinf), stbl };
    proof {
        lemma_minf_fits(minf, a as nat, b as nat, c as nat);
    }
    let d = minf.total_size();
    minf
}

proof fn lemma_minf_fits(minf: MediaInformationBox, a: nat, b: nat, c: nat)
    requires
        minf.media_header is Some,
        minf.media_header->Some_0 is Video,
        minf.dinf is Some,
        minf.dinf->Some_0.wf(),
        minf.stbl.wf(),
        a == minf.media_header->Some_0->Video_0.spec_bytes().len(),
        b == minf.dinf->Some_0.spec_bytes().len(),
        c == minf.stbl.spec_bytes().len(),
        a + b + c <= 0x0900_0000_0000_0000,
    ensures
        minf.wf(),
{
    reveal(MediaInformationBox::wf);
}

/// A video track box around a media information box.
#[verifier::rlimit(100)]
fn build_trak(track_id: u32, timescale: u32, width: u16, height: u16, minf: MediaInformationBox) -> (r: TrackBox)
    requires
        minf.wf(),
        minf.spec_bytes().len() <= 0x0900_0000_0000_0000,
    ensures
        r.wf(),
        r.tkhd.track_id == track_id,
        r.mdia.mdhd.timescale == timescale,
        r.mdia.mdhd.duration == 0,
        r.mdia.hdlr.handler_type == VIDE,
        r.mdia.hdlr.name@ == video_handler_name_bytes(),
        r.mdia.minf == minf,
{
    let mdhd = MediaHeaderBox::new(timescale, 0);
    let a = mdhd.total_size();
    let hdlr = HandlerBox::new(VIDE, video_handler_name());
    let b = hdlr.total_size();
    let c = minf.total_size();
    let mdia = MediaBox::new(mdhd, hdlr, minf);
    assert(mdia.spec_contents().len() == a + b + c);
    proof {
        reveal(MediaBox::wf);
    }
    let d = mdia.total_size();
    let tkhd = TrackHeaderBox::new(
        TRACK_ENABLED | TRACK_IN_MOVIE,
        track_id,
        0,
        I16F16::from_int(width),
        I16F16::from_int(height),
    );
    let e = tkhd.total_size();
    let t = TrackBox::new(tkhd, mdia);
    proof {
        reveal(TrackBox::wf);
    }
    t
}

impl TrackChunkBuilder {
    /// Closes the open chunk and time run and builds the track box: a video
    /// track with the given id, its media timescale from the stream's time
    /// base, a self-contained data reference, the sample entry for the
    /// stream's codec, and the accumulated tables, with 64-bit chunk offsets
    /// and the 1-based numbers of the sync samples.
    pub fn into_trak(self, track_id: u32, stream: &StreamInfo) -> (r: Result<TrackBox, Mp4MuxerError>)
        requires
            self.wf(),
        ensures
            r is Ok ==> trak_built(self, track_id, *stream, r->Ok_0),
            r is Err ==> r->Err_0 != Mp4MuxerError::FileTooLarge,
            !(stream.timebase.0 > 0 && stream.timebase.1 > 0) ==> r == Err::<TrackBox, _>(
                Mp4MuxerError::MissingInfo,
            ),
            stream.timebase.0 > 0 && stream.timebase.1 > 0 && params_buildable(stream.params)
                ==> r is Ok,
    {
        let mut b = self;
        let ghost old_b = b;
        b.flush();
        let ts = timescale(stream.timebase)?;
        let entry = get_sample_entry_for_codec(&stream.params)?;
        let (width, height) = match stream.params.video {
            Some(v) => (#[verifier::truncate] (v.width as u16), #[verifier::truncate] (v.height as u16)),
            None => (0u16, 0u16),
        };
        let mut sync1: Vec<u32> = Vec::new();
        let mut i: usize = 0;
        while i < b.sync_samples.len()
            invariant
                i <= b.sync_samples@.len(),
                b.sync_samples@.len() <= b.sample_index,
                forall|k: int| 0 <= k < b.sync_samples@.len() ==> #[trigger] b.sync_samples@[k] < b.sample_index,
                sync1@ == b.sync_samples@.subrange(0, i as int).map_values(|n: u32| (n + 1) as u32),
            decreases b.sync_samples@.len() - i,
        {
            assert(b.sync_samples@[i as int] < b.sample_index);
            sync1.push(b.sync_samples[i] + 1);
            i = i + 1;
            assert(sync1@ =~= b.sync_samples@.subrange(0, i as int).map_values(|n: u32| (n + 1) as u32));
        }
        assert(b.sync_samples@.subrange(0, i as int) =~= b.sync_samples@);
        let stbl = build_stbl(entry, b.times, b.chunks, b.sizes, b.offsets, sync1);
        let minf = build_minf(stbl);
        let trak = build_trak(track_id, ts, width, height, minf);
        Ok(trak)
    }
}

/// The position of the builder of stream `si`: the first with that stream
/// index, or the end where there is none.
pub open spec fn slot(tracks: Seq<TrackChunkBuilder>, si: isize) -> int
    decreases tracks.len(),
{
    if tracks.len() == 0 {
        0
    } else if tracks[0].stream_index == si {
        0
    } else {
        1 + slot(tracks.drop_first(), si)
    }
}

proof fn lemma_slot(tracks: Seq<TrackChunkBuilder>, si: isize, k: int)
    requires
        0 <= k <= tracks.len(),
        forall|j: int| 0 <= j < k ==> #[trigger] tracks[j].stream_index != si,
        k < tracks.len() ==> tracks[k].stream_index == si,
    ensures
        slot(tracks, si) == k,
    decreases tracks.len(),
{
    if tracks.len() > 0 && k > 0 {
        let t = tracks.drop_first();
        assert forall|j: int| 0 <= j < k - 1 implies #[trigger] t[j].stream_index != si by {
            assert(t[j] == tracks[j + 1]);
        }
        assert(tracks[0].stream_index != si);
        lemma_slot(t, si, k - 1);
    }
}

/// The position of the first stream with index `idx`, or the end.
pub open spec fn first_stream(streams: Seq<StreamInfo>, idx: usize) -> int
    decreases streams.len(),
{
    if streams.len() == 0 {
        0
    } else if streams[0].index == idx {
        0
    } else {
        1 + first_stream(streams.drop_first(), idx)
    }
}

proof fn lemma_first_stream(streams: Seq<StreamInfo>, idx: usize, k: int)
    requires
        0 <= k <= streams.len(),
        forall|j: int| 0 <= j < k ==> #[trigger] streams[j].index != idx,
        k < streams.len() ==> streams[k].index == idx,
    ensures
        first_stream(streams, idx) == k,
    decreases streams.len(),
{
    if streams.len() > 0 && k > 0 {
        let t = streams.drop_first();
        assert forall|j: int| 0 <= j < k - 1 implies #[trigger] t[j].index != idx by {
            assert(t[j] == streams[j + 1]);
        }
        assert(streams[0].index != idx);
        lemma_first_stream(t, idx, k - 1);
    }
}

/// The stream of the global information with index `idx`: the first.
pub open spec fn stream_of_index(info: Option<GlobalInfo>, idx: usize) -> Option<StreamInfo> {
    match info {
        None => None,
        Some(i) => if first_stream(i.streams@, idx) < i.streams@.len() {
            Some(i.streams@[first_stream(i.streams@, idx)])
        } else {
            None
        },
    }
}

/// `t` is the track box that builder `b`, the `i`-th, makes: with id `i + 1`,
/// for the stream of its index.
pub open spec fn builder_made(info: Option<GlobalInfo>, b: TrackChunkBuilder, i: int, t: TrackBox) -> bool {
    &&& b.stream_index >= 0
    &&& stream_of_index(info, b.stream_index as usize) is Some
    &&& trak_built(b, (i + 1) as u32, stream_of_index(info, b.stream_index as usize)->Some_0, t)
}

/// Builder `b` has a stream with a positive time base and complete VP9
/// parameters, so that a track box can be made of it.
pub open spec fn builder_can_be_made(info: Option<GlobalInfo>, b: TrackChunkBuilder) -> bool {
    &&& b.stream_index >= 0
    &&& stream_of_index(info, b.stream_index as usize) is Some
    &&& {
        let s = stream_of_index(info, b.stream_index as usize)->Some_0;
        &&& s.timebase.0 > 0 && s.timebase.1 > 0
        &&& params_buildable(s.params)
    }
}

/// Codec parameters from which a sample entry can be built: complete VP9
/// parameters, or AVC parameters with a picture and usable extradata.
pub open spec fn params_buildable(p: CodecParams) -> bool {
    ||| is_vp9_params(p) && vp9_params_complete(p)
    ||| is_h264_params(p) && p.video is Some && p.extradata is Some && avc_extradata_ok(
        p.extradata->Some_0@,
    )
}

/// A builder that has recorded nothing for stream `si`.
pub open spec fn is_fresh(b: TrackChunkBuilder, si: isize) -> bool {
    &&& b.wf()
    &&& b.stream_index == si
    &&& b.first_packet
    &&& b.sample_index == 0
    &&& b.prev_ts is None
    &&& b.chunks@.len() == 0
    &&& b.times@.len() == 0
    &&& b.sync_samples@.len() == 0
    &&& b.sizes@.len() == 0
    &&& b.offsets@.len() == 0
}

/// `b` is the builder that a packet of stream `si` goes to: the stream's
/// builder where there is one, else a fresh one.
pub open spec fn slot_builder(tracks: Seq<TrackChunkBuilder>, si: isize, b: TrackChunkBuilder) -> bool {
    let k = slot(tracks, si);
    if k < tracks.len() {
        b == tracks[k]
    } else {
        is_fresh(b, si)
    }
}

/// The bytes that end a muxed file: the movie box to append, and the true
/// size of the media data box to write at `patch_position`.
pub struct Trailer {
    pub moov: Vec<u8>,
    pub patch_position: u64,
    pub patch: Vec<u8>,
}

/// The muxer's state.
pub struct Mp4Muxer {
    pub info: Option<GlobalInfo>,
    /// Where the media data box starts.
    pub mdat_start: u64,
    /// Where the next payload goes.
    pub mdat_offset: u64,
    pub tracks: Vec<TrackChunkBuilder>,
    pub prev_index: isize,
}

/// The file type box this library writes: `isom`, version 0, compatible with `iso5`.
pub open spec fn ftyp_bytes() -> Seq<u8> {
    plain_box_bytes(FTYP, u32_bytes(ISOM) + u32_bytes(0) + u32_bytes(ISO5))
}

impl Mp4Muxer {
    pub open spec fn wf(&self) -> bool {
        &&& forall|i: int| 0 <= i < self.tracks@.len() ==> #[trigger] self.tracks@[i].wf()
        &&& self.mdat_start <= self.mdat_offset
        &&& self.mdat_start <= 20
    }

    pub fn new() -> (r: Self)
        ensures
            r.wf(),
            r.info is None,
            r.tracks@.len() == 0,
            r.mdat_start == 0,
            r.mdat_offset == 0,
            r.prev_index == 0,
    {
        Mp4Muxer { info: None, mdat_start: 0, mdat_offset: 0, tracks: Vec::new(), prev_index: 0 }
    }

    pub fn set_global_info(&mut self, info: GlobalInfo)
        requires
            old(self).wf(),
        ensures
            final(self).wf(),
            final(self).info == Some(info),
            final(self).tracks == old(self).tracks,
            final(self).mdat_start == old(self).mdat_start,
            final(self).mdat_offset == old(self).mdat_offset,
    {
        self.info = Some(info);
    }
}

impl Mp4Muxer {
    /// The start of the file: the file type box and the header of a media
    /// data box whose size, still unknown, is written as all ones; payloads
    /// go right after it.
    pub fn write_header(&mut self) -> (r: Vec<u8>)
        requires
            old(self).wf(),
            old(self).tracks@.len() == 0,
        ensures
            final(self).wf(),
            r@ == ftyp_bytes() + header_bytes(MDAT, u64::MAX),
            final(self).mdat_start == 20,
            final(self).mdat_offset == 36,
            final(self).tracks@.len() == 0,
            final(self).info == old(self).info,
            final(self).prev_index == old(self).prev_index,
    {
        let mut brands: Vec<u32> = Vec::new();
        brands.push(ISO5);
        let ftyp = FileTypeBox::new(ISOM, 0, brands);
        let mut out: Vec<u8> = Vec::new();
        ftyp.write(&mut out);
        let start = ftyp.total_size();
        proof {
            let e = Seq::<u32>::empty();
            crate::bytes::lemma_concat_map_push(e, ISO5, |v: u32| u32_bytes(v));
            assert(ftyp.compatible_brands@ =~= e.push(ISO5));
            assert(crate::bytes::concat_map(e, |v: u32| u32_bytes(v)) =~= Seq::<u8>::empty());
            assert(ftyp.spec_contents() =~= u32_bytes(ISOM) + u32_bytes(0) + u32_bytes(ISO5));
        }
        self.mdat_start = start;
        self.mdat_offset = start + 16;
        Boks::new(MDAT).write(&mut out, u64::MAX);
        out
    }

    /// Records a packet; its payload goes at the returned offset, and the
    /// next payload after it. Opens a table builder for a stream not seen
    /// before. Fails with `FileTooLarge` where the offset or the stream's
    /// sample count would overflow, and with the builder's error.
    pub fn write_packet(&mut self, packet: &PacketInfo) -> (r: Result<u64, Mp4MuxerError>)
        requires
            old(self).wf(),
        ensures
            final(self).wf(),
            final(self).mdat_start == old(self).mdat_start,
            final(self).info == old(self).info,
            packet.size > u64::MAX - old(self).mdat_offset ==> r == Err::<u64, _>(
                Mp4MuxerError::FileTooLarge,
            ) && final(self).tracks@ == old(self).tracks@,
            r is Err ==> final(self).mdat_offset == old(self).mdat_offset,
            packet.size <= u64::MAX - old(self).mdat_offset ==> exists|b: TrackChunkBuilder|
                #[trigger] slot_builder(old(self).tracks@, packet.stream_index, b) && {
                    let k = slot(old(self).tracks@, packet.stream_index);
                    let n = old(self).tracks@.len();
                    &&& final(self).tracks@.len() == if k < n {
                        n
                    } else {
                        n + 1
                    }
                    &&& forall|j: int| 0 <= j < n && j != k ==> #[trigger] final(self).tracks@[j]
                        == old(self).tracks@[j]
                    &&& (b.sample_index == u32::MAX ==> r == Err::<u64, _>(
                        Mp4MuxerError::FileTooLarge,
                    ))
                    &&& (b.sample_index < u32::MAX ==> packet_added(
                        b,
                        final(self).tracks@[k],
                        old(self).prev_index,
                        old(self).mdat_offset,
                        *packet,
                        match r {
                            Ok(_) => Ok(()),
                            Err(e) => Err(e),
                        },
                    ))
                    &&& (b.sample_index < u32::MAX && packet_delta(*packet, b.prev_ts) is Some
                        ==> r is Ok)
                },
            r is Ok ==> {
                &&& r->Ok_0 == old(self).mdat_offset
                &&& final(self).mdat_offset == old(self).mdat_offset + packet.size
                &&& final(self).prev_index == packet.stream_index
            },
    {
        let offset = self.mdat_offset;
        if packet.size as u64 > u64::MAX - offset {
            return Err(Mp4MuxerError::FileTooLarge);
        }
        let ghost old_tracks = self.tracks@;
        let mut k: usize = 0;
        while k < self.tracks.len() && self.tracks[k].stream_index != packet.stream_index
            invariant
                k <= self.tracks@.len(),
                self.tracks@ == old_tracks,
                forall|j: int| 0 <= j < k ==> #[trigger] old_tracks[j].stream_index != packet.stream_index,
            decreases self.tracks@.len() - k,
        {
            k = k + 1;
        }
        proof {
            lemma_slot(old_tracks, packet.stream_index, k as int);
        }
        if k == self.tracks.len() {
            self.tracks.push(TrackChunkBuilder::new(packet.stream_index));
        }
        let ghost base = self.tracks@[k as int];
        assert(slot_builder(old_tracks, packet.stream_index, base));
        assert(self.tracks@[k as int].wf());
        if self.tracks[k].sample_index == 0xFFFF_FFFF {
            return Err(Mp4MuxerError::FileTooLarge);
        }
        let prev = self.prev_index;
        let res = self.tracks[k].add_packet(prev, offset, packet);
        match res {
            Ok(()) => {},
            Err(e) => {
                return Err(e);
            },
        }
        self.mdat_offset = offset + packet.size as u64;
        self.prev_index = packet.stream_index;
        Ok(offset)
    }

    /// The stream with the given index in the global information.
    pub fn stream_for_index(&self, stream_index: usize) -> (r: Option<&StreamInfo>)
        ensures
            r is Some <==> stream_of_index(self.info, stream_index) is Some,
            r is Some ==> *r->Some_0 == stream_of_index(self.info, stream_index)->Some_0,
    {
        match &self.info {
            None => None,
            Some(info) => {
                let mut i: usize = 0;
                assert(self.info == Some(*info));
                while i < info.streams.len()
                    invariant
                        self.info == Some(*info),
                        i <= info.streams@.len(),
                        forall|j: int| 0 <= j < i ==> #[trigger] info.streams@[j].index != stream_index,
                    decreases info.streams@.len() - i,
                {
                    if info.streams[i].index == stream_index {
                        proof {
                            lemma_first_stream(info.streams@, stream_index, i as int);
                        }
                        return Some(&info.streams[i]);
                    }
                    i = i + 1;
                }
                proof {
                    lemma_first_stream(info.streams@, stream_index, i as int);
                }
                None
            },
        }
    }

    /// Turns the table builders, in the order their streams first came, into
    /// track boxes with ids 1, 2, ...; `MissingInfo` where a stream is not in
    /// the global information, or the error of making its track.
    pub fn take_tracks(&mut self) -> (r: Result<Vec<TrackBox>, Mp4MuxerError>)
        requires
            old(self).wf(),
        ensures
            final(self).wf(),
            final(self).tracks@.len() == 0,
            final(self).mdat_start == old(self).mdat_start,
            final(self).mdat_offset == old(self).mdat_offset,
            final(self).info == old(self).info,
            r is Ok ==> r->Ok_0@.len() == old(self).tracks@.len(),
            r == Err::<Vec<TrackBox>, _>(Mp4MuxerError::FileTooLarge) ==> old(self).tracks@.len() >= 0xFFFF_FFFE,
            r is Ok ==> forall|i: int|
                0 <= i < r->Ok_0@.len() ==> builder_made(old(self).info, old(self).tracks@[i], i, #[trigger] r->Ok_0@[i]),
            old(self).tracks@.len() < u32::MAX && (forall|i: int|
                0 <= i < old(self).tracks@.len() ==> #[trigger] builder_can_be_made(
                    old(self).info,
                    old(self).tracks@[i],
                )) ==> r is Ok,
    {
        let mut traks: Vec<TrackBox> = Vec::new();
        let ghost n = self.tracks@.len();
        let ghost all = self.tracks@;
        let ghost promise = old(self).tracks@.len() < u32::MAX && (forall|i: int|
            0 <= i < old(self).tracks@.len() ==> #[trigger] builder_can_be_made(
                old(self).info,
                old(self).tracks@[i],
            ));
        while self.tracks.len() > 0
            invariant
                self.wf(),
                self.mdat_start == old(self).mdat_start,
                self.mdat_offset == old(self).mdat_offset,
                self.info == old(self).info,
                all == old(self).tracks@,
                traks@.len() + self.tracks@.len() == n,
                n == old(self).tracks@.len(),
                self.tracks@ == all.subrange(traks@.len() as int, n as int),
                forall|i: int| 0 <= i < traks@.len() ==> builder_made(self.info, all[i], i, #[trigger] traks@[i]),
                promise ==> forall|i: int| 0 <= i < n ==> #[trigger] builder_can_be_made(self.info, all[i]),
                promise ==> n < u32::MAX,
                promise == (old(self).tracks@.len() < u32::MAX && (forall|i: int|
                    0 <= i < old(self).tracks@.len() ==> #[trigger] builder_can_be_made(
                        old(self).info,
                        old(self).tracks@[i],
                    ))),
            decreases self.tracks@.len(),
        {
            assert(self.tracks@[0].wf());
            let ghost k = traks@.len() as int;
            let b = self.tracks.remove(0);
            assert(b == all[k]);
            assert(self.tracks@ =~= all.subrange(k + 1, n as int));
            assert(promise ==> builder_can_be_made(self.info, all[k]));
            if traks.len() >= 0xFFFF_FFFE || b.stream_index < 0 {
                self.tracks = Vec::new();
                return Err(if b.stream_index < 0 { Mp4MuxerError::MissingInfo } else { Mp4MuxerError::FileTooLarge });
            }
            let id = (traks.len() + 1) as u32;
            let t = match self.stream_for_index(b.stream_index as usize) {
                Some(stream) => b.into_trak(id, stream),
                None => Err(Mp4MuxerError::MissingInfo),
            };
            match t {
                Ok(t) => traks.push(t),
                Err(e) => {
                    self.tracks = Vec::new();
                    return Err(e);
                },
            }
        }
        Ok(traks)
    }

    /// Ends the file: the movie box, with the movie timescale from the
    /// global time base (10000 where there is none) and one track per
    /// stream, and the true size of the media data box, to write as a
    /// 64-bit value 8 bytes into it.
    pub fn write_trailer(&mut self) -> (r: Result<Trailer, Mp4MuxerError>)
        requires
            old(self).wf(),
        ensures
            final(self).wf(),
            old(self).info is None ==> r == Err::<Trailer, _>(Mp4MuxerError::MissingInfo),
            r is Ok ==> {
                let t = r->Ok_0;
                &&& t.patch_position == old(self).mdat_start + 8
                &&& t.patch@ == be_bytes((old(self).mdat_offset - old(self).mdat_start) as nat, 8)
                &&& exists|m: MovieBox|
                    #[trigger] m.spec_bytes() == t.moov@ && m.mvhd.timescale == movie_timescale(
                        old(self).info->Some_0.timebase,
                    ) && m.mvhd.duration == 0 && m.mvex is None && m.tracks@.len() == old(
                        self,
                    ).tracks@.len() && forall|i: int|
                        0 <= i < m.tracks@.len() ==> builder_made(
                            old(self).info,
                            old(self).tracks@[i],
                            i,
                            #[trigger] m.tracks@[i],
                        )
            },
            old(self).info is Some && timebase_ok(old(self).info->Some_0.timebase)
                && old(self).tracks@.len() < u32::MAX && (forall|i: int|
                0 <= i < old(self).tracks@.len() ==> #[trigger] builder_can_be_made(
                    old(self).info,
                    old(self).tracks@[i],
                )) ==> r is Ok || r == Err::<Trailer, _>(Mp4MuxerError::FileTooLarge),
            r == Err::<Trailer, _>(Mp4MuxerError::FileTooLarge) ==> old(self).tracks@.len()
                >= 0xFFFF_FFFE || exists|m: MovieBox|
                m.tracks@.len() == old(
                    self,
                ).tracks@.len() && (forall|i: int|
                    0 <= i < m.tracks@.len() ==> builder_made(
                        old(self).info,
                        old(self).tracks@[i],
                        i,
                        #[trigger] m.tracks@[i],
                    )) && m.mvhd.timescale == movie_timescale(old(self).info->Some_0.timebase)
                    && m.mvex is None && #[trigger] total_with_header(m.spec_contents().len()) > u64::MAX,
    {
        let timebase = match &self.info {
            None => {
                return Err(Mp4MuxerError::MissingInfo);
            },
            Some(info) => info.timebase,
        };
        let ts = match timebase {
            Some(t) => timescale(t)?,
            None => 10_000,
        };
        let traks = self.take_tracks()?;
        let moov = MovieBox::new(MovieHeaderBox::new(ts, 0), None, traks);
        if !moov.fits() {
            return Err(Mp4MuxerError::FileTooLarge);
        }
        let mut out: Vec<u8> = Vec::new();
        moov.write(&mut out);
        assert(out@ =~= moov.spec_bytes());
        assert(forall|i: int| 0 <= i < moov.tracks@.len() ==> builder_made(
            old(self).info,
            old(self).tracks@[i],
            i,
            #[trigger] moov.tracks@[i],
        ));
        let mut patch: Vec<u8> = Vec::new();
        push_u64(&mut patch, self.mdat_offset - self.mdat_start);
        Ok(Trailer { moov: out, patch_position: self.mdat_start + 8, patch })
    }
}

} // verus!

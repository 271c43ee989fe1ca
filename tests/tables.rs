use av_mp4::bridge::{get_sample_entry_for_codec, CodecParams, VideoInfo};
use av_mp4::builder::PacketInfo;
use av_mp4::containers::SampleTableBox;
use av_mp4::error::{Mp4BoxError, Mp4MuxerError};
use av_mp4::framing::{write_header, BoxPrint, CO64, STBL, STCO};
use av_mp4::index::Track;
use av_mp4::muxer::Mp4Muxer;
use av_mp4::stsd::SampleDescriptionBox;
use av_mp4::tables::{
    ChunkOffsetBox, ChunkOffsets, SampleSizeBox, SampleSizes, SampleToChunkBox,
    SampleToChunkEntry, TimeToSampleBox, TimeToSampleEntry,
};

fn avc_entry() -> av_mp4::stsd::SampleEntry {
    get_sample_entry_for_codec(&CodecParams {
        codec_id: Some(b"h264".to_vec()),
        video: Some(VideoInfo { width: 16, height: 16, format: None }),
        extradata: Some(vec![0, 0, 1, 0x67, 0x42, 0, 0x1E]),
    })
    .unwrap()
}

#[test]
fn stbl_without_chunk_offsets() {
    let stsd = SampleDescriptionBox::new(vec![avc_entry()]);
    let stts = TimeToSampleBox::new(vec![TimeToSampleEntry { count: 1, delta: 1 }]);
    let stsc = SampleToChunkBox::new(vec![SampleToChunkEntry { first_chunk: 1, samples_per_chunk: 1, sample_description_index: 1 }]);
    let stsz = SampleSizeBox::new(SampleSizes::Constant(4, 1));
    let mut body = Vec::new();
    stsd.write(&mut body);
    stts.write(&mut body);
    stsc.write(&mut body);
    stsz.write(&mut body);
    let mut out = Vec::new();
    write_header(&mut out, STBL, body.len() as u64);
    out.extend_from_slice(&body);
    let mut pos = 0;
    assert_eq!(
        SampleTableBox::read(&out, &mut pos).err(),
        Some(Mp4BoxError::RequiredEitherBoxesNotFound(BoxPrint(CO64), BoxPrint(STCO)))
    );
}

#[test]
fn stbl_with_32_bit_offsets_round_trip() {
    let stbl = SampleTableBox::new(
        SampleDescriptionBox::new(vec![avc_entry()]),
        TimeToSampleBox::new(vec![TimeToSampleEntry { count: 4, delta: 512 }]),
        SampleToChunkBox::new(vec![SampleToChunkEntry { first_chunk: 1, samples_per_chunk: 2, sample_description_index: 1 }]),
        SampleSizeBox::new(SampleSizes::Variable(vec![10, 20, 30, 40])),
        ChunkOffsets::Stco(ChunkOffsetBox::new(vec![1000, 5000])),
        None,
    );
    let mut out = Vec::new();
    stbl.write(&mut out);
    assert_eq!(out.len() as u64, stbl.total_size());
    let mut pos = 0;
    let r = SampleTableBox::read(&out, &mut pos).unwrap();
    assert_eq!(pos, out.len());
    assert!(matches!(r.chunk_offsets, ChunkOffsets::Stco(_)));
    let offsets = r.chunk_offsets.to_vec();
    let sync = r.stss.map(|s| s.sync_samples);
    let sizes = r.stsz.sample_sizes;
    let mut t = Track::from_tables(1, 0, 512, 0, &r.stts.entries, &r.stsc.entries, offsets, sizes, sync, avc_entry()).unwrap();
    let mut got = Vec::new();
    while let Some(s) = t.current_sample() {
        got.push((s.time, s.data_offset, s.data_length, s.keyframe));
        t.advance_sample();
    }
    assert_eq!(got, vec![(0, 1000, 10, true), (512, 1010, 20, true), (1024, 5000, 30, true), (1536, 5030, 40, true)]);
}

#[test]
fn trailer_without_global_info() {
    let mut m = Mp4Muxer::new();
    let _ = m.write_header();
    let p = PacketInfo { stream_index: 0, size: 3, pts: None, dts: None, duration: Some(1), is_key: true };
    assert_eq!(m.write_packet(&p), Ok(36));
    assert_eq!(m.write_packet(&p), Ok(39));
    assert!(matches!(m.write_trailer(), Err(Mp4MuxerError::MissingInfo)));
}

#[test]
fn sample_counts_must_agree() {
    let stts = [TimeToSampleEntry { count: 3, delta: 1 }];
    let stsc = [SampleToChunkEntry { first_chunk: 1, samples_per_chunk: 3, sample_description_index: 1 }];
    let r = Track::from_tables(1, 0, 1, 0, &stts, &stsc, vec![0], SampleSizes::Variable(vec![1, 2]), None, avc_entry());
    assert!(matches!(r, Err(Mp4BoxError::InvalidSampleTable)));
}

#[test]
fn unsorted_sync_samples_are_rejected() {
    let stts = [TimeToSampleEntry { count: 3, delta: 1 }];
    let stsc = [SampleToChunkEntry { first_chunk: 1, samples_per_chunk: 3, sample_description_index: 1 }];
    let r = Track::from_tables(1, 0, 1, 0, &stts, &stsc, vec![0], SampleSizes::Constant(2, 3), Some(vec![2, 1]), avc_entry());
    assert!(matches!(r, Err(Mp4BoxError::InvalidSampleTable)));
}

#[test]
fn zero_count_time_entries_are_skipped() {
    let stts = [
        TimeToSampleEntry { count: 2, delta: 10 },
        TimeToSampleEntry { count: 0, delta: 99 },
        TimeToSampleEntry { count: 1, delta: 5 },
    ];
    let stsc = [SampleToChunkEntry { first_chunk: 1, samples_per_chunk: 3, sample_description_index: 1 }];
    let mut t = Track::from_tables(1, 0, 1, 0, &stts, &stsc, vec![0], SampleSizes::Constant(2, 3), None, avc_entry()).unwrap();
    let mut got = Vec::new();
    while let Some(s) = t.current_sample() {
        got.push((s.time, s.duration));
        t.advance_sample();
    }
    assert_eq!(got, vec![(0, 10), (10, 10), (20, 5)]);
}

#[test]
fn chunk_past_64_bit_offsets_is_rejected() {
    let stts = [TimeToSampleEntry { count: 2, delta: 1 }];
    let stsc = [SampleToChunkEntry { first_chunk: 1, samples_per_chunk: 2, sample_description_index: 1 }];
    let r = Track::from_tables(1, 0, 1, 0, &stts, &stsc, vec![u64::MAX - 5], SampleSizes::Constant(4, 2), None, avc_entry());
    assert!(matches!(r, Err(Mp4BoxError::InvalidSampleTable)));
    let ok = Track::from_tables(1, 0, 1, 0, &stts, &stsc, vec![u64::MAX - 8], SampleSizes::Constant(4, 2), None, avc_entry());
    assert!(ok.is_ok());
}

#[test]
fn sample_entry_with_other_data_reference_index_is_kept() {
    let mut e = match avc_entry() {
        av_mp4::stsd::SampleEntry::Avc(e) => e,
        _ => panic!("not avc"),
    };
    e.visual_sample_entry.sample_entry.data_reference_index = 2;
    let stsd = SampleDescriptionBox::new(vec![av_mp4::stsd::SampleEntry::Avc(e)]);
    let mut out = Vec::new();
    stsd.write(&mut out);
    let mut pos = 0;
    let r = SampleDescriptionBox::read(&out, &mut pos).unwrap();
    match &r.entries[0] {
        av_mp4::stsd::SampleEntry::Avc(e) => assert_eq!(e.visual_sample_entry.sample_entry.data_reference_index, 2),
        _ => panic!("not avc"),
    }
}

#[test]
fn stsd_skips_unknown_entries() {
    let known = SampleDescriptionBox::new(vec![avc_entry()]);
    let mut one = Vec::new();
    known.write(&mut one);
    // the entry after the full-box header and the count
    let entry = one[16..].to_vec();
    let unknown = [0u8, 0, 0, 12, b'a', b'b', b'c', b'd', 1, 2, 3, 4];
    let mut body = Vec::new();
    body.extend_from_slice(&[0, 0, 0, 0]);
    body.extend_from_slice(&2u32.to_be_bytes());
    body.extend_from_slice(&unknown);
    body.extend_from_slice(&entry);
    let mut out = Vec::new();
    write_header(&mut out, av_mp4::framing::STSD, body.len() as u64);
    out.extend_from_slice(&body);
    let mut pos = 0;
    let r = SampleDescriptionBox::read(&out, &mut pos).unwrap();
    assert_eq!(r.entries.len(), 1);
    assert!(matches!(r.entries[0], av_mp4::stsd::SampleEntry::Avc(_)));
    assert_eq!(pos, out.len());
}

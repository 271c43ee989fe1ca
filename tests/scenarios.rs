use av_mp4::bridge::{CodecParams, PixelFormat, VideoFormat, VideoInfo};
use av_mp4::builder::{PacketInfo, TrackChunkBuilder};
use av_mp4::containers::MovieBox;
use av_mp4::demuxer::{scan_step, Mp4Demuxer, Packet, ScanStep, StreamInfo};
use av_mp4::framing::{read_box_header, write_header, MDAT, MOOV};
use av_mp4::index::Track;
use av_mp4::muxer::{GlobalInfo, Mp4Muxer};
use av_mp4::stsd::SampleEntry;
use av_mp4::tables::{ChunkOffsets, SampleSizes, SampleToChunkEntry, TimeToSampleEntry};

fn vp9_params(width: usize, height: usize) -> CodecParams {
    CodecParams {
        codec_id: Some(b"vp9".to_vec()),
        video: Some(VideoInfo {
            width,
            height,
            format: Some(VideoFormat {
                pixel_format: PixelFormat::Yuv420,
                colour_primaries: 1,
                transfer_characteristics: 1,
                matrix_coefficients: 1,
            }),
        }),
        extradata: Some(vec![1, 1, 0, 2, 1, 10, 3, 1, 8, 4, 1, 0]),
    }
}

fn avc_params() -> CodecParams {
    CodecParams {
        codec_id: Some(b"h264".to_vec()),
        video: Some(VideoInfo { width: 320, height: 240, format: None }),
        extradata: Some(vec![0, 0, 1, 0x67, 0x42, 0xC0, 0x1E, 0xAA, 0, 0, 1, 0x68, 0xCE, 0x3C, 0x80]),
    }
}

fn stream(index: usize, timescale: i64, params: CodecParams) -> StreamInfo {
    StreamInfo { id: index as u32 + 1, index, timebase: (1, timescale), duration: None, params }
}

fn packet(stream_index: isize, size: u32, duration: u64, is_key: bool) -> PacketInfo {
    PacketInfo { stream_index, size, pts: None, dts: None, duration: Some(duration), is_key }
}

/// Muxes the packets, filling each payload with bytes that tell packets apart.
fn mux(streams: Vec<StreamInfo>, timescale: i64, packets: &[(PacketInfo, Vec<u8>)]) -> Vec<u8> {
    let mut m = Mp4Muxer::new();
    m.set_global_info(GlobalInfo { timebase: Some((1, timescale)), streams });
    let mut file = m.write_header();
    for (p, data) in packets {
        let offset = m.write_packet(p).unwrap();
        assert_eq!(offset as usize, file.len());
        file.extend_from_slice(data);
    }
    let t = m.write_trailer().unwrap();
    file.extend_from_slice(&t.moov);
    let at = t.patch_position as usize;
    file[at..at + 8].copy_from_slice(&t.patch);
    file
}

fn demux(file: &[u8]) -> (Mp4Demuxer, Vec<Packet>) {
    let mut d = Mp4Demuxer::new();
    d.read_headers(file).unwrap();
    let mut out = Vec::new();
    while let Some(p) = d.read_next_event(file).unwrap() {
        out.push(p);
    }
    (d, out)
}

fn payload(tag: u8, size: u32) -> Vec<u8> {
    (0..size).map(|i| tag.wrapping_add(i as u8)).collect()
}

fn be32(b: &[u8]) -> u32 {
    u32::from_be_bytes([b[0], b[1], b[2], b[3]])
}

#[test]
fn minimal_vp9_mux_demux() {
    let sizes = [1000u32, 500, 800];
    let packets: Vec<(PacketInfo, Vec<u8>)> = sizes
        .iter()
        .enumerate()
        .map(|(i, &s)| (packet(0, s, 1001, true), payload(i as u8 * 7, s)))
        .collect();
    let file = mux(vec![stream(0, 30000, vp9_params(640, 480))], 30000, &packets);

    // ftyp("isom", 0, ["iso5"])
    assert_eq!(&file[0..20], &[0, 0, 0, 20, b'f', b't', b'y', b'p', b'i', b's', b'o', b'm', 0, 0, 0, 0, b'i', b's', b'o', b'5']);
    // mdat in the 16-byte form, holding the three payloads
    assert_eq!(&file[20..28], &[0, 0, 0, 1, b'm', b'd', b'a', b't']);
    assert_eq!(u64::from_be_bytes(file[28..36].try_into().unwrap()), 16 + 2300);

    let mut pos = 36 + 2300;
    let moov = MovieBox::read(&file, &mut pos).unwrap();
    assert_eq!(pos, file.len());
    assert_eq!(moov.mvhd.timescale, 30000);
    assert_eq!(moov.mvhd.duration, 0);
    assert_eq!(moov.tracks.len(), 1);
    let trak = &moov.tracks[0];
    assert_eq!(trak.tkhd.track_id, 1);
    assert_eq!(trak.mdia.mdhd.timescale, 30000);
    assert_eq!(trak.mdia.hdlr.handler_type, u32::from_be_bytes(*b"vide"));
    assert_eq!(trak.mdia.hdlr.name, b"Video Handler".to_vec());
    let stbl = &trak.mdia.minf.stbl;
    assert!(matches!(stbl.stsd.entries[0], SampleEntry::Vp9(_)));
    assert_eq!(stbl.stts.entries, vec![TimeToSampleEntry { count: 3, delta: 1001 }]);
    assert_eq!(
        stbl.stsc.entries,
        vec![SampleToChunkEntry { first_chunk: 1, samples_per_chunk: 3, sample_description_index: 1 }]
    );
    match &stbl.stsz.sample_sizes {
        SampleSizes::Variable(v) => assert_eq!(v, &vec![1000, 500, 800]),
        _ => panic!("constant sizes"),
    }
    match &stbl.chunk_offsets {
        ChunkOffsets::Co64(b) => assert_eq!(b.chunk_offsets, vec![36]),
        _ => panic!("32-bit offsets"),
    }
    assert_eq!(stbl.stss.as_ref().unwrap().sync_samples, vec![1, 2, 3]);

    let (_, out) = demux(&file);
    assert_eq!(out.len(), 3);
    let times: Vec<u64> = out.iter().map(|p| p.time).collect();
    assert_eq!(times, vec![0, 1001, 2002]);
    for (i, p) in out.iter().enumerate() {
        assert_eq!(p.duration, 1001);
        assert!(p.is_key);
        assert_eq!(p.data, packets[i].1);
    }
}

fn tables_track(
    stts: &[TimeToSampleEntry],
    stsc: &[SampleToChunkEntry],
    offsets: Vec<u64>,
    sizes: SampleSizes,
    sync: Option<Vec<u32>>,
) -> Track {
    let entry = av_mp4::bridge::get_sample_entry_for_codec(&avc_params()).unwrap();
    Track::from_tables(1, 0, 1000, 0, stts, stsc, offsets, sizes, sync, entry).unwrap()
}

#[test]
fn avc_sync_subset() {
    let stts = [TimeToSampleEntry { count: 90, delta: 1 }];
    let stsc = [SampleToChunkEntry { first_chunk: 1, samples_per_chunk: 90, sample_description_index: 1 }];
    let mut t = tables_track(&stts, &stsc, vec![0], SampleSizes::Constant(10, 90), Some(vec![1, 31, 61]));
    let mut keys = Vec::new();
    while let Some(s) = t.current_sample() {
        if s.keyframe {
            keys.push(t.current_sample);
        }
        t.advance_sample();
    }
    assert_eq!(keys, vec![0, 30, 60]);
}

#[test]
fn multi_chunk_stsc() {
    let stts = [TimeToSampleEntry { count: 19, delta: 10 }];
    let stsc = [
        SampleToChunkEntry { first_chunk: 1, samples_per_chunk: 2, sample_description_index: 1 },
        SampleToChunkEntry { first_chunk: 3, samples_per_chunk: 5, sample_description_index: 1 },
    ];
    let sizes: Vec<u32> = (0..19).map(|i| 100 + i).collect();
    let offsets = vec![0x1000, 0x2000, 0x3000, 0x4000, 0x5000];
    let mut t = tables_track(&stts, &stsc, offsets, SampleSizes::Variable(sizes.clone()), None);
    assert_eq!(t.chunk_samples, vec![2, 2, 5, 5, 5]);
    assert_eq!(t.sample_count, 19);
    let mut all = Vec::new();
    while let Some(s) = t.current_sample() {
        all.push(s);
        t.advance_sample();
    }
    assert_eq!(all.len(), 19);
    assert_eq!(all[4].data_offset, 0x3000);
    assert_eq!(all[5].data_offset, 0x3000 + sizes[4] as u64);
    assert_eq!(all[9].data_offset, 0x4000);
    assert_eq!(all[18].data_offset, 0x5000 + (sizes[14] + sizes[15] + sizes[16] + sizes[17]) as u64);
    assert_eq!(all[18].time, 180);
}

#[test]
fn stsc_overrunning_chunks_is_rejected() {
    let stts = [TimeToSampleEntry { count: 4, delta: 10 }];
    let stsc = [
        SampleToChunkEntry { first_chunk: 1, samples_per_chunk: 2, sample_description_index: 1 },
        SampleToChunkEntry { first_chunk: 3, samples_per_chunk: 2, sample_description_index: 1 },
    ];
    let entry = av_mp4::bridge::get_sample_entry_for_codec(&vp9_params(16, 16)).unwrap();
    let r = Track::from_tables(1, 0, 1000, 0, &stts, &stsc, vec![0, 100], SampleSizes::Constant(5, 4), None, entry);
    assert!(matches!(r, Err(av_mp4::error::Mp4BoxError::InvalidSampleTable)));
}

#[test]
fn two_track_interleave() {
    let mut a = TrackChunkBuilder::new(0);
    let mut b = TrackChunkBuilder::new(1);
    let order = [0isize, 0, 0, 1, 0, 1, 1];
    let mut prev = 0isize;
    for (i, &s) in order.iter().enumerate() {
        let p = packet(s, 10, 1, true);
        let builder = if s == 0 { &mut a } else { &mut b };
        builder.add_packet(prev, i as u64 * 10, &p).unwrap();
        prev = s;
    }
    a.flush();
    b.flush();
    let e = |first_chunk, samples_per_chunk| SampleToChunkEntry { first_chunk, samples_per_chunk, sample_description_index: 1 };
    assert_eq!(a.chunks, vec![e(1, 3), e(2, 1)]);
    assert_eq!(a.offsets, vec![0, 40]);
    assert_eq!(b.chunks, vec![e(1, 1), e(2, 2)]);
    assert_eq!(b.offsets, vec![30, 50]);
}

#[test]
fn large_box_header() {
    let mut out = Vec::new();
    let content = 5u64 << 30;
    write_header(&mut out, MDAT, content);
    assert_eq!(out.len(), 16);
    assert_eq!(&out[0..8], &[0, 0, 0, 1, b'm', b'd', b'a', b't']);
    assert_eq!(u64::from_be_bytes(out[8..16].try_into().unwrap()), 5 * (1u64 << 30) + 16);
}

#[test]
fn stts_run_length_merge() {
    let mut b = TrackChunkBuilder::new(0);
    for d in [33u64, 33, 33, 34, 34, 33] {
        b.add_packet(0, 0, &packet(0, 1, d, false)).unwrap();
    }
    b.flush();
    assert_eq!(
        b.times,
        vec![
            TimeToSampleEntry { count: 3, delta: 33 },
            TimeToSampleEntry { count: 2, delta: 34 },
            TimeToSampleEntry { count: 1, delta: 33 },
        ]
    );
}

#[test]
fn stts_from_timestamps() {
    let mut b = TrackChunkBuilder::new(0);
    for ts in [0i64, 40, 80, 120] {
        let p = PacketInfo { stream_index: 0, size: 1, pts: None, dts: Some(ts), duration: None, is_key: false };
        b.add_packet(0, 0, &p).unwrap();
    }
    b.flush();
    assert_eq!(b.times, vec![TimeToSampleEntry { count: 4, delta: 40 }]);
}

#[test]
fn packet_without_time_is_invalid_timing() {
    let mut b = TrackChunkBuilder::new(0);
    let p = PacketInfo { stream_index: 0, size: 1, pts: None, dts: None, duration: None, is_key: false };
    assert_eq!(b.add_packet(0, 0, &p), Err(av_mp4::error::Mp4MuxerError::InvalidTiming));
}

#[test]
fn header_round_trip() {
    for content in [0u64, 1, 7, 8, (1 << 32) - 9, (1 << 32) - 8, (1 << 32) - 7, 1 << 40] {
        let mut out = Vec::new();
        write_header(&mut out, MOOV, content);
        let long = content + 8 > u32::MAX as u64;
        assert_eq!(out.len(), if long { 16 } else { 8 });
        let mut pos = 0;
        let (name, size, rest) = read_box_header(&out, &mut pos).unwrap();
        assert_eq!(name, MOOV);
        assert_eq!(rest, content);
        assert_eq!(size - rest, out.len() as u64);
    }
}

fn remux(file: &[u8]) -> Vec<u8> {
    let mut d = Mp4Demuxer::new();
    d.read_headers(file).unwrap();
    let streams = d.streams().unwrap();
    let mut packets = Vec::new();
    while let Some(p) = d.read_next_event(file).unwrap() {
        let info = PacketInfo {
            stream_index: p.stream_index as isize,
            size: p.data.len() as u32,
            pts: Some(p.time as i64),
            dts: Some(p.time as i64),
            duration: Some(p.duration as u64),
            is_key: p.is_key,
        };
        packets.push((info, p.data));
    }
    let timescale = streams[0].timebase.1;
    mux(streams, timescale, &packets)
}

fn summary(packets: &[Packet]) -> Vec<(usize, u64, bool, Vec<u8>)> {
    packets.iter().map(|p| (p.stream_index, p.time, p.is_key, p.data.clone())).collect()
}

#[test]
fn demux_mux_round_trip_avc_and_vp9() {
    let mut packets = Vec::new();
    for i in 0..6u32 {
        packets.push((packet(0, 50 + i, 1000, i % 3 == 0), payload(i as u8, 50 + i)));
        packets.push((packet(1, 30 + i, 2000, i == 0), payload(100 + i as u8, 30 + i)));
    }
    let file = mux(
        vec![stream(0, 30000, vp9_params(64, 48)), stream(1, 30000, avc_params())],
        30000,
        &packets,
    );
    let (d, first) = demux(&file);
    assert_eq!(d.tracks.len(), 2);
    assert_eq!(first.len(), 12);
    let second_file = remux(&file);
    let (_, second) = demux(&second_file);
    assert_eq!(summary(&first), summary(&second));
    // and once more: a fixed point
    let third_file = remux(&second_file);
    let (_, third) = demux(&third_file);
    assert_eq!(summary(&second), summary(&third));
    assert_eq!(second_file, third_file);
}

#[test]
fn tracks_interleave_by_time_then_index() {
    let mut packets = Vec::new();
    for i in 0..3u32 {
        packets.push((packet(0, 10, 100, true), payload(i as u8, 10)));
    }
    for i in 0..3u32 {
        packets.push((packet(1, 10, 100, true), payload(50 + i as u8, 10)));
    }
    let file = mux(
        vec![stream(0, 1000, vp9_params(8, 8)), stream(1, 1000, vp9_params(8, 8))],
        1000,
        &packets,
    );
    let (_, out) = demux(&file);
    let order: Vec<(usize, u64)> = out.iter().map(|p| (p.stream_index, p.time)).collect();
    assert_eq!(order, vec![(0, 0), (1, 0), (0, 100), (1, 100), (0, 200), (1, 200)]);
}

#[test]
fn track_duration_comes_from_media_header() {
    let packets: Vec<(PacketInfo, Vec<u8>)> = (0..2).map(|i| (packet(0, 4, 10, true), payload(i, 4))).collect();
    let file = mux(vec![stream(0, 1000, vp9_params(8, 8))], 1000, &packets);
    let mut pos = 36 + 8;
    let mut moov = MovieBox::read(&file, &mut pos).unwrap();
    moov.tracks[0].mdia.mdhd.duration = 20;
    moov.tracks[0].tkhd.duration = 7;
    let trak = moov.tracks.remove(0);
    let t = Track::from_trak(0, trak).unwrap();
    assert_eq!(t.duration, 20);
    assert_eq!(t.as_stream().unwrap().duration, Some(20));
}

#[test]
fn scan_step_skips_to_moov() {
    let packets: Vec<(PacketInfo, Vec<u8>)> = vec![(packet(0, 4, 10, true), payload(0, 4))];
    let file = mux(vec![stream(0, 1000, vp9_params(8, 8))], 1000, &packets);
    assert_eq!(scan_step(&file[0..16], 0), Ok(ScanStep::SkipTo(20)));
    assert_eq!(scan_step(&file[20..36], 20), Ok(ScanStep::SkipTo(40)));
    match scan_step(&file[40..56], 40) {
        Ok(ScanStep::ReadMoov(size)) => assert_eq!(40 + size as usize, file.len()),
        other => panic!("{:?}", other),
    }
}

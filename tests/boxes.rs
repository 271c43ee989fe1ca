use av_mp4::bridge::{
    get_sample_entry_for_codec, get_vpx_codec_data, parse_vpx_codec_data, CodecParams,
    PixelFormat, VideoInfo,
};
use av_mp4::codec::{VpCodecConfigurationBox, VpCodecConfigurationRecord};
use av_mp4::containers::MovieBox;
use av_mp4::error::{Mp4BoxError, Mp4MuxerError};
use av_mp4::esds::{size_of_length, write_length, Descriptor};
use av_mp4::framing::{
    read_box_flags, write_box_flags, write_header, BoxPrint, Boks, FullBox, HDLR, MOOV, MVHD, STSD,
    TRAK,
};
use av_mp4::headers::{HandlerBox, MovieHeaderBox, TrackHeaderBox};
use av_mp4::stsd::SampleDescriptionBox;
use av_mp4::tables::{SampleSizeBox, SampleSizes, SyncSampleBox, TimeToSampleBox, TimeToSampleEntry};

#[test]
fn descriptor_length_round_trip() {
    let cases = [
        (0u32, 1u32),
        (0x7F, 1),
        (0x80, 2),
        (0x3FFF, 2),
        (0x4000, 3),
        (0x1F_FFFF, 3),
        (0x20_0000, 4),
        (0x0FFF_FFFF, 4),
    ];
    for (v, n) in cases {
        assert_eq!(size_of_length(v), n);
        let mut out = vec![0x05u8];
        write_length(&mut out, v);
        assert_eq!(out.len() as u32, 1 + n);
        let mut pos = 0;
        let d = Descriptor::read(&out, &mut pos, 0x05).unwrap();
        assert_eq!(d.size, v);
        assert_eq!(pos, out.len());
        assert_eq!(d.read_size as u32, 1 + n);
    }
}

#[test]
fn descriptor_length_bytes() {
    let mut out = Vec::new();
    write_length(&mut out, 0x80);
    assert_eq!(out, vec![0x81, 0x00]);
}

#[test]
fn descriptor_unexpected_tag() {
    let data = [0x04u8, 0x00];
    let mut pos = 0;
    assert_eq!(Descriptor::read(&data, &mut pos, 0x03), Err(Mp4BoxError::UnexpectedTag(0x03, 0x04)));
}

#[test]
fn header_errors() {
    let mut pos = 0;
    assert_eq!(Boks::read(&[0, 0, 0], &mut pos).err(), Some(Mp4BoxError::UnexpectedEos));
    let zero = [0u8, 0, 0, 0, b'm', b'o', b'o', b'v'];
    assert_eq!(
        Boks::read(&zero, &mut pos).err(),
        Some(Mp4BoxError::InvalidBoxSize(BoxPrint(MOOV), 0))
    );
    let mut out = Vec::new();
    write_header(&mut out, TRAK, 0);
    let mut pos = 0;
    assert_eq!(
        Boks::read_named(&out, &mut pos, MOOV).err(),
        Some(Mp4BoxError::UnexpectedName(BoxPrint(MOOV), BoxPrint(TRAK)))
    );
}

#[test]
fn full_box_extension_round_trip() {
    let mut out = Vec::new();
    write_box_flags(&mut out, 1, 0x00_0102);
    assert_eq!(out, vec![1, 0, 1, 2]);
    let mut pos = 0;
    assert_eq!(read_box_flags(&out, &mut pos).unwrap(), (1, 0x102));
}

#[test]
fn full_box_sizes() {
    let f = FullBox::new(MVHD, 1, 0);
    assert_eq!(f.size(108), 120);
    let b = Boks::new(MOOV);
    assert_eq!(b.size(0xFFFF_FFF7), 0xFFFF_FFFF);
    assert_eq!(b.size(0xFFFF_FFF8), 0x1_0000_0008);
}

#[test]
fn stts_round_trip() {
    let b = TimeToSampleBox::new(vec![TimeToSampleEntry { count: 3, delta: 1001 }, TimeToSampleEntry { count: 1, delta: 7 }]);
    let mut out = Vec::new();
    b.write(&mut out);
    assert_eq!(out.len() as u64, b.total_size());
    assert_eq!(out.len(), 12 + 4 + 16);
    let mut pos = 0;
    let r = TimeToSampleBox::read(&out, &mut pos).unwrap();
    assert_eq!(r.entries, b.entries);
    assert_eq!(pos, out.len());
}

#[test]
fn stsz_constant_form() {
    let b = SampleSizeBox::new(SampleSizes::Constant(512, 40));
    let mut out = Vec::new();
    b.write(&mut out);
    assert_eq!(&out[12..20], &[0, 0, 2, 0, 0, 0, 0, 40]);
    let mut pos = 0;
    let r = SampleSizeBox::read(&out, &mut pos).unwrap();
    match r.sample_sizes {
        SampleSizes::Constant(s, n) => assert_eq!((s, n), (512, 40)),
        _ => panic!("variable sizes"),
    }
}

#[test]
fn stss_round_trip() {
    let b = SyncSampleBox::new(vec![1, 31, 61]);
    let mut out = Vec::new();
    b.write(&mut out);
    let mut pos = 0;
    assert_eq!(SyncSampleBox::read(&out, &mut pos).unwrap().sync_samples, vec![1, 31, 61]);
}

#[test]
fn mvhd_writes_version_1_identity_matrix() {
    let b = MovieHeaderBox::new(30000, 0);
    let mut out = Vec::new();
    b.write(&mut out);
    assert_eq!(out.len(), 120);
    assert_eq!(out[8], 1);
    assert_eq!(&out[12 + 16..12 + 20], &30000u32.to_be_bytes());
    assert_eq!(&out[12 + 44..12 + 48], &0x0001_0000u32.to_be_bytes());
    assert_eq!(&out[12 + 60..12 + 64], &0x0001_0000u32.to_be_bytes());
    assert_eq!(&out[12 + 76..12 + 80], &0x4000_0000u32.to_be_bytes());
    let mut pos = 0;
    let r = MovieHeaderBox::read(&out, &mut pos).unwrap();
    assert_eq!((r.timescale, r.duration), (30000, 0));
}

#[test]
fn mvhd_version_0_is_read() {
    let mut out = Vec::new();
    write_header(&mut out, MVHD, 100);
    write_box_flags(&mut out, 0, 0);
    let mut contents = vec![0u8; 96];
    contents[8..12].copy_from_slice(&600u32.to_be_bytes());
    contents[12..16].copy_from_slice(&1234u32.to_be_bytes());
    out.extend_from_slice(&contents);
    let mut pos = 0;
    let r = MovieHeaderBox::read(&out, &mut pos).unwrap();
    assert_eq!((r.timescale, r.duration), (600, 1234));
}

#[test]
fn mvhd_version_2_is_unsupported() {
    let mut out = Vec::new();
    write_header(&mut out, MVHD, 100);
    write_box_flags(&mut out, 2, 0);
    out.extend_from_slice(&[0u8; 96]);
    let mut pos = 0;
    assert_eq!(MovieHeaderBox::read(&out, &mut pos).err(), Some(Mp4BoxError::UnsupportedVersion(BoxPrint(MVHD), 2)));
}

#[test]
fn tkhd_round_trip() {
    let b = TrackHeaderBox::new(3, 7, 99, av_mp4::framing::I16F16::from_int(640), av_mp4::framing::I16F16::from_int(480));
    let mut out = Vec::new();
    b.write(&mut out);
    assert_eq!(out.len() as u64, b.total_size());
    let mut pos = 0;
    let r = TrackHeaderBox::read(&out, &mut pos).unwrap();
    assert_eq!((r.track_id, r.duration, r.width.raw(), r.height.raw()), (7, 99, 640 << 16, 480 << 16));
    assert_eq!(r.full_box.flags, 3);
}

#[test]
fn hdlr_name_and_utf8() {
    let b = HandlerBox::new(u32::from_be_bytes(*b"vide"), b"Video Handler".to_vec());
    let mut out = Vec::new();
    b.write(&mut out);
    let mut pos = 0;
    let r = HandlerBox::read(&out, &mut pos).unwrap();
    assert_eq!(r.name, b"Video Handler".to_vec());

    let bad = HandlerBox::new(0, vec![0xC3, 0x28]);
    let mut out = Vec::new();
    bad.write(&mut out);
    let mut pos = 0;
    assert_eq!(HandlerBox::read(&out, &mut pos).err(), Some(Mp4BoxError::InvalidUtf8));

    let accented = HandlerBox::new(0, "Vidéo".as_bytes().to_vec());
    let mut out = Vec::new();
    accented.write(&mut out);
    let mut pos = 0;
    assert_eq!(HandlerBox::read(&out, &mut pos).unwrap().name, "Vidéo".as_bytes().to_vec());
    let _ = HDLR;
}

#[test]
fn moov_without_track() {
    let mvhd = MovieHeaderBox::new(1000, 0);
    let moov = MovieBox::new(mvhd, None, Vec::new());
    let mut out = Vec::new();
    moov.write(&mut out);
    let mut pos = 0;
    assert_eq!(MovieBox::read(&out, &mut pos).err(), Some(Mp4BoxError::NotEnoughBoxes(BoxPrint(TRAK), 1, 0)));
}

#[test]
fn moov_without_header() {
    let mut out = Vec::new();
    write_header(&mut out, MOOV, 0);
    let mut pos = 0;
    assert_eq!(MovieBox::read(&out, &mut pos).err(), Some(Mp4BoxError::RequiredBoxNotFound(BoxPrint(MVHD))));
}

#[test]
fn stsd_with_only_unknown_entries() {
    let mut out = Vec::new();
    write_header(&mut out, STSD, 4 + 4 + 8);
    write_box_flags(&mut out, 0, 0);
    out.extend_from_slice(&1u32.to_be_bytes());
    out.extend_from_slice(&[0, 0, 0, 8, b'a', b'b', b'c', b'd']);
    let mut pos = 0;
    assert_eq!(
        SampleDescriptionBox::read(&out, &mut pos).err(),
        Some(Mp4BoxError::UnsupportedSampleEntry(BoxPrint(u32::from_be_bytes(*b"abcd"))))
    );
}

#[test]
fn vpcc_with_initialization_data() {
    let data = [0u8, 10, 0x80, 1, 1, 1, 0, 3];
    let mut pos = 0;
    assert_eq!(
        VpCodecConfigurationRecord::read(&data, &mut pos).err(),
        Some(Mp4BoxError::UnexpectedInitializationData(3))
    );
}

fn vp9_config(profile: u8, bit_depth: u8, chroma_subsampling: u8) -> VpCodecConfigurationBox {
    VpCodecConfigurationBox::new(VpCodecConfigurationRecord {
        profile,
        level: 31,
        bit_depth,
        chroma_subsampling,
        video_full_range_flags: 1,
        colour_primaries: 9,
        transfer_characteristics: 16,
        matrix_coefficients: 9,
    })
}

#[test]
fn vpcc_round_trip() {
    let b = vp9_config(2, 10, 1);
    let mut out = Vec::new();
    b.write(&mut out);
    assert_eq!(out.len(), 20);
    assert_eq!(out[14], (10 << 4) | (1 << 1) | 1);
    let mut pos = 0;
    let r = VpCodecConfigurationBox::read(&out, &mut pos).unwrap();
    assert_eq!(r.config, b.config);
}

#[test]
fn vp9_pixel_formats() {
    let table = [
        (0, 8, 0, PixelFormat::Yuv420),
        (2, 10, 0, PixelFormat::Yuv420P10),
        (1, 8, 0, PixelFormat::Yuv422),
        (3, 10, 0, PixelFormat::Yuv422P10),
        (1, 8, 2, PixelFormat::Yuv444),
        (3, 10, 2, PixelFormat::Yuv444P10),
    ];
    for (p, b, c, f) in table {
        let d = get_vpx_codec_data(&vp9_config(p, b, c)).unwrap();
        assert_eq!(d.format.pixel_format, f);
        assert_eq!(d.format.colour_primaries, 9);
        assert_eq!(d.extradata, vec![1, 1, p, 2, 1, 31, 3, 1, b, 4, 1, c]);
    }
    assert_eq!(
        get_vpx_codec_data(&vp9_config(0, 12, 0)).err(),
        Some(Mp4MuxerError::UnsupportedCodec(b"vp9".to_vec()))
    );
}

#[test]
fn vp9_features_missing() {
    assert_eq!(parse_vpx_codec_data(&[2, 1, 10, 3, 1, 8, 4, 1, 0]), Err(Mp4MuxerError::MissingCodecFeature(1)));
    assert_eq!(parse_vpx_codec_data(&[1, 1, 0, 3, 1, 8, 4, 1, 0]), Err(Mp4MuxerError::MissingCodecFeature(2)));
    assert_eq!(parse_vpx_codec_data(&[1, 1, 0, 2, 1, 10, 4, 1, 0]), Err(Mp4MuxerError::MissingCodecFeature(3)));
    assert_eq!(parse_vpx_codec_data(&[1, 1, 0, 2, 1, 10, 3, 1, 8]), Err(Mp4MuxerError::MissingCodecFeature(4)));
    let f = parse_vpx_codec_data(&[9, 2, 7, 7, 1, 1, 1, 2, 1, 10, 3, 1, 8, 4, 1, 0]).unwrap();
    assert_eq!((f.profile, f.level, f.bit_depth, f.chroma_subsampling), (1, 10, 8, 0));
}

#[test]
fn codec_bridge_errors() {
    let none = CodecParams { codec_id: None, video: None, extradata: None };
    assert_eq!(get_sample_entry_for_codec(&none).err(), Some(Mp4MuxerError::MissingCodec));
    let opus = CodecParams { codec_id: Some(b"opus".to_vec()), video: None, extradata: None };
    assert_eq!(get_sample_entry_for_codec(&opus).err(), Some(Mp4MuxerError::UnsupportedCodec(b"opus".to_vec())));
    let vp9 = CodecParams {
        codec_id: Some(b"vp9".to_vec()),
        video: Some(VideoInfo { width: 4, height: 4, format: None }),
        extradata: None,
    };
    assert_eq!(get_sample_entry_for_codec(&vp9).err(), Some(Mp4MuxerError::MissingInfo));
}

#[test]
fn avc_extradata_round_trip() {
    let extradata = vec![0u8, 0, 1, 0x67, 0x64, 0x00, 0x28, 0xAC, 0, 0, 1, 0x68, 0xEE];
    let params = CodecParams {
        codec_id: Some(b"h264".to_vec()),
        video: Some(VideoInfo { width: 1920, height: 1080, format: None }),
        extradata: Some(extradata.clone()),
    };
    let entry = get_sample_entry_for_codec(&params).unwrap();
    match &entry {
        av_mp4::stsd::SampleEntry::Avc(e) => {
            assert_eq!(e.avcc.config.profile_indication, 0x64);
            assert_eq!(e.avcc.config.level_indication, 0x28);
            assert_eq!(e.visual_sample_entry.width, 1920);
        }
        _ => panic!("not avc"),
    }
    let back = entry.as_codec_params().unwrap();
    assert_eq!(back.codec_id, Some(b"h264".to_vec()));
    assert_eq!(back.extradata, Some(extradata));
}

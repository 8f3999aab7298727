use zenovdk::codec::aac::{parse_adts_header, parse_mpeg4_audio_config_bytes, MPEG4AudioConfig};
use zenovdk::codec::h264::{
    parse_slice_header_from_nalu, remove_h264_or_h265_emulation_bytes, split_nalus, NaluType,
    SliceType,
};
use zenovdk::codec::h265;
use zenovdk::utils::bits::GolombBitReader;

// ---------------------------------------------------------------------------
// Bit reader
// ---------------------------------------------------------------------------

#[test]
fn bits_read_fixed_width_values() {
    let data = [0b1010_0000u8, 0xff];
    let mut r = GolombBitReader::new(&data);
    assert_eq!(r.read_bits(3), Ok(5));
    assert_eq!(r.read_bit(), Ok(0));
    assert_eq!(r.read_bits(8), Ok(0x0f));
    assert_eq!(r.read_bits(0), Ok(0));
    assert_eq!(r.read_bits(4), Ok(0xf));
    assert_eq!(r.read_bit(), Err("EOF"));
}

#[test]
fn bits_read_thirty_two_bits() {
    let data = [0xde, 0xad, 0xbe, 0xef];
    let mut r = GolombBitReader::new(&data);
    assert_eq!(r.read_bits(32), Ok(0xdead_beef));
    assert_eq!(r.read_bit(), Err("EOF"));
}

#[test]
fn bits_read_past_end_fails() {
    let empty: [u8; 0] = [];
    let mut r = GolombBitReader::new(&empty);
    assert_eq!(r.read_bit(), Err("EOF"));
    let one = [0xffu8];
    let mut r = GolombBitReader::new(&one);
    assert_eq!(r.read_bits(9), Err("EOF"));
    // A failed read leaves the reader at the end.
    assert_eq!(r.read_bit(), Err("EOF"));
}

#[test]
fn bits_unsigned_exp_golomb_codes() {
    // 1 | 010 | 011 | 00100  ->  0, 1, 2, 3
    let data = [0xa6u8, 0x40];
    let mut r = GolombBitReader::new(&data);
    assert_eq!(r.read_exponential_golomb(), Ok(0));
    assert_eq!(r.read_exponential_golomb(), Ok(1));
    assert_eq!(r.read_exponential_golomb(), Ok(2));
    assert_eq!(r.read_exponential_golomb(), Ok(3));
}

#[test]
fn bits_signed_exp_golomb_codes() {
    // ue 1 -> +1, ue 2 -> -1, ue 3 -> +2, ue 0 -> 0
    let data = [0x4c, 0x90u8];
    let mut r = GolombBitReader::new(&data);
    assert_eq!(r.read_se(), Ok(1));
    assert_eq!(r.read_se(), Ok(-1));
    assert_eq!(r.read_se(), Ok(2));
    assert_eq!(r.read_se(), Ok(0));
}

#[test]
fn bits_exp_golomb_truncated_code_fails() {
    let data = [0x00u8, 0x01];
    let mut r = GolombBitReader::new(&data);
    // 15 zeros, a one, then no suffix bits left.
    assert_eq!(r.read_exponential_golomb(), Err("EOF"));
}

// ---------------------------------------------------------------------------
// AAC
// ---------------------------------------------------------------------------

#[test]
fn aac_adts_header_fields() {
    let frame = [0xff, 0xf1, 0x50, 0x80, 0x02, 0x1f, 0xfc];
    let (cfg, hdrlen, framelen, samples) = parse_adts_header(&frame).unwrap();
    assert_eq!(cfg.object_type, 2);
    assert_eq!(cfg.sample_rate_index, 4);
    assert_eq!(cfg.sample_rate, 44100);
    assert_eq!(cfg.channel_config, 2);
    assert_eq!(hdrlen, 7);
    assert_eq!(framelen, 16);
    assert_eq!(samples, 1024);
}

#[test]
fn aac_adts_header_with_crc_and_frame_count() {
    // Protection present (9-byte header), 48 kHz, mono, 3 raw blocks.
    let frame = [0xff, 0xf0, 0x4c, 0x40, 0x20, 0x00, 0x02];
    let (cfg, hdrlen, framelen, samples) = parse_adts_header(&frame).unwrap();
    assert_eq!(cfg.sample_rate_index, 3);
    assert_eq!(cfg.sample_rate, 48000);
    assert_eq!(cfg.channel_config, 1);
    assert_eq!(hdrlen, 9);
    assert_eq!(framelen, 256);
    assert_eq!(samples, 3 * 1024);
}

#[test]
fn aac_adts_header_errors() {
    assert_eq!(parse_adts_header(&[0xff, 0xf1, 0x50]).err(), Some("adts frame too short"));
    assert_eq!(
        parse_adts_header(&[0xfe, 0xf1, 0x50, 0x80, 0x02, 0x1f, 0xfc]).err(),
        Some("not adts header")
    );
    assert_eq!(
        parse_adts_header(&[0xff, 0xf7, 0x50, 0x80, 0x02, 0x1f, 0xfc]).err(),
        Some("not adts header")
    );
    assert_eq!(
        parse_adts_header(&[0xff, 0xf1, 0x50, 0x00, 0x02, 0x1f, 0xfc]).err(),
        Some("adts channel count invalid")
    );
    assert_eq!(
        parse_adts_header(&[0xff, 0xf1, 0x50, 0x80, 0x00, 0xc0, 0xfc]).err(),
        Some("adts framelen < hdrlen")
    );
}

#[test]
fn aac_adts_reserved_rate_index_keeps_zero_rate() {
    let frame = [0xff, 0xf1, 0x74, 0x80, 0x02, 0x1f, 0xfc];
    let (cfg, _, _, _) = parse_adts_header(&frame).unwrap();
    assert_eq!(cfg.sample_rate_index, 13);
    assert_eq!(cfg.sample_rate, 0);
}

#[test]
fn aac_audio_specific_config() {
    let cfg = parse_mpeg4_audio_config_bytes(&[0x12, 0x10]).unwrap();
    assert_eq!(cfg.object_type, 2);
    assert_eq!(cfg.sample_rate_index, 4);
    assert_eq!(cfg.sample_rate, 44100);
    assert_eq!(cfg.channel_config, 2);
}

#[test]
fn aac_audio_specific_config_escapes() {
    // object type 31 + 6 bits (5) -> 37; rate index 15 + 24-bit value 1234; channels 6.
    // 11111 000101 1111 000000000000010011010010 0110
    let cfg = parse_mpeg4_audio_config_bytes(&[0xf8, 0xbe, 0x00, 0x09, 0xa4, 0xc0]).unwrap();
    assert_eq!(cfg.object_type, 37);
    assert_eq!(cfg.sample_rate_index, 1234);
    assert_eq!(cfg.sample_rate, 0);
    assert_eq!(cfg.channel_config, 6);
}

#[test]
fn aac_audio_specific_config_truncated() {
    assert_eq!(parse_mpeg4_audio_config_bytes(&[0x12]).err(), Some("EOF"));
    assert_eq!(parse_mpeg4_audio_config_bytes(&[]).err(), Some("EOF"));
}

#[test]
fn aac_complete_fills_rate_from_index() {
    let mut cfg = MPEG4AudioConfig { sample_rate: 0, object_type: 2, sample_rate_index: 11, channel_config: 1 };
    cfg.complete();
    assert_eq!(cfg.sample_rate, 8000);
    // Applying it again changes nothing.
    let before = cfg;
    cfg.complete();
    assert_eq!(cfg.sample_rate, before.sample_rate);
    let mut unknown = MPEG4AudioConfig { sample_rate: 7, object_type: 2, sample_rate_index: 20, channel_config: 1 };
    unknown.complete();
    assert_eq!(unknown.sample_rate, 7);
}

// ---------------------------------------------------------------------------
// H.264
// ---------------------------------------------------------------------------

#[test]
fn h264_emulation_bytes_removed() {
    assert_eq!(remove_h264_or_h265_emulation_bytes(&[0, 0, 3, 1]), vec![0, 0, 1]);
    assert_eq!(remove_h264_or_h265_emulation_bytes(&[0, 0, 3]), vec![0, 0]);
    assert_eq!(remove_h264_or_h265_emulation_bytes(&[0, 0]), vec![0, 0]);
    assert_eq!(
        remove_h264_or_h265_emulation_bytes(&[1, 0, 0, 3, 0, 0, 3, 2]),
        vec![1, 0, 0, 0, 0, 2]
    );
    // Without an escape the input comes back unchanged.
    assert_eq!(remove_h264_or_h265_emulation_bytes(&[0, 1, 3, 0, 3]), vec![0, 1, 3, 0, 3]);
    assert_eq!(remove_h264_or_h265_emulation_bytes(&[]), Vec::<u8>::new());
}

#[test]
fn h264_split_short_input_is_raw() {
    let (units, kind) = split_nalus(&[1, 2, 3]);
    assert_eq!(kind, NaluType::Raw);
    assert_eq!(units, vec![vec![1, 2, 3]]);
}

#[test]
fn h264_split_avcc() {
    let b = [0, 0, 0, 2, 0xaa, 0xbb, 0, 0, 0, 1, 0xcc];
    let (units, kind) = split_nalus(&b);
    assert_eq!(kind, NaluType::Avcc);
    assert_eq!(units, vec![vec![0xaa, 0xbb], vec![0xcc]]);
}

#[test]
fn h264_split_avcc_roundtrip() {
    let parts: Vec<Vec<u8>> = vec![vec![0x67, 1, 2, 3], vec![0x68, 4], vec![0x65, 5, 6, 7, 8, 9]];
    let mut framed = Vec::new();
    for p in &parts {
        framed.extend_from_slice(&(p.len() as u32).to_be_bytes());
        framed.extend_from_slice(p);
    }
    let (units, kind) = split_nalus(&framed);
    assert_eq!(kind, NaluType::Avcc);
    assert_eq!(units, parts);
}

#[test]
fn h264_split_annexb() {
    let b = [0, 0, 0, 1, 0x67, 0x42, 0, 0, 1, 0x68, 0xce];
    let (units, kind) = split_nalus(&b);
    assert_eq!(kind, NaluType::AnnexB);
    assert_eq!(units, vec![vec![0x67, 0x42], vec![0x68, 0xce]]);
}

#[test]
fn h264_split_annexb_three_byte_codes() {
    let b = [0, 0, 1, 0x09, 0xf0, 0, 0, 1, 0x65, 0x88, 0x80];
    let (units, kind) = split_nalus(&b);
    assert_eq!(kind, NaluType::AnnexB);
    assert_eq!(units, vec![vec![0x09, 0xf0], vec![0x65, 0x88, 0x80]]);
}

#[test]
fn h264_split_unframed_is_raw() {
    let b = [0x65, 1, 2, 3, 4];
    let (units, kind) = split_nalus(&b);
    assert_eq!(kind, NaluType::Raw);
    assert_eq!(units, vec![b.to_vec()]);
}

#[test]
fn h264_sps_high_profile_with_scaling_and_timing() {
    let sps = [
        0x67, 0x64, 0x0c, 0x28, 0x4b, 0x61, 0x10, 0x1b, 0x28, 0x0f, 0x00, 0x44, 0xfc, 0xbf, 0xf8,
        0x00, 0x08, 0x00, 0x0b, 0x50, 0x10, 0x10, 0x14, 0x00, 0x00, 0x0f, 0xa4, 0x00, 0x03, 0xa9,
        0x82,
    ];
    let s = zenovdk::codec::h264::parse_sps(&sps).unwrap();
    assert_eq!(s.profile_idc, 100);
    assert_eq!(s.constraint_set_flag, 3);
    assert_eq!(s.level_idc, 40);
    assert_eq!(s.id, 1);
    assert_eq!(s.mb_width, 120);
    assert_eq!(s.mb_height, 68);
    assert_eq!(s.crop_bottom, 4);
    assert_eq!(s.width, 1920);
    assert_eq!(s.height, 1080);
    // 60000 / 1001 / 2, rounded down.
    assert_eq!(s.fps, 29);
}

#[test]
fn h264_sps_interlaced_poc_type_one() {
    let sps = [0x67, 0x4d, 0x40, 0x1f, 0xd0, 0xa6, 0x69, 0xa0, 0x2c, 0x0f, 0x12];
    let s = zenovdk::codec::h264::parse_sps(&sps).unwrap();
    assert_eq!(s.profile_idc, 77);
    assert_eq!(s.constraint_set_flag, 16);
    assert_eq!(s.level_idc, 31);
    assert_eq!(s.mb_width, 44);
    assert_eq!(s.mb_height, 30);
    assert_eq!(s.width, 704);
    // Field coding doubles the height.
    assert_eq!(s.height, 960);
    assert_eq!(s.fps, 0);
}

#[test]
fn h264_sps_baseline_fields() {
    let sps = [
        0x67, 0x42, 0x00, 0x1e, 0x96, 0x54, 0x02, 0x80, 0x2d, 0x80, 0x00, 0x00, 0x03, 0x00, 0x80,
        0x00, 0x00, 0x1e, 0x07, 0x8c, 0x18, 0xcb,
    ];
    let s = zenovdk::codec::h264::parse_sps(&sps).unwrap();
    assert_eq!(s.profile_idc, 66);
    assert_eq!(s.level_idc, 30);
    assert_eq!(s.mb_width, 80);
    assert_eq!(s.mb_height, 45);
    assert_eq!(s.crop_left + s.crop_right + s.crop_top + s.crop_bottom, 0);
}

#[test]
fn h264_sps_truncated_fails() {
    assert_eq!(zenovdk::codec::h264::parse_sps(&[]).err(), Some("EOF"));
    assert_eq!(zenovdk::codec::h264::parse_sps(&[0x67, 0x42]).err(), Some("EOF"));
}

#[test]
fn h264_slice_types() {
    assert_eq!(parse_slice_header_from_nalu(&[0x65, 0x88]), Ok(SliceType::I));
    assert_eq!(parse_slice_header_from_nalu(&[0x41, 0xc0]), Ok(SliceType::P));
    assert_eq!(parse_slice_header_from_nalu(&[0x41, 0xa0]), Ok(SliceType::B));
    assert_eq!(parse_slice_header_from_nalu(&[0x53, 0x98]), Ok(SliceType::P));
}

#[test]
fn h264_slice_header_errors() {
    assert_eq!(
        parse_slice_header_from_nalu(&[0x65]),
        Err("packet too short to parse slice header")
    );
    assert_eq!(parse_slice_header_from_nalu(&[0x67, 0x00]), Err("nal_unit_type has no slice header"));
    assert_eq!(parse_slice_header_from_nalu(&[0x41, 0x8b]), Err("slice_type invalid"));
    assert_eq!(parse_slice_header_from_nalu(&[0x41, 0x00]), Err("EOF"));
}

// ---------------------------------------------------------------------------
// H.265
// ---------------------------------------------------------------------------

#[test]
fn h265_emulation_bytes_removed() {
    assert_eq!(h265::remove_emulation_bytes(&[0, 0, 3, 0, 0, 3]), vec![0, 0, 0, 0]);
    assert_eq!(h265::remove_emulation_bytes(&[5, 0, 0, 3, 1]), vec![5, 0, 0, 1]);
}

#[test]
fn h265_sps_camera_stream() {
    let sps = [
        0x42, 0x01, 0x01, 0x01, 0x60, 0x00, 0x00, 0x03, 0x00, 0x90, 0x00, 0x00, 0x03, 0x00, 0x00,
        0x03, 0x00, 0x5d, 0xa0, 0x02, 0x80, 0x80, 0x2d, 0x16, 0x59, 0x59, 0xa4, 0x93, 0x2b, 0xc0,
        0x5a, 0x70, 0x80, 0x00, 0x01, 0xf4, 0x80, 0x00, 0x30, 0xd4, 0x20,
    ];
    let s = h265::parse_sps(&sps).unwrap();
    assert_eq!(s.num_temporal_layers, 1);
    assert_eq!(s.temporal_id_nested, 1);
    assert_eq!(s.general_profile_space, 0);
    assert_eq!(s.general_tier_flag, 0);
    assert_eq!(s.general_profile_idc, 1);
    assert_eq!(s.general_level_idc, 93);
    assert_eq!(s.chroma_format, 1);
    assert_eq!(s.pic_width_in_luma_samples, 1280);
    assert_eq!(s.pic_height_in_luma_samples, 720);
    assert_eq!(s.width, 1280);
    assert_eq!(s.height, 720);
    assert_eq!(s.bit_depth_luma_minus8, 0);
    assert_eq!(s.bit_depth_chroma_minus8, 0);
    // The flags are merged into an all-zero start by `&`.
    assert_eq!(s.general_profile_compatibility_flags, 0);
    assert_eq!(s.general_constraint_indicator_flags, 0);
    assert_eq!(s.fps, 0);
}

#[test]
fn h265_sps_with_sub_layers() {
    let sps = [
        0x42, 0x01, 0x03, 0x01, 0x60, 0x00, 0x00, 0x00, 0x90, 0x00, 0x00, 0x00, 0x00, 0x00, 0x5d,
        0x40, 0x00, 0x5a, 0xa0, 0x03, 0xc0, 0x80, 0x10, 0xe7, 0xcb, 0x96, 0x57, 0x2b, 0xa4, 0x92,
        0x50,
    ];
    let s = h265::parse_sps(&sps).unwrap();
    assert_eq!(s.num_temporal_layers, 2);
    assert_eq!(s.temporal_id_nested, 1);
    assert_eq!(s.general_profile_idc, 1);
    assert_eq!(s.general_level_idc, 93);
    assert_eq!(s.width, 1920);
    assert_eq!(s.height, 1080);
}

#[test]
fn h265_sps_errors() {
    assert_eq!(h265::parse_sps(&[0x42]).err(), Some("Incorrect Unit Size"));
    assert_eq!(h265::parse_sps(&[0x42, 0x01]).err(), Some("EOF"));
    assert_eq!(h265::parse_sps(&[0x42, 0x01, 0x01, 0x01, 0x60]).err(), Some("EOF"));
}

#[test]
fn h265_slice_types() {
    // IDR_W_RADL (19): pps id 0, slice type 2 -> I
    assert_eq!(h265::parse_slice_header_from_nalu(&[0x26, 0x01, 0xb0]), Ok(h265::SliceType::I));
    // TRAIL_R (1): slice type 1 -> B, 0 -> P
    assert_eq!(h265::parse_slice_header_from_nalu(&[0x02, 0x01, 0xa0]), Ok(h265::SliceType::B));
    assert_eq!(h265::parse_slice_header_from_nalu(&[0x02, 0x01, 0xc0]), Ok(h265::SliceType::P));
}

#[test]
fn h265_slice_header_errors() {
    assert_eq!(
        h265::parse_slice_header_from_nalu(&[0x26, 0x01]),
        Err("packet too short to parse slice header")
    );
    // VPS (32) carries no slice.
    assert_eq!(
        h265::parse_slice_header_from_nalu(&[0x40, 0x01, 0x80]),
        Err("nal_unit_type has no slice header")
    );
    assert_eq!(h265::parse_slice_header_from_nalu(&[0x02, 0x01, 0x8b]), Err("slice_type invalid"));
    assert_eq!(h265::parse_slice_header_from_nalu(&[0x02, 0x01, 0x00]), Err("EOF"));
}

#[test]
fn bits_read_many_bits_at_the_end_fails() {
    let data = [0xabu8];
    let mut r = GolombBitReader::new(&data);
    assert_eq!(r.read_bits(8), Ok(0xab));
    assert_eq!(r.read_bits(40), Err("EOF"));
}

#[test]
fn bits_overlong_exp_golomb_code_is_detected() {
    // 32 zero bits, a one, and a 32-bit suffix.
    let mut data = vec![0u8; 4];
    data.extend_from_slice(&[0x80, 0, 0, 0, 0]);
    let mut r = GolombBitReader::new(&data);
    assert!(r.ue_overflows_here());
    assert_eq!(r.read_exponential_golomb_checked(), Err("value out of range"));
    assert_eq!(r.read_se_checked(), Err("value out of range"));
    // The reader did not move.
    assert_eq!(r.read_bits(32), Ok(0));
    // Without the whole suffix the code just runs out of data.
    let short = [0u8, 0, 0, 0, 0x80, 0];
    let mut r = GolombBitReader::new(&short);
    assert!(!r.ue_overflows_here());
    assert_eq!(r.read_exponential_golomb_checked(), Err("EOF"));
}

#[test]
fn bits_checked_reads_match_plain_reads() {
    let data = [0xa6u8, 0x40];
    let mut a = GolombBitReader::new(&data);
    let mut b = GolombBitReader::new(&data);
    for _ in 0..4 {
        assert!(!a.ue_overflows_here());
        assert_eq!(a.read_exponential_golomb_checked(), b.read_exponential_golomb());
    }
    let data = [0x4c, 0x90u8];
    let mut a = GolombBitReader::new(&data);
    let mut b = GolombBitReader::new(&data);
    for _ in 0..4 {
        assert_eq!(a.read_se_checked(), b.read_se());
    }
}

#[test]
fn slice_header_checked_variants() {
    assert_eq!(zenovdk::codec::h264::parse_slice_header_from_nalu_checked(&[0x65, 0x88]), Ok(SliceType::I));
    assert_eq!(
        zenovdk::codec::h264::parse_slice_header_from_nalu_checked(&[0x65]),
        Err("packet too short to parse slice header")
    );
    let mut long = vec![0x41u8, 0, 0, 0, 0, 0x80, 0, 0, 0, 0];
    assert_eq!(
        zenovdk::codec::h264::parse_slice_header_from_nalu_checked(&long),
        Err("value out of range")
    );
    // The second code too long: first_mb_in_slice 0 ('1'), then 32 zeros.
    long = vec![0x41u8, 0x80, 0, 0, 0, 0x40, 0, 0, 0, 0];
    assert_eq!(
        zenovdk::codec::h264::parse_slice_header_from_nalu_checked(&long),
        Err("value out of range")
    );
    assert_eq!(h265::parse_slice_header_from_nalu_checked(&[0x26, 0x01, 0xb0]), Ok(h265::SliceType::I));
    assert_eq!(
        h265::parse_slice_header_from_nalu_checked(&[0x02, 0x01, 0, 0, 0, 0, 0x80, 0, 0, 0, 0]),
        Err("value out of range")
    );
    assert_eq!(
        h265::parse_slice_header_from_nalu_checked(&[0x40, 0x01, 0x80]),
        Err("nal_unit_type has no slice header")
    );
}

#[test]
fn h264_sps_checked_detects_overflows() {

    // seq_parameter_set_id with 32 leading zeros and its whole suffix.
    let long_id = [0x67, 0x42, 0x00, 0x1e, 0, 0, 0, 0, 0x80, 0, 0, 0, 0];
    assert_eq!(zenovdk::codec::h264::parse_sps_checked(&long_id).err(), Some("value out of range"));
    // A crop window wider than the picture.
    let crop = [0x67, 0x42, 0x00, 0x1e, 0xdd, 0xf0, 0x32, 0xf4];
    assert_eq!(zenovdk::codec::h264::parse_sps_checked(&crop).err(), Some("value out of range"));
    // A scaling list delta that takes the scale past i32::MAX.
    let scaling = [
        0x67, 0x64, 0x00, 0x28, 0xad, 0x80, 0x00, 0x00, 0x00, 0xff, 0xff, 0xff, 0x36, 0x00, 0x00,
        0x00, 0x00, 0x00, 0x00, 0x00, 0x00, 0x00, 0x00, 0x00, 0x00, 0x00, 0x00, 0x00, 0x00, 0x00,
        0x00, 0x00, 0x00, 0x80,
    ];
    assert_eq!(zenovdk::codec::h264::parse_sps_checked(&scaling).err(), Some("value out of range"));
    // Ordinary input: the same answer as parse_sps.
    let sps = [
        0x67, 0x42, 0x00, 0x1e, 0x96, 0x54, 0x02, 0x80, 0x2d, 0x80, 0x00, 0x00, 0x03, 0x00, 0x80,
        0x00, 0x00, 0x1e, 0x07, 0x8c, 0x18, 0xcb,
    ];
    let s = zenovdk::codec::h264::parse_sps_checked(&sps).unwrap();
    assert_eq!((s.width, s.height), (1280, 720));
    assert_eq!(zenovdk::codec::h264::parse_sps_checked(&[0x67]).err(), Some("EOF"));
}

#[test]
fn h265_sps_checked_detects_overflows() {
    let long_id = [
        0x42, 0x01, 0x01, 0x01, 0x60, 0x00, 0x00, 0x00, 0x90, 0x00, 0x00, 0x00, 0x00, 0x00, 0x5d,
        0x00, 0x00, 0x00, 0x00, 0x80, 0x00, 0x00, 0x02, 0xc0,
    ];
    assert_eq!(h265::parse_sps_checked(&long_id).err(), Some("value out of range"));
    let sps = [
        0x42, 0x01, 0x01, 0x01, 0x60, 0x00, 0x00, 0x03, 0x00, 0x90, 0x00, 0x00, 0x03, 0x00, 0x00,
        0x03, 0x00, 0x5d, 0xa0, 0x02, 0x80, 0x80, 0x2d, 0x16, 0x59, 0x59, 0xa4, 0x93, 0x2b, 0xc0,
        0x5a, 0x70, 0x80, 0x00, 0x01, 0xf4, 0x80, 0x00, 0x30, 0xd4, 0x20,
    ];
    let s = h265::parse_sps_checked(&sps).unwrap();
    assert_eq!((s.width, s.height), (1280, 720));
    assert_eq!(h265::parse_sps_checked(&[0x42]).err(), Some("Incorrect Unit Size"));
}

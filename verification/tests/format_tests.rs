use bytes::Bytes;
use zenovdk::av::{CodecType, Packet};
use zenovdk::format::mp4f::Mp4Muxer;
use zenovdk::format::ts::TsMuxer;

fn packet(idx: i8, key: bool, time: u64, cts: u64, duration: u64, data: Vec<u8>) -> Packet {
    Packet { idx, is_key_frame: key, time, composition_time: cts, duration, data: Bytes::from(data) }
}

fn be32_at(b: &[u8], at: usize) -> u32 {
    u32::from_be_bytes([b[at], b[at + 1], b[at + 2], b[at + 3]])
}

// ---------------------------------------------------------------------------
// Packet
// ---------------------------------------------------------------------------

#[test]
fn packet_clone_shares_bytes() {
    let p = packet(3, true, 1, 2, 3, vec![9, 8, 7]);
    let q = p.clone();
    assert_eq!(q.idx, 3);
    assert_eq!(&q.data[..], &[9, 8, 7]);
    assert_eq!(q.time, 1);
    assert_eq!(q.composition_time, 2);
    assert_eq!(q.duration, 3);
}

// ---------------------------------------------------------------------------
// Fragmented MP4
// ---------------------------------------------------------------------------

#[test]
fn mp4_init_segment_bytes() {
    let mut muxer = Mp4Muxer::new();
    muxer.add_stream(CodecType::H264, 1920, 1080, vec![1, 2, 3, 4]);
    let expected: Vec<u8> = vec![
        0x00, 0x00, 0x00, 0x18, 0x66, 0x74, 0x79, 0x70, 0x69, 0x73, 0x6f, 0x36, 0x00, 0x00, 0x00, 0x01,
        0x69, 0x73, 0x6f, 0x36, 0x64, 0x61, 0x73, 0x68, 0x00, 0x00, 0x02, 0x6b, 0x6d, 0x6f, 0x6f, 0x76,
        0x00, 0x00, 0x00, 0x6c, 0x6d, 0x76, 0x68, 0x64, 0x00, 0x00, 0x00, 0x00, 0x00, 0x00, 0x00, 0x00,
        0x00, 0x00, 0x00, 0x00, 0x00, 0x00, 0x03, 0xe8, 0x00, 0x00, 0x00, 0x00, 0x00, 0x01, 0x00, 0x00,
        0x01, 0x00, 0x00, 0x00, 0x00, 0x00, 0x00, 0x00, 0x00, 0x00, 0x00, 0x00, 0x00, 0x01, 0x00, 0x00,
        0x00, 0x00, 0x00, 0x00, 0x00, 0x00, 0x00, 0x00, 0x00, 0x00, 0x00, 0x00, 0x00, 0x01, 0x00, 0x00,
        0x00, 0x00, 0x00, 0x00, 0x00, 0x00, 0x00, 0x00, 0x00, 0x00, 0x00, 0x00, 0x40, 0x00, 0x00, 0x00,
        0x00, 0x00, 0x00, 0x00, 0x00, 0x00, 0x00, 0x00, 0x00, 0x00, 0x00, 0x00, 0x00, 0x00, 0x00, 0x00,
        0x00, 0x00, 0x00, 0x00, 0x00, 0x00, 0x00, 0x00, 0x00, 0x00, 0x00, 0x03, 0x00, 0x00, 0x01, 0xbf,
        0x74, 0x72, 0x61, 0x6b, 0x00, 0x00, 0x00, 0x5c, 0x74, 0x6b, 0x68, 0x64, 0x00, 0x00, 0x00, 0x07,
        0x00, 0x00, 0x00, 0x00, 0x00, 0x00, 0x00, 0x00, 0x00, 0x00, 0x00, 0x01, 0x00, 0x00, 0x00, 0x00,
        0x00, 0x00, 0x00, 0x00, 0x00, 0x00, 0x00, 0x00, 0x00, 0x00, 0x00, 0x00, 0x00, 0x00, 0x00, 0x00,
        0x01, 0x00, 0x00, 0x00, 0x00, 0x01, 0x00, 0x00, 0x00, 0x00, 0x00, 0x00, 0x00, 0x00, 0x00, 0x00,
        0x00, 0x00, 0x00, 0x00, 0x00, 0x01, 0x00, 0x00, 0x00, 0x00, 0x00, 0x00, 0x00, 0x00, 0x00, 0x00,
        0x00, 0x00, 0x00, 0x00, 0x40, 0x00, 0x00, 0x00, 0x07, 0x80, 0x00, 0x00, 0x04, 0x38, 0x00, 0x00,
        0x00, 0x00, 0x01, 0x5b, 0x6d, 0x64, 0x69, 0x61, 0x00, 0x00, 0x00, 0x20, 0x6d, 0x64, 0x68, 0x64,
        0x00, 0x00, 0x00, 0x00, 0x00, 0x00, 0x00, 0x00, 0x00, 0x00, 0x00, 0x00, 0x00, 0x01, 0x5f, 0x90,
        0x00, 0x00, 0x00, 0x00, 0x55, 0xc4, 0x00, 0x00, 0x00, 0x00, 0x00, 0x25, 0x68, 0x64, 0x6c, 0x72,
        0x00, 0x00, 0x00, 0x00, 0x00, 0x00, 0x00, 0x00, 0x76, 0x69, 0x64, 0x65, 0x00, 0x00, 0x00, 0x00,
        0x00, 0x00, 0x00, 0x00, 0x00, 0x00, 0x00, 0x00, 0x47, 0x47, 0x00, 0x00, 0x00, 0x00, 0x00, 0x01,
        0x0e, 0x6d, 0x69, 0x6e, 0x66, 0x00, 0x00, 0x00, 0x14, 0x76, 0x6d, 0x68, 0x64, 0x00, 0x00, 0x00,
        0x01, 0x00, 0x00, 0x00, 0x00, 0x00, 0x00, 0x00, 0x00, 0x00, 0x00, 0x00, 0x24, 0x64, 0x69, 0x6e,
        0x66, 0x00, 0x00, 0x00, 0x1c, 0x64, 0x72, 0x65, 0x66, 0x00, 0x00, 0x00, 0x00, 0x00, 0x00, 0x00,
        0x01, 0x00, 0x00, 0x00, 0x0c, 0x75, 0x72, 0x6c, 0x20, 0x00, 0x00, 0x00, 0x01, 0x00, 0x00, 0x00,
        0xce, 0x73, 0x74, 0x62, 0x6c, 0x00, 0x00, 0x00, 0x72, 0x73, 0x74, 0x73, 0x64, 0x00, 0x00, 0x00,
        0x00, 0x00, 0x00, 0x00, 0x01, 0x00, 0x00, 0x00, 0x62, 0x61, 0x76, 0x63, 0x31, 0x00, 0x00, 0x00,
        0x00, 0x00, 0x00, 0x00, 0x01, 0x00, 0x00, 0x00, 0x00, 0x00, 0x00, 0x00, 0x00, 0x00, 0x00, 0x00,
        0x00, 0x00, 0x00, 0x00, 0x00, 0x07, 0x80, 0x04, 0x38, 0x00, 0x48, 0x00, 0x00, 0x00, 0x48, 0x00,
        0x00, 0x00, 0x00, 0x00, 0x00, 0x00, 0x01, 0x00, 0x00, 0x00, 0x00, 0x00, 0x00, 0x00, 0x00, 0x00,
        0x00, 0x00, 0x00, 0x00, 0x00, 0x00, 0x00, 0x00, 0x00, 0x00, 0x00, 0x00, 0x00, 0x00, 0x00, 0x00,
        0x00, 0x00, 0x00, 0x00, 0x00, 0x00, 0x00, 0x00, 0x18, 0xff, 0xff, 0x00, 0x00, 0x00, 0x0c, 0x61,
        0x76, 0x63, 0x43, 0x01, 0x02, 0x03, 0x04, 0x00, 0x00, 0x00, 0x10, 0x73, 0x74, 0x74, 0x73, 0x00,
        0x00, 0x00, 0x00, 0x00, 0x00, 0x00, 0x00, 0x00, 0x00, 0x00, 0x10, 0x73, 0x74, 0x73, 0x63, 0x00,
        0x00, 0x00, 0x00, 0x00, 0x00, 0x00, 0x00, 0x00, 0x00, 0x00, 0x10, 0x73, 0x74, 0x73, 0x73, 0x00,
        0x00, 0x00, 0x00, 0x00, 0x00, 0x00, 0x00, 0x00, 0x00, 0x00, 0x10, 0x73, 0x74, 0x63, 0x6f, 0x00,
        0x00, 0x00, 0x00, 0x00, 0x00, 0x00, 0x00, 0x00, 0x00, 0x00, 0x14, 0x73, 0x74, 0x73, 0x7a, 0x00,
        0x00, 0x00, 0x00, 0x00, 0x00, 0x00, 0x00, 0x00, 0x00, 0x00, 0x00, 0x00, 0x00, 0x00, 0x38, 0x6d,
        0x76, 0x65, 0x78, 0x00, 0x00, 0x00, 0x10, 0x6d, 0x65, 0x68, 0x64, 0x00, 0x00, 0x00, 0x00, 0x00,
        0x00, 0x00, 0x00, 0x00, 0x00, 0x00, 0x20, 0x74, 0x72, 0x65, 0x78, 0x00, 0x00, 0x00, 0x00, 0x00,
        0x00, 0x00, 0x01, 0x00, 0x00, 0x00, 0x01, 0x00, 0x00, 0x00, 0x00, 0x00, 0x00, 0x00, 0x00, 0x00,
        0x00, 0x00, 0x00,
    ];
    assert_eq!(muxer.get_init(), expected);
}

#[test]
fn mp4_init_segment_box_sizes() {
    let mut muxer = Mp4Muxer::new();
    muxer.add_stream(CodecType::H264, 1920, 1080, vec![1, 2, 3, 4]);
    muxer.add_stream(CodecType::AAC, 0, 0, vec![0x12, 0x10]);
    let init = muxer.get_init();
    assert_eq!(init.len(), 1066);
    // ftyp, then a moov box that covers the rest.
    assert_eq!(be32_at(&init, 0), 24);
    assert_eq!(be32_at(&init, 24) as usize, init.len() - 24);
    assert_eq!(&init[28..32], b"moov");
    // mvhd, then the first trak.
    assert_eq!(be32_at(&init, 32), 108);
    assert_eq!(&init[36..40], b"mvhd");
    assert_eq!(be32_at(&init, 140), 447);
    assert_eq!(&init[144..148], b"trak");
    // The second trak follows the first and belongs to track 2.
    assert_eq!(be32_at(&init, 587), 391);
    assert_eq!(&init[591..595], b"trak");
    assert_eq!(be32_at(&init, 595 + 20), 2);
    // mvex closes the moov box, with one trex per track.
    let mvex = init.len() - 88;
    assert_eq!(be32_at(&init, mvex), 88);
    assert_eq!(&init[mvex + 4..mvex + 8], b"mvex");
    assert_eq!(be32_at(&init, mvex + 24 + 12), 1);
    assert_eq!(be32_at(&init, mvex + 56 + 12), 2);
}

#[test]
fn mp4_track_ids_and_time_scales() {
    let mut muxer = Mp4Muxer::new();
    muxer.add_stream(CodecType::H265, 640, 480, vec![]);
    muxer.add_stream(CodecType::AAC, 0, 0, vec![]);
    muxer.add_stream(CodecType::Opus, 0, 0, vec![]);
    let ids: Vec<u32> = muxer.streams.iter().map(|s| s.track_id).collect();
    let scales: Vec<u32> = muxer.streams.iter().map(|s| s.time_scale).collect();
    assert_eq!(ids, vec![1, 2, 3]);
    assert_eq!(scales, vec![90000, 48000, 1000]);
    assert!(muxer.streams.iter().all(|s| s.last_dts == 0));
}

#[test]
fn mp4_init_for_other_codec_has_no_sample_entry() {
    let mut muxer = Mp4Muxer::new();
    muxer.add_stream(CodecType::Opus, 0, 0, vec![9, 9]);
    let init = muxer.get_init();
    assert_eq!(init.len(), 525);
    let hint = init.windows(4).position(|w| w == b"hint");
    assert!(hint.is_some());
    // The stsd box holds only its version and a count of one.
    let stsd = init.windows(4).position(|w| w == b"stsd").unwrap();
    assert_eq!(be32_at(&init, stsd - 4), 16);
}

#[test]
fn mp4_single_frame_fragment_bytes() {
    let mut muxer = Mp4Muxer::new();
    muxer.add_stream(CodecType::H264, 1920, 1080, vec![1, 2, 3, 4]);
    let pkt = packet(0, true, 0, 0, 33_000_000, vec![0x00, 0x00, 0x00, 0x05, 0x65, 0x10, 0x20, 0x30, 0x40]);
    let (done, fragment) = muxer.write_packet(&pkt, 0);
    assert!(done);
    let expected: Vec<u8> = vec![
        0x00, 0x00, 0x00, 0x6c, 0x6d, 0x6f, 0x6f, 0x66, 0x00, 0x00, 0x00, 0x10, 0x6d, 0x66, 0x68, 0x64,
        0x00, 0x00, 0x00, 0x00, 0x00, 0x00, 0x00, 0x01, 0x00, 0x00, 0x00, 0x54, 0x74, 0x72, 0x61, 0x66,
        0x00, 0x00, 0x00, 0x14, 0x74, 0x66, 0x68, 0x64, 0x00, 0x02, 0x00, 0x20, 0x00, 0x00, 0x00, 0x01,
        0x01, 0x01, 0x00, 0x00, 0x00, 0x00, 0x00, 0x14, 0x74, 0x66, 0x64, 0x74, 0x01, 0x00, 0x00, 0x00,
        0x00, 0x00, 0x00, 0x00, 0x00, 0x00, 0x00, 0x00, 0x00, 0x00, 0x00, 0x24, 0x74, 0x72, 0x75, 0x6e,
        0x00, 0x00, 0x0b, 0x05, 0x00, 0x00, 0x00, 0x01, 0x00, 0x00, 0x00, 0x74, 0x02, 0x00, 0x00, 0x00,
        0x00, 0x00, 0x0b, 0x9a, 0x00, 0x00, 0x00, 0x09, 0x00, 0x00, 0x00, 0x00, 0x00, 0x00, 0x00, 0x11,
        0x6d, 0x64, 0x61, 0x74, 0x00, 0x00, 0x00, 0x05, 0x65, 0x10, 0x20, 0x30, 0x40,
    ];
    assert_eq!(fragment, expected);
    // The trun data offset points at the first sample in the mdat box.
    let offset = be32_at(&fragment, 88) as usize;
    assert_eq!(&fragment[offset..], &pkt.data[..]);
    assert_eq!(muxer.sample_index, 0);
    assert_eq!(muxer.fragment_index, 1);
    assert!(muxer.moof_entries.is_empty());
    assert!(muxer.mdat_buffer.is_empty());
    assert_eq!(muxer.streams[0].last_dts, 2970);
}

#[test]
fn mp4_fragment_collects_until_key_frame_past_limit() {
    let mut muxer = Mp4Muxer::new();
    muxer.add_stream(CodecType::H264, 320, 240, vec![]);
    let a = packet(0, true, 0, 0, 40_000_000, vec![1, 2, 3]);
    let b = packet(0, false, 40_000_000, 80_000_000, 40_000_000, vec![4, 5]);
    let c = packet(0, true, 80_000_000, 0, 40_000_000, vec![6]);
    assert_eq!(muxer.write_packet(&a, 2), (false, vec![]));
    assert_eq!(muxer.write_packet(&b, 2), (false, vec![]));
    assert_eq!(muxer.sample_index, 2);
    assert_eq!(muxer.mdat_buffer, vec![0, 0, 0, 0, 0x6d, 0x64, 0x61, 0x74, 1, 2, 3, 4, 5]);
    let entries: Vec<(u32, u32, u32, bool)> =
        muxer.moof_entries.iter().map(|e| (e.duration, e.size, e.cts, e.is_keyframe)).collect();
    assert_eq!(entries, vec![(3600, 3, 0, true), (3600, 2, 7200, false)]);
    let (done, fragment) = muxer.write_packet(&c, 2);
    assert!(done);
    let expected: Vec<u8> = vec![
        0x00, 0x00, 0x00, 0x84, 0x6d, 0x6f, 0x6f, 0x66, 0x00, 0x00, 0x00, 0x10, 0x6d, 0x66, 0x68, 0x64,
        0x00, 0x00, 0x00, 0x00, 0x00, 0x00, 0x00, 0x01, 0x00, 0x00, 0x00, 0x6c, 0x74, 0x72, 0x61, 0x66,
        0x00, 0x00, 0x00, 0x14, 0x74, 0x66, 0x68, 0x64, 0x00, 0x02, 0x00, 0x20, 0x00, 0x00, 0x00, 0x01,
        0x01, 0x01, 0x00, 0x00, 0x00, 0x00, 0x00, 0x14, 0x74, 0x66, 0x64, 0x74, 0x01, 0x00, 0x00, 0x00,
        0x00, 0x00, 0x00, 0x00, 0x00, 0x00, 0x00, 0x00, 0x00, 0x00, 0x00, 0x3c, 0x74, 0x72, 0x75, 0x6e,
        0x00, 0x00, 0x0b, 0x05, 0x00, 0x00, 0x00, 0x03, 0x00, 0x00, 0x00, 0x8c, 0x02, 0x00, 0x00, 0x00,
        0x00, 0x00, 0x0e, 0x10, 0x00, 0x00, 0x00, 0x03, 0x00, 0x00, 0x00, 0x00, 0x00, 0x00, 0x0e, 0x10,
        0x00, 0x00, 0x00, 0x02, 0x00, 0x00, 0x1c, 0x20, 0x00, 0x00, 0x0e, 0x10, 0x00, 0x00, 0x00, 0x01,
        0x00, 0x00, 0x00, 0x00, 0x00, 0x00, 0x00, 0x0e, 0x6d, 0x64, 0x61, 0x74, 0x01, 0x02, 0x03, 0x04,
        0x05, 0x06,
    ];
    assert_eq!(fragment, expected);
    assert_eq!(muxer.streams[0].last_dts, 10800);

    // The next fragment continues the decode timeline and the sequence.
    let d = packet(0, true, 120_000_000, 0, 40_000_000, vec![7, 8]);
    let (done, fragment) = muxer.write_packet(&d, 0);
    assert!(done);
    let expected: Vec<u8> = vec![
        0x00, 0x00, 0x00, 0x6c, 0x6d, 0x6f, 0x6f, 0x66, 0x00, 0x00, 0x00, 0x10, 0x6d, 0x66, 0x68, 0x64,
        0x00, 0x00, 0x00, 0x00, 0x00, 0x00, 0x00, 0x02, 0x00, 0x00, 0x00, 0x54, 0x74, 0x72, 0x61, 0x66,
        0x00, 0x00, 0x00, 0x14, 0x74, 0x66, 0x68, 0x64, 0x00, 0x02, 0x00, 0x20, 0x00, 0x00, 0x00, 0x01,
        0x01, 0x01, 0x00, 0x00, 0x00, 0x00, 0x00, 0x14, 0x74, 0x66, 0x64, 0x74, 0x01, 0x00, 0x00, 0x00,
        0x00, 0x00, 0x00, 0x00, 0x00, 0x00, 0x2a, 0x30, 0x00, 0x00, 0x00, 0x24, 0x74, 0x72, 0x75, 0x6e,
        0x00, 0x00, 0x0b, 0x05, 0x00, 0x00, 0x00, 0x01, 0x00, 0x00, 0x00, 0x74, 0x02, 0x00, 0x00, 0x00,
        0x00, 0x00, 0x0e, 0x10, 0x00, 0x00, 0x00, 0x02, 0x00, 0x00, 0x00, 0x00, 0x00, 0x00, 0x00, 0x0a,
        0x6d, 0x64, 0x61, 0x74, 0x07, 0x08,
    ];
    assert_eq!(fragment, expected);
    assert_eq!(muxer.fragment_index, 2);
    assert_eq!(muxer.streams[0].last_dts, 14400);
}

#[test]
fn mp4_non_key_frame_never_closes() {
    let mut muxer = Mp4Muxer::new();
    muxer.add_stream(CodecType::H264, 320, 240, vec![]);
    for _ in 0..5 {
        let p = packet(0, false, 0, 0, 1_000_000, vec![1]);
        assert_eq!(muxer.write_packet(&p, 0), (false, vec![]));
    }
    assert_eq!(muxer.sample_index, 5);
    assert_eq!(muxer.moof_entries.len(), 5);
}

#[test]
fn mp4_unknown_stream_is_ignored() {
    let mut muxer = Mp4Muxer::new();
    muxer.add_stream(CodecType::H264, 320, 240, vec![]);
    assert_eq!(muxer.write_packet(&packet(1, true, 0, 0, 0, vec![1]), 0), (false, vec![]));
    assert_eq!(muxer.write_packet(&packet(-1, true, 0, 0, 0, vec![1]), 0), (false, vec![]));
    assert_eq!(muxer.sample_index, 0);
    assert!(muxer.moof_entries.is_empty());
    assert!(muxer.mdat_buffer.is_empty());
}

#[test]
fn mp4_audio_durations_use_track_time_scale() {
    let mut muxer = Mp4Muxer::new();
    muxer.add_stream(CodecType::AAC, 0, 0, vec![]);
    // 1024 samples at 48 kHz, expressed in nanoseconds and rounded down.
    let p = packet(0, false, 0, 0, 21_333_333, vec![1, 2]);
    muxer.write_packet(&p, 10);
    assert_eq!(muxer.moof_entries[0].duration, 1023);
    let p = packet(0, false, 0, 0, 20_000_000, vec![1, 2]);
    muxer.write_packet(&p, 10);
    assert_eq!(muxer.moof_entries[1].duration, 960);
}

// ---------------------------------------------------------------------------
// MPEG-TS
// ---------------------------------------------------------------------------

#[test]
fn ts_pat_pmt_bytes() {
    let mut muxer = TsMuxer::new();
    muxer.add_stream(0, CodecType::H264);
    let tables = muxer.get_pat_pmt();
    let pat: Vec<u8> = vec![
        0x47, 0x40, 0x00, 0x10, 0x00, 0x00, 0xb0, 0x0d, 0x00, 0x01, 0xc1, 0x00, 0x00, 0x00, 0x01, 0xe1,
        0x00, 0x2a, 0xb1, 0x04, 0xb2, 0xff, 0xff, 0xff, 0xff, 0xff, 0xff, 0xff, 0xff, 0xff, 0xff, 0xff,
        0xff, 0xff, 0xff, 0xff, 0xff, 0xff, 0xff, 0xff, 0xff, 0xff, 0xff, 0xff, 0xff, 0xff, 0xff, 0xff,
        0xff, 0xff, 0xff, 0xff, 0xff, 0xff, 0xff, 0xff, 0xff, 0xff, 0xff, 0xff, 0xff, 0xff, 0xff, 0xff,
        0xff, 0xff, 0xff, 0xff, 0xff, 0xff, 0xff, 0xff, 0xff, 0xff, 0xff, 0xff, 0xff, 0xff, 0xff, 0xff,
        0xff, 0xff, 0xff, 0xff, 0xff, 0xff, 0xff, 0xff, 0xff, 0xff, 0xff, 0xff, 0xff, 0xff, 0xff, 0xff,
        0xff, 0xff, 0xff, 0xff, 0xff, 0xff, 0xff, 0xff, 0xff, 0xff, 0xff, 0xff, 0xff, 0xff, 0xff, 0xff,
        0xff, 0xff, 0xff, 0xff, 0xff, 0xff, 0xff, 0xff, 0xff, 0xff, 0xff, 0xff, 0xff, 0xff, 0xff, 0xff,
        0xff, 0xff, 0xff, 0xff, 0xff, 0xff, 0xff, 0xff, 0xff, 0xff, 0xff, 0xff, 0xff, 0xff, 0xff, 0xff,
        0xff, 0xff, 0xff, 0xff, 0xff, 0xff, 0xff, 0xff, 0xff, 0xff, 0xff, 0xff, 0xff, 0xff, 0xff, 0xff,
        0xff, 0xff, 0xff, 0xff, 0xff, 0xff, 0xff, 0xff, 0xff, 0xff, 0xff, 0xff, 0xff, 0xff, 0xff, 0xff,
        0xff, 0xff, 0xff, 0xff, 0xff, 0xff, 0xff, 0xff, 0xff, 0xff, 0xff, 0xff,
    ];
    let pmt: Vec<u8> = vec![
        0x47, 0x41, 0x00, 0x10, 0x00, 0x02, 0xb0, 0x12, 0x00, 0x01, 0xc1, 0x00, 0x00, 0xe1, 0x00, 0xf0,
        0x00, 0x1b, 0xe1, 0x01, 0xf0, 0x00, 0x3f, 0xe4, 0x5a, 0x82, 0xff, 0xff, 0xff, 0xff, 0xff, 0xff,
        0xff, 0xff, 0xff, 0xff, 0xff, 0xff, 0xff, 0xff, 0xff, 0xff, 0xff, 0xff, 0xff, 0xff, 0xff, 0xff,
        0xff, 0xff, 0xff, 0xff, 0xff, 0xff, 0xff, 0xff, 0xff, 0xff, 0xff, 0xff, 0xff, 0xff, 0xff, 0xff,
        0xff, 0xff, 0xff, 0xff, 0xff, 0xff, 0xff, 0xff, 0xff, 0xff, 0xff, 0xff, 0xff, 0xff, 0xff, 0xff,
        0xff, 0xff, 0xff, 0xff, 0xff, 0xff, 0xff, 0xff, 0xff, 0xff, 0xff, 0xff, 0xff, 0xff, 0xff, 0xff,
        0xff, 0xff, 0xff, 0xff, 0xff, 0xff, 0xff, 0xff, 0xff, 0xff, 0xff, 0xff, 0xff, 0xff, 0xff, 0xff,
        0xff, 0xff, 0xff, 0xff, 0xff, 0xff, 0xff, 0xff, 0xff, 0xff, 0xff, 0xff, 0xff, 0xff, 0xff, 0xff,
        0xff, 0xff, 0xff, 0xff, 0xff, 0xff, 0xff, 0xff, 0xff, 0xff, 0xff, 0xff, 0xff, 0xff, 0xff, 0xff,
        0xff, 0xff, 0xff, 0xff, 0xff, 0xff, 0xff, 0xff, 0xff, 0xff, 0xff, 0xff, 0xff, 0xff, 0xff, 0xff,
        0xff, 0xff, 0xff, 0xff, 0xff, 0xff, 0xff, 0xff, 0xff, 0xff, 0xff, 0xff, 0xff, 0xff, 0xff, 0xff,
        0xff, 0xff, 0xff, 0xff, 0xff, 0xff, 0xff, 0xff, 0xff, 0xff, 0xff, 0xff,
    ];
    assert_eq!(tables.len(), 376);
    assert_eq!(&tables[..188], &pat[..]);
    assert_eq!(&tables[188..], &pmt[..]);
    assert_eq!(muxer.pat_cc, 1);
    assert_eq!(muxer.pmt_cc, 1);
}

#[test]
fn ts_table_counters_advance_and_wrap() {
    let mut muxer = TsMuxer::new();
    let first = muxer.get_pat_pmt();
    let second = muxer.get_pat_pmt();
    assert_eq!(first[3], 0x10);
    assert_eq!(second[3], 0x11);
    assert_eq!(second[188 + 3], 0x11);
    for _ in 0..14 {
        muxer.get_pat_pmt();
    }
    assert_eq!(muxer.pat_cc, 0);
    assert_eq!(muxer.pmt_cc, 0);
    // No streams: the PMT section is 13 bytes long.
    assert_eq!(first[188 + 7], 0x0d);
}

#[test]
fn ts_pmt_lists_every_stream() {
    let mut muxer = TsMuxer::new();
    muxer.add_stream(0, CodecType::H264);
    muxer.add_stream(1, CodecType::AAC);
    muxer.add_stream(2, CodecType::H265);
    let tables = muxer.get_pat_pmt();
    let pmt = &tables[188..];
    assert_eq!(pmt[7], 13 + 3 * 5);
    let mut entries: Vec<(u8, u16)> = (0..3)
        .map(|i| {
            let e = &pmt[17 + 5 * i..22 + 5 * i];
            assert_eq!(e[1] & 0xe0, 0xe0);
            assert_eq!(&e[3..5], &[0xf0, 0x00]);
            (e[0], (((e[1] & 0x1f) as u16) << 8) | e[2] as u16)
        })
        .collect();
    entries.sort();
    assert_eq!(entries, vec![(0x0f, 0x102), (0x1b, 0x101), (0x24, 0x103)]);
    assert_eq!(&pmt[32..36], &[0x3f, 0xe4, 0x5a, 0x82]);
}

#[test]
fn ts_add_stream_fields() {
    let mut muxer = TsMuxer::new();
    muxer.add_stream(4, CodecType::Opus);
    let s = muxer.streams.get(&4).unwrap();
    assert_eq!(s.pid, 0x105);
    assert_eq!(s.stream_type, 0);
    assert_eq!(s.continuity_counter, 0);
    // Adding the same index again replaces the stream.
    muxer.add_stream(4, CodecType::AAC);
    assert_eq!(muxer.streams.len(), 1);
    assert_eq!(muxer.streams.get(&4).unwrap().stream_type, 0x0f);
}

#[test]
fn ts_key_frame_packet_bytes() {
    let mut muxer = TsMuxer::new();
    muxer.add_stream(0, CodecType::H264);
    let pkt = packet(0, true, 1_000_000_000, 0, 33_000_000, vec![0x65, 0x10, 0x20, 0x30, 0x40]);
    let expected: Vec<u8> = vec![
        0x47, 0x41, 0x01, 0x30, 0x81, 0x50, 0x00, 0x00, 0xaf, 0xc8, 0x7e, 0x00, 0x00, 0x00, 0x01, 0xe0,
        0x00, 0x00, 0x84, 0xc0, 0x0a, 0x31, 0x00, 0x00, 0x00, 0x00, 0x00, 0x00, 0x00, 0x0b, 0x00, 0x00,
        0x00, 0x00, 0x00, 0x00, 0xbf, 0x21, 0x11, 0x00, 0x00, 0x00, 0x00, 0x00, 0x00, 0x00, 0x0b, 0x00,
        0x00, 0x00, 0x00, 0x00, 0x00, 0xbf, 0x21, 0x00, 0x00, 0x00, 0x01, 0x09, 0xf0, 0x65, 0x10, 0x20,
        0x30, 0x40, 0xff, 0xff, 0xff, 0xff, 0xff, 0xff, 0xff, 0xff, 0xff, 0xff, 0xff, 0xff, 0xff, 0xff,
        0xff, 0xff, 0xff, 0xff, 0xff, 0xff, 0xff, 0xff, 0xff, 0xff, 0xff, 0xff, 0xff, 0xff, 0xff, 0xff,
        0xff, 0xff, 0xff, 0xff, 0xff, 0xff, 0xff, 0xff, 0xff, 0xff, 0xff, 0xff, 0xff, 0xff, 0xff, 0xff,
        0xff, 0xff, 0xff, 0xff, 0xff, 0xff, 0xff, 0xff, 0xff, 0xff, 0xff, 0xff, 0xff, 0xff, 0xff, 0xff,
        0xff, 0xff, 0xff, 0xff, 0xff, 0xff, 0xff, 0xff, 0xff, 0xff, 0xff, 0xff, 0xff, 0xff, 0xff, 0xff,
        0xff, 0xff, 0xff, 0xff, 0xff, 0xff, 0xff, 0xff, 0xff, 0xff, 0xff, 0xff, 0xff, 0xff, 0xff, 0xff,
        0xff, 0xff, 0xff, 0xff, 0xff, 0xff, 0xff, 0xff, 0xff, 0xff, 0xff, 0xff, 0xff, 0xff, 0xff, 0xff,
        0xff, 0xff, 0xff, 0xff, 0xff, 0xff, 0xff, 0xff, 0xff, 0xff, 0xff, 0xff,
    ];
    assert_eq!(muxer.write_packet(&pkt), expected);
    assert_eq!(muxer.streams.get(&0).unwrap().continuity_counter, 1);
}

#[test]
fn ts_two_packet_payload() {
    let mut muxer = TsMuxer::new();
    muxer.add_stream(0, CodecType::H264);
    // 49 header bytes + 311 data bytes = 176 + 184.
    let data: Vec<u8> = (0..311u32).map(|i| (i % 251) as u8).collect();
    let pkt = packet(0, true, 1_000_000_000, 0, 33_000_000, data.clone());
    let out = muxer.write_packet(&pkt);
    assert_eq!(out.len(), 376);
    assert_eq!(&out[0..4], &[0x47, 0x41, 0x01, 0x30]);
    assert_eq!(out[4], 7);
    assert_eq!(&out[188..192], &[0x47, 0x01, 0x01, 0x11]);
    assert_eq!(&out[188 + 4..], &data[127..]);
    assert_eq!(muxer.streams.get(&0).unwrap().continuity_counter, 2);
}

#[test]
fn ts_audio_packet_has_length_and_no_delimiter() {
    let mut muxer = TsMuxer::new();
    muxer.add_stream(2, CodecType::AAC);
    let pkt = packet(2, false, 2_000_000_000, 0, 21_000_000, vec![1, 2, 3]);
    let out = muxer.write_packet(&pkt);
    assert_eq!(out.len(), 188);
    assert_eq!(&out[0..4], &[0x47, 0x41, 0x03, 0x10]);
    assert_eq!(&out[4..10], &[0x00, 0x00, 0x01, 0xc0, 0x00, 0x0b]);
    // PTS 180000 on the 90 kHz clock, DTS equal to it.
    assert_eq!(out[13], 0x31);
    assert_eq!(&out[14..22], &[0, 0, 0, 0, 0, 0, 0x00, 0x15]);
    assert_eq!(&out[22..30], &[0, 0, 0, 0, 0, 0, 0x7e, 0x41]);
    assert_eq!(out[30], 0x11);
    assert_eq!(&out[47..50], &[1, 2, 3]);
    assert!(out[50..].iter().all(|&b| b == 0));
}

#[test]
fn ts_composition_offset_moves_dts() {
    let mut muxer = TsMuxer::new();
    muxer.add_stream(0, CodecType::H265);
    // PTS 90000, composition offset 0.5 s -> DTS 45000.
    let pkt = packet(0, true, 1_000_000_000, 500_000_000, 0, vec![0x26, 0x01]);
    let out = muxer.write_packet(&pkt);
    // PCR base carries the DTS.
    let pcr = ((out[6] as u64) << 25) | ((out[7] as u64) << 17) | ((out[8] as u64) << 9)
        | ((out[9] as u64) << 1) | ((out[10] as u64) >> 7);
    assert_eq!(pcr, 45000);
    assert_eq!(out[12 + 26], 0x11);
}

#[test]
fn ts_continuity_counter_wraps() {
    let mut muxer = TsMuxer::new();
    muxer.add_stream(0, CodecType::H264);
    for i in 0..17u8 {
        let out = muxer.write_packet(&packet(0, false, 0, 0, 0, vec![i]));
        assert_eq!(out[3] & 0x0f, i % 16);
    }
    assert_eq!(muxer.streams.get(&0).unwrap().continuity_counter, 1);
}

#[test]
fn ts_unknown_stream_gives_nothing() {
    let mut muxer = TsMuxer::new();
    muxer.add_stream(0, CodecType::H264);
    assert!(muxer.write_packet(&packet(1, true, 0, 0, 0, vec![1])).is_empty());
}

#[test]
fn ts_last_packet_is_stuffed() {
    let mut muxer = TsMuxer::new();
    muxer.add_stream(0, CodecType::H264);
    // 49 header bytes + 200 data bytes: 176 in the first packet, 73 left.
    let data: Vec<u8> = (0..200u32).map(|i| i as u8).collect();
    let out = muxer.write_packet(&packet(0, true, 1_000_000_000, 0, 0, data.clone()));
    assert_eq!(out.len(), 376);
    let last = &out[188..];
    assert_eq!(&last[0..4], &[0x47, 0x01, 0x01, 0x31]);
    // Adaptation field: length 110 (flags byte + 109 stuffing bytes).
    assert_eq!(last[4], 110);
    assert_eq!(last[5], 0x00);
    assert!(last[6..115].iter().all(|&b| b == 0xff));
    assert_eq!(&last[115..], &data[127..]);
    assert_eq!(muxer.streams.get(&0).unwrap().continuity_counter, 2);
}

#[test]
fn ts_last_packet_with_183_bytes_has_empty_adaptation_field() {
    let mut muxer = TsMuxer::new();
    muxer.add_stream(0, CodecType::H264);
    // 49 + 310 = 359 = 176 + 183.
    let data: Vec<u8> = (0..310u32).map(|i| (i * 7) as u8).collect();
    let out = muxer.write_packet(&packet(0, true, 1_000_000_000, 0, 0, data.clone()));
    assert_eq!(out.len(), 376);
    assert_eq!(&out[188..193], &[0x47, 0x01, 0x01, 0x31, 0x00]);
    assert_eq!(&out[193..], &data[127..]);
}

#[test]
fn ts_long_frame_payloads_reassemble() {
    let mut muxer = TsMuxer::new();
    muxer.add_stream(1, CodecType::AAC);
    let data: Vec<u8> = (0..1000u32).map(|i| (i % 253) as u8).collect();
    let out = muxer.write_packet(&packet(1, false, 0, 0, 0, data.clone()));
    // 43 header bytes + 1000 = 1043 = 184 + 4 * 184 + 123.
    assert_eq!(out.len(), 6 * 188);
    let mut pes = Vec::new();
    for chunk in out.chunks(188) {
        assert_eq!(chunk[0], 0x47);
        let start = if chunk[3] & 0x20 != 0 { 5 + chunk[4] as usize } else { 4 };
        pes.extend_from_slice(&chunk[start..]);
    }
    assert_eq!(pes.len(), 1043);
    assert_eq!(&pes[43..], &data[..]);
    assert_eq!(muxer.streams.get(&1).unwrap().continuity_counter, 6);
}

#[test]
fn packet_new_holds_its_bytes() {
    let p = Packet::new(2, true, 10, 20, 30, vec![5, 6, 7]);
    assert_eq!((p.idx, p.is_key_frame, p.time, p.composition_time, p.duration), (2, true, 10, 20, 30));
    assert_eq!(&p.data[..], &[5, 6, 7]);
}

#[test]
fn mp4_checked_write_matches_write() {
    let mut a = Mp4Muxer::new();
    let mut b = Mp4Muxer::new();
    a.add_stream(CodecType::H264, 320, 240, vec![]);
    b.add_stream(CodecType::H264, 320, 240, vec![]);
    let p = packet(0, true, 0, 0, 40_000_000, vec![1, 2, 3]);
    assert!(a.can_write(&p, 0));
    assert_eq!(a.write_packet_checked(&p, 0), Ok(b.write_packet(&p, 0)));
    // A frame of an unknown stream can be written, and changes nothing.
    assert!(a.can_write(&packet(7, true, 0, 0, 0, vec![]), 0));
}

#[test]
fn mp4_checked_write_refuses_broken_state() {
    let mut m = Mp4Muxer::new();
    m.add_stream(CodecType::H264, 320, 240, vec![]);
    m.sample_index = 3; // collecting, but no mdat header
    let p = packet(0, true, 0, 0, 0, vec![1]);
    assert!(!m.can_write(&p, 0));
    assert_eq!(m.write_packet_checked(&p, 0), Err("frame does not fit the muxer"));
    assert_eq!(m.sample_index, 3);
    m.sample_index = 0;
    m.fragment_index = u32::MAX;
    assert_eq!(m.write_packet_checked(&p, 0), Err("frame does not fit the muxer"));
    // Without closing a fragment the fragment counter is not touched.
    assert!(m.write_packet_checked(&packet(0, false, 0, 0, 0, vec![1]), 0).is_ok());
}

#[test]
fn ts_checked_write() {
    let mut a = TsMuxer::new();
    a.add_stream(0, CodecType::H264);
    let mut b = TsMuxer::new();
    b.add_stream(0, CodecType::H264);
    let p = packet(0, true, 1_000_000_000, 0, 0, vec![1, 2, 3]);
    assert!(a.can_write(&p));
    assert_eq!(a.write_packet_checked(&p), Ok(b.write_packet(&p)));
    // A composition offset past the presentation time is refused.
    let bad = packet(0, true, 1_000_000, 2_000_000, 0, vec![1]);
    assert!(!a.can_write(&bad));
    assert_eq!(a.write_packet_checked(&bad), Err("frame does not fit the muxer"));
    assert_eq!(a.streams.get(&0).unwrap().continuity_counter, 1);
    a.streams.get_mut(&0).unwrap().continuity_counter = 255;
    assert!(!a.can_write(&p));
}

/// Walks the boxes in `b`, descending into the containers (and into the
/// sample entries past their fixed fields), checking that each box's size
/// field covers exactly its bytes within its parent.
fn check_boxes(b: &[u8], count: &mut usize) {
    let mut pos = 0;
    while pos < b.len() {
        let size = be32_at(b, pos) as usize;
        assert!(size >= 8 && pos + size <= b.len(), "box at {} overruns", pos);
        let tag = &b[pos + 4..pos + 8];
        let body = &b[pos + 8..pos + size];
        *count += 1;
        match tag {
            b"moov" | b"trak" | b"mdia" | b"minf" | b"dinf" | b"stbl" | b"mvex" => check_boxes(body, count),
            b"dref" => check_boxes(&body[8..], count),
            b"stsd" => check_boxes(&body[8..], count),
            b"avc1" | b"hvc1" => check_boxes(&body[78..], count),
            b"mp4a" => check_boxes(&body[28..], count),
            _ => {}
        }
        pos += size;
    }
    assert_eq!(pos, b.len());
}

#[test]
fn mp4_every_init_box_states_its_size() {
    let mut muxer = Mp4Muxer::new();
    muxer.add_stream(CodecType::H264, 1920, 1080, vec![1, 2, 3, 4]);
    muxer.add_stream(CodecType::H265, 1280, 720, vec![5; 30]);
    muxer.add_stream(CodecType::AAC, 0, 0, vec![0x12, 0x10]);
    muxer.add_stream(CodecType::PcmAlaw, 0, 0, vec![]);
    let init = muxer.get_init();
    let mut count = 0;
    check_boxes(&init, &mut count);
    // ftyp, moov, mvhd, mvex, mehd, 4 trex, and per track: trak tkhd mdia
    // mdhd hdlr minf dinf dref url stbl stsd stts stsc stss stco stsz (16),
    // plus a media header and a sample entry with its configuration box for
    // three of the tracks.
    assert_eq!(count, 9 + 4 * 16 + 3 * 3);
}

use zenovdk::av::{CodecType, Packet};
use zenovdk::format::rtsp::RtspParser;

/// An interleaved RTSP frame (`$`, channel, 16-bit length) around an RTP
/// packet with the given time stamp and payload.
fn frame(channel: u8, timestamp: u32, payload: &[u8]) -> Vec<u8> {
    let mut rtp = vec![0x80, 0x60, 0x00, 0x01];
    rtp.extend_from_slice(&timestamp.to_be_bytes());
    rtp.extend_from_slice(&[0x12, 0x34, 0x56, 0x78]);
    rtp.extend_from_slice(payload);
    let mut f = vec![0x24, channel];
    f.extend_from_slice(&(rtp.len() as u16).to_be_bytes());
    f.extend_from_slice(&rtp);
    f
}

fn drain(p: &mut RtspParser) -> Vec<Packet> {
    let mut out = Vec::new();
    while let Some(pkt) = p.poll_packet() {
        out.push(pkt);
    }
    out
}

fn summary(p: &Packet) -> (i8, bool, u64, u64, u64, Vec<u8>) {
    (p.idx, p.is_key_frame, p.time, p.composition_time, p.duration, p.data.to_vec())
}

#[test]
fn rtsp_single_nal_unit() {
    let mut p = RtspParser::new(CodecType::H264, CodecType::AAC);
    p.feed_bytes(&frame(0, 90000, &[0x65, 0xaa, 0xbb]));
    let pkts = drain(&mut p);
    assert_eq!(pkts.len(), 1);
    assert_eq!(
        summary(&pkts[0]),
        (0, true, 1_000_000_000, 1_000_000, 0, vec![0, 0, 0, 3, 0x65, 0xaa, 0xbb])
    );
    assert!(p.poll_packet().is_none());
}

#[test]
fn rtsp_video_duration_from_time_stamps() {
    let mut p = RtspParser::new(CodecType::H264, CodecType::AAC);
    p.feed_bytes(&frame(0, 90000, &[0x65, 0x01]));
    p.feed_bytes(&frame(0, 93000, &[0x41, 0x02]));
    // A time stamp that goes back gives a zero duration.
    p.feed_bytes(&frame(0, 92000, &[0x41, 0x03]));
    let pkts = drain(&mut p);
    assert_eq!(pkts.len(), 3);
    // 3000 ticks of 90 kHz: 33.3 ms, whole milliseconds.
    assert_eq!(summary(&pkts[1]), (0, false, 1_033_000_000, 1_000_000, 33_000_000, vec![0, 0, 0, 2, 0x41, 0x02]));
    assert_eq!(pkts[2].duration, 0);
    assert_eq!(pkts[2].time, 1_022_000_000);
}

#[test]
fn rtsp_fu_a_reassembly() {
    let mut p = RtspParser::new(CodecType::H264, CodecType::AAC);
    p.feed_bytes(&frame(0, 180000, &[0x7c, 0x85, 0x11, 0x22]));
    p.feed_bytes(&frame(0, 180000, &[0x7c, 0x05, 0x33]));
    assert!(p.poll_packet().is_none());
    p.feed_bytes(&frame(0, 180000, &[0x7c, 0x45, 0x44]));
    let pkts = drain(&mut p);
    assert_eq!(pkts.len(), 1);
    assert_eq!(
        summary(&pkts[0]),
        (0, true, 2_000_000_000, 1_000_000, 0, vec![0, 0, 0, 5, 0x65, 0x11, 0x22, 0x33, 0x44])
    );
}

#[test]
fn rtsp_fu_a_without_start_is_dropped() {
    let mut p = RtspParser::new(CodecType::H264, CodecType::AAC);
    p.feed_bytes(&frame(0, 3000, &[0x7c, 0x05, 0x33]));
    p.feed_bytes(&frame(0, 3000, &[0x7c, 0x41, 0x44]));
    assert!(p.poll_packet().is_none());
    // Other NAL unit types are dropped too.
    p.feed_bytes(&frame(0, 3000, &[0x67, 0x42]));
    assert!(p.poll_packet().is_none());
}

#[test]
fn rtsp_h265_units() {
    let mut p = RtspParser::new(CodecType::H265, CodecType::AAC);
    p.feed_bytes(&frame(0, 9000, &[0x26, 0x01, 0xaf]));
    p.feed_bytes(&frame(0, 12000, &[0x62, 0x01, 0x81, 0xaa]));
    p.feed_bytes(&frame(0, 12000, &[0x62, 0x01, 0x41, 0xbb]));
    let pkts = drain(&mut p);
    assert_eq!(pkts.len(), 2);
    assert_eq!(summary(&pkts[0]), (0, true, 100_000_000, 1_000_000, 0, vec![0, 0, 0, 3, 0x26, 0x01, 0xaf]));
    assert_eq!(
        summary(&pkts[1]),
        (0, false, 133_000_000, 1_000_000, 0, vec![0, 0, 0, 4, 0x02, 0x01, 0xaa, 0xbb])
    );
}

#[test]
fn rtsp_aac_access_units() {
    let mut p = RtspParser::new(CodecType::H264, CodecType::AAC);
    p.feed_bytes(&frame(2, 0, &[0x00, 0x20, 0x00, 0x20, 0x00, 0x18, 1, 2, 3, 4, 5, 6, 7]));
    let pkts = drain(&mut p);
    assert_eq!(pkts.len(), 2);
    assert_eq!(summary(&pkts[0]), (1, false, 128_000_000, 1_000_000, 128_000_000, vec![1, 2, 3, 4]));
    assert_eq!(summary(&pkts[1]), (1, false, 256_000_000, 1_000_000, 128_000_000, vec![5, 6, 7]));
}

#[test]
fn rtsp_aac_adts_header_is_stripped() {
    let mut p = RtspParser::new(CodecType::H264, CodecType::AAC);
    let au = [0x00, 0x10, 0x00, 0x48, 0xff, 0xf1, 0x50, 0x80, 0x01, 0x3f, 0xfc, 0xab, 0xcd];
    p.feed_bytes(&frame(2, 0, &au));
    let pkts = drain(&mut p);
    assert_eq!(pkts.len(), 1);
    assert_eq!(pkts[0].data.to_vec(), vec![0xab, 0xcd]);
}

#[test]
fn rtsp_aac_short_frame_ends_the_payload() {
    let mut p = RtspParser::new(CodecType::H264, CodecType::AAC);
    // The second header asks for 8 bytes where 2 are left.
    p.feed_bytes(&frame(2, 0, &[0x00, 0x20, 0x00, 0x10, 0x00, 0x40, 1, 2, 3, 4]));
    let pkts = drain(&mut p);
    assert_eq!(pkts.len(), 1);
    assert_eq!(pkts[0].data.to_vec(), vec![1, 2]);
}

#[test]
fn rtsp_pcm_audio() {
    let mut p = RtspParser::new(CodecType::H264, CodecType::PcmAlaw);
    let samples: Vec<u8> = (0..160u32).map(|i| i as u8).collect();
    p.feed_bytes(&frame(2, 0, &samples));
    p.feed_bytes(&frame(2, 160, &samples));
    let pkts = drain(&mut p);
    assert_eq!(pkts.len(), 2);
    // 160 samples at 8 kHz: 20 ms each.
    assert_eq!(summary(&pkts[0]), (1, false, 20_000_000, 1_000_000, 20_000_000, samples.clone()));
    assert_eq!(pkts[1].time, 40_000_000);
}

#[test]
fn rtsp_other_audio_codec_is_dropped() {
    let mut p = RtspParser::new(CodecType::H264, CodecType::Opus);
    p.feed_bytes(&frame(2, 0, &[1, 2, 3]));
    assert!(p.poll_packet().is_none());
}

#[test]
fn rtsp_set_channels() {
    let mut p = RtspParser::new(CodecType::H264, CodecType::PcmMulaw);
    p.set_channels(4, 6);
    p.feed_bytes(&frame(0, 90000, &[0x65, 0x01]));
    p.feed_bytes(&frame(2, 0, &[1, 2]));
    assert!(p.poll_packet().is_none());
    p.feed_bytes(&frame(4, 90000, &[0x65, 0x01]));
    p.feed_bytes(&frame(6, 0, &[1, 2]));
    let pkts = drain(&mut p);
    assert_eq!(pkts.len(), 2);
    assert_eq!(pkts[0].idx, 0);
    assert_eq!(pkts[1].idx, 1);
    assert_eq!(pkts[1].duration, 250_000);
}

#[test]
fn rtsp_rtp_header_extensions_and_csrcs() {
    let mut p = RtspParser::new(CodecType::H264, CodecType::AAC);
    // One CSRC, then a one-word header extension.
    let mut rtp = vec![0x91, 0x60, 0x00, 0x01, 0x00, 0x01, 0x5f, 0x90, 0, 0, 0, 1];
    rtp.extend_from_slice(&[0xaa, 0xbb, 0xcc, 0xdd]);
    rtp.extend_from_slice(&[0xbe, 0xde, 0x00, 0x01, 9, 9, 9, 9]);
    rtp.extend_from_slice(&[0x65, 0x77]);
    let mut f = vec![0x24, 0x00, 0x00, rtp.len() as u8];
    f.extend_from_slice(&rtp);
    p.feed_bytes(&f);
    let pkts = drain(&mut p);
    assert_eq!(pkts.len(), 1);
    assert_eq!(pkts[0].data.to_vec(), vec![0, 0, 0, 2, 0x65, 0x77]);
}

#[test]
fn rtsp_short_or_empty_rtp_is_ignored() {
    let mut p = RtspParser::new(CodecType::H264, CodecType::AAC);
    p.feed_bytes(&[0x24, 0x00, 0x00, 0x05, 1, 2, 3, 4, 5]);
    p.feed_bytes(&frame(0, 90000, &[]));
    assert!(p.poll_packet().is_none());
}

#[test]
fn rtsp_noise_between_frames_is_skipped() {
    let mut p = RtspParser::new(CodecType::H264, CodecType::AAC);
    let mut bytes = vec![0x52, 0x54, 0x53, 0x50];
    bytes.extend_from_slice(&frame(0, 90000, &[0x65, 0x01]));
    bytes.extend_from_slice(&[0x0d, 0x0a]);
    bytes.extend_from_slice(&frame(0, 90000, &[0x41, 0x02]));
    p.feed_bytes(&bytes);
    let pkts = drain(&mut p);
    assert_eq!(pkts.len(), 2);
    assert_eq!(pkts[1].data.to_vec(), vec![0, 0, 0, 2, 0x41, 0x02]);
}

#[test]
fn rtsp_partial_frame_waits_for_more_bytes() {
    let whole = frame(0, 90000, &[0x65, 0xaa, 0xbb]);
    let mut p = RtspParser::new(CodecType::H264, CodecType::AAC);
    p.feed_bytes(&whole[..10]);
    assert!(p.poll_packet().is_none());
    p.feed_bytes(&whole[10..]);
    let pkts = drain(&mut p);
    assert_eq!(pkts.len(), 1);
    assert_eq!(pkts[0].data.to_vec(), vec![0, 0, 0, 3, 0x65, 0xaa, 0xbb]);
}

#[test]
fn rtsp_byte_by_byte_feeding_matches_one_feed() {
    let mut stream = Vec::new();
    stream.extend_from_slice(&frame(0, 90000, &[0x7c, 0x85, 0x11]));
    stream.extend_from_slice(&[0xee]);
    stream.extend_from_slice(&frame(2, 0, &[0x00, 0x10, 0x00, 0x10, 7, 8]));
    stream.extend_from_slice(&frame(0, 93000, &[0x7c, 0x45, 0x22]));
    stream.extend_from_slice(&frame(0, 96000, &[0x41, 0x33]));

    let mut whole = RtspParser::new(CodecType::H264, CodecType::AAC);
    whole.feed_bytes(&stream);
    let a: Vec<_> = drain(&mut whole).iter().map(summary).collect();

    let mut bytewise = RtspParser::new(CodecType::H264, CodecType::AAC);
    for b in &stream {
        bytewise.feed_bytes(&[*b]);
    }
    let b: Vec<_> = drain(&mut bytewise).iter().map(summary).collect();
    assert_eq!(a.len(), 3);
    assert_eq!(a, b);
}

#[test]
fn rtsp_poll_is_first_in_first_out() {
    let mut p = RtspParser::new(CodecType::H264, CodecType::AAC);
    for i in 1..=4u8 {
        p.feed_bytes(&frame(0, 90000 * i as u32, &[0x41, i]));
    }
    for i in 1..=4u8 {
        let pkt = p.poll_packet().unwrap();
        assert_eq!(pkt.data.to_vec(), vec![0, 0, 0, 2, 0x41, i]);
    }
    assert!(p.poll_packet().is_none());
}

#[test]
fn rtsp_checked_feed_refuses_short_fragments() {
    let mut p = RtspParser::new(CodecType::H264, CodecType::AAC);
    let bad = frame(0, 90000, &[0x7c]);
    assert!(p.feed_faults(&bad));
    assert!(!p.feed_bytes_checked(&bad));
    assert!(p.poll_packet().is_none());
    // Nothing was buffered or changed: the next frame parses as usual.
    let good = frame(0, 90000, &[0x65, 0xaa]);
    assert!(!p.feed_faults(&good));
    assert!(p.feed_bytes_checked(&good));
    let pkts = drain(&mut p);
    assert_eq!(pkts.len(), 1);
    assert_eq!(pkts[0].data.to_vec(), vec![0, 0, 0, 2, 0x65, 0xaa]);

    let mut q = RtspParser::new(CodecType::H265, CodecType::AAC);
    assert!(q.feed_faults(&frame(0, 0, &[0x62, 0x01])));
    assert!(!q.feed_faults(&frame(0, 0, &[0x62, 0x01, 0x81])));
}

#[test]
fn rtsp_checked_feed_matches_feed() {
    let mut stream = frame(0, 90000, &[0x7c, 0x85, 0x11]);
    stream.extend_from_slice(&frame(2, 0, &[0x00, 0x10, 0x00, 0x10, 7, 8]));
    stream.extend_from_slice(&frame(0, 93000, &[0x7c, 0x45, 0x22]));
    let mut a = RtspParser::new(CodecType::H264, CodecType::AAC);
    let mut b = RtspParser::new(CodecType::H264, CodecType::AAC);
    assert!(a.feed_bytes_checked(&stream[..20]));
    assert!(a.feed_bytes_checked(&stream[20..]));
    b.feed_bytes(&stream);
    let x: Vec<_> = drain(&mut a).iter().map(summary).collect();
    let y: Vec<_> = drain(&mut b).iter().map(summary).collect();
    assert_eq!(x.len(), 2);
    assert_eq!(x, y);
}

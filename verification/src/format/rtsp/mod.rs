use crate::av::{bytes_copy_from_slice, bytes_from_vec, bytes_view, CodecType, Packet};
use crate::utils::buf::{be32, extend, push_be32};
use vstd::prelude::*;

verus! {

// ---------------------------------------------------------------------------
// Model
// ---------------------------------------------------------------------------
/// What a demuxed packet holds: stream index, key frame flag, time,
/// composition offset and duration (nanoseconds), and its bytes.
pub type PacketModel = (i8, bool, u64, u64, u64, Seq<u8>);

/// The view of a packet.
pub open spec fn packet_model(p: Packet) -> PacketModel {
    (p.idx, p.is_key_frame, p.time, p.composition_time, p.duration, bytes_view(p.data))
}

/// The settings of a parser that feeding bytes does not change.
#[derive(Clone, Copy)]
pub struct RtspConfig {
    pub video_channel: u8,
    pub audio_channel: u8,
    pub video_codec: CodecType,
    pub audio_codec: CodecType,
    pub video_idx: i8,
    pub audio_idx: i8,
    pub audio_timescale: u32,
}

/// The state of a parser apart from its buffered bytes: the fragmented
/// unit being reassembled, the last video RTP time stamp, the audio
/// timeline (nanoseconds), the packets ready to be polled, and whether the
/// input has driven the parser into a fault (a fragment too short to hold
/// its fragment header, or an audio timeline past `u64::MAX` nanoseconds).
pub struct RtspState {
    pub fu_buffer: Seq<u8>,
    pub fu_started: bool,
    pub pre_video_ts: u64,
    pub audio_timeline: u64,
    pub queue: Seq<PacketModel>,
    pub fault: bool,
}

/// The state of a parser that feeding bytes changes: the bytes not yet
/// parsed, and the rest of its state.
pub struct RtspModel {
    pub buffer: Seq<u8>,
    pub state: RtspState,
}

/// One millisecond, in nanoseconds.
pub open spec fn one_ms() -> u64 {
    1_000_000
}

/// Queues a video unit with its 4-byte big-endian length in front; its time
/// is the RTP time stamp on the 90 kHz clock, in whole milliseconds.
pub open spec fn push_video(c: RtspConfig, m: RtspState, nal: Seq<u8>, key: bool, dur_ms: u64, ts: u64) -> RtspState {
    RtspState {
        queue: m.queue.push(
            (
                c.video_idx,
                key,
                ((ts / 90) * 1_000_000) as u64,
                one_ms(),
                (dur_ms * 1_000_000) as u64,
                be32(nal.len() as u32) + nal,
            ),
        ),
        ..m
    }
}

/// The fragment handling shared by H.264 FU-A and H.265 FU: a start
/// fragment begins a unit with the rebuilt NAL header `hdr`; while a unit
/// is open its payload (from `skip` on) is appended; an end fragment closes
/// it and queues it.
pub open spec fn spec_fragment(
    c: RtspConfig,
    m: RtspState,
    data: Seq<u8>,
    skip: int,
    is_start: bool,
    is_end: bool,
    hdr: Seq<u8>,
    key: bool,
    dur_ms: u64,
    ts: u64,
) -> RtspState {
    let m1 = if is_start {
        RtspState { fu_started: true, fu_buffer: hdr, ..m }
    } else {
        m
    };
    if m1.fu_started {
        let fu = m1.fu_buffer + data.skip(skip);
        if is_end {
            push_video(c, RtspState { fu_started: false, fu_buffer: fu, ..m1 }, fu, key, dur_ms, ts)
        } else {
            RtspState { fu_buffer: fu, ..m1 }
        }
    } else {
        m1
    }
}

/// Handling an H.264 payload (RFC 6184): single NAL units of types 1 to 5
/// are queued, FU-A fragments (type 28) are reassembled, the rest ignored.
pub open spec fn spec_h264(c: RtspConfig, m: RtspState, data: Seq<u8>, dur_ms: u64, ts: u64) -> RtspState {
    let t = data[0] & 0x1f;
    if 1 <= t <= 5 {
        push_video(c, m, data, t == 5, dur_ms, ts)
    } else if t == 28 {
        if data.len() < 2 {
            RtspState { fault: true, ..m }
        } else {
            let inner = data[1] & 0x1f;
            spec_fragment(
                c,
                m,
                data,
                2,
                data[1] & 0x80 != 0,
                data[1] & 0x40 != 0,
                seq![(data[0] & 0xe0) | inner],
                inner == 5,
                dur_ms,
                ts,
            )
        }
    } else {
        m
    }
}

/// Handling an H.265 payload (RFC 7798): single NAL units of types 0 to 21
/// are queued, fragmentation units (type 49) are reassembled, the rest
/// ignored.
pub open spec fn spec_h265(c: RtspConfig, m: RtspState, data: Seq<u8>, dur_ms: u64, ts: u64) -> RtspState {
    let t = (data[0] >> 1u8) & 0x3f;
    if t <= 21 {
        push_video(c, m, data, t == 19 || t == 20, dur_ms, ts)
    } else if t == 49 {
        if data.len() < 3 {
            RtspState { fault: true, ..m }
        } else {
            let inner = data[2] & 0x3f;
            spec_fragment(
                c,
                m,
                data,
                3,
                data[2] & 0x80 != 0,
                data[2] & 0x40 != 0,
                seq![(data[0] & 0x81) | (inner << 1u8), data[1]],
                inner == 19 || inner == 20,
                dur_ms,
                ts,
            )
        }
    } else {
        m
    }
}

/// The duration, in whole milliseconds on the 90 kHz clock, since the
/// previous video time stamp (the current one when there is none), or 0
/// when the time stamp went back.
pub open spec fn video_dur_ms(pre_video_ts: u64, ts: u64) -> u64 {
    let pre = if pre_video_ts == 0 {
        ts
    } else {
        pre_video_ts
    };
    if ts >= pre {
        ((ts - pre) / 90) as u64
    } else {
        0
    }
}

/// Handling the payload of a video RTP packet with time stamp `ts`; the
/// time stamp becomes the previous one.
pub open spec fn spec_video(c: RtspConfig, m: RtspState, ts: u64, data: Seq<u8>) -> RtspState {
    if data.len() == 0 {
        m
    } else {
        let dur_ms = video_dur_ms(m.pre_video_ts, ts);
        let m1 = match c.video_codec {
            CodecType::H264 => spec_h264(c, m, data, dur_ms, ts),
            CodecType::H265 => spec_h265(c, m, data, dur_ms, ts),
            _ => m,
        };
        RtspState { pre_video_ts: ts, ..m1 }
    }
}

/// The big-endian 16-bit number at `i`.
pub open spec fn be16_at(b: Seq<u8>, i: int) -> int {
    b[i] * 256 + b[i + 1]
}

/// Advances the audio timeline by `dur` and queues an audio frame at the
/// new time.
pub open spec fn push_audio(c: RtspConfig, m: RtspState, frame: Seq<u8>, dur: u64) -> RtspState {
    let t = m.audio_timeline + dur;
    if t > u64::MAX {
        RtspState { fault: true, ..m }
    } else {
        RtspState {
            audio_timeline: t as u64,
            queue: m.queue.push((c.audio_idx, false, t as u64, one_ms(), dur, frame)),
            ..m
        }
    }
}

/// The duration of an AAC frame (1024 samples), in nanoseconds.
pub open spec fn aac_frame_ns(timescale: u32) -> u64 {
    (1024 * 1_000_000_000 / timescale as nat) as u64
}

/// The AAC frames of an RTP payload from AU header `i` on: each header
/// gives its frame's size (upper 13 bits); a frame that does not fit in
/// what is left ends the walk; an ADTS header in front of a frame is
/// dropped.
pub open spec fn spec_aac_frames(
    c: RtspConfig,
    m: RtspState,
    data: Seq<u8>,
    i: nat,
    count: nat,
    frames: Seq<u8>,
) -> RtspState
    decreases count - i,
{
    if i >= count || 2 + 2 * i + 1 >= data.len() {
        m
    } else {
        let size = be16_at(data, 2 + 2 * i as int) / 8;
        if frames.len() < size {
            m
        } else {
            let frame = frames.take(size);
            let frame = if frame.len() > 7 && frame[0] == 0xff && frame[1] & 0xf0 == 0xf0 {
                frame.skip(7)
            } else {
                frame
            };
            let m1 = push_audio(c, m, frame, aac_frame_ns(c.audio_timescale));
            spec_aac_frames(c, m1, data, i + 1, count, frames.skip(size))
        }
    }
}

/// Handling the payload of an audio RTP packet.
pub open spec fn spec_audio(c: RtspConfig, m: RtspState, data: Seq<u8>) -> RtspState {
    if data.len() == 0 {
        m
    } else {
        match c.audio_codec {
            CodecType::AAC => {
                if data.len() < 4 {
                    m
                } else {
                    let count = (be16_at(data, 0) / 16) as nat;
                    let off = 2 + 2 * count as int;
                    if data.len() < off {
                        m
                    } else {
                        spec_aac_frames(c, m, data, 0, count, data.skip(off))
                    }
                }
            },
            CodecType::PcmAlaw | CodecType::PcmMulaw => {
                push_audio(c, m, data, (data.len() * 1_000_000_000 / c.audio_timescale as nat) as u64)
            },
            _ => m,
        }
    }
}

/// Handling an RTP packet that arrived on interleaved channel `channel`:
/// the payload after the fixed header, the CSRC list and any header
/// extension goes to the video or the audio handler by channel.
pub open spec fn spec_demux(c: RtspConfig, m: RtspState, channel: u8, p: Seq<u8>) -> RtspState {
    if p.len() < 12 {
        m
    } else {
        let csrc = (p[0] & 0x0f) as int;
        let off = 12 + csrc * 4;
        let off = if p[0] & 0x10 != 0 && off + 4 <= p.len() {
            off + 4 + be16_at(p, off + 2) * 4
        } else {
            off
        };
        if off >= p.len() {
            m
        } else {
            let ts = (p[4] * 0x100_0000 + p[5] * 0x1_0000 + p[6] * 0x100 + p[7]) as u64;
            let rtp = p.skip(off);
            if channel == c.video_channel {
                spec_video(c, m, ts, rtp)
            } else if channel == c.audio_channel {
                spec_audio(c, m, rtp)
            } else {
                m
            }
        }
    }
}

/// Scanning `buf` from `pos` for interleaved frames (`$`, channel, 16-bit
/// length, packet): complete frames are demuxed, other bytes skipped one at
/// a time; the scan stops at an incomplete frame or when fewer than 4 bytes
/// are left. Returns the state and where the scan stopped.
pub open spec fn spec_scan(c: RtspConfig, m: RtspState, buf: Seq<u8>, pos: int) -> (RtspState, int)
    decreases buf.len() - pos,
{
    if pos < 0 || pos + 4 > buf.len() {
        (m, pos)
    } else if buf[pos] == 0x24 {
        let len = be16_at(buf, pos + 2);
        if pos + 4 + len > buf.len() {
            (m, pos)
        } else {
            spec_scan(
                c,
                spec_demux(c, m, buf[pos + 1], buf.subrange(pos + 4, pos + 4 + len)),
                buf,
                pos + 4 + len,
            )
        }
    } else {
        spec_scan(c, m, buf, pos + 1)
    }
}

/// Feeding `data`: it joins the buffered bytes, the complete frames are
/// handled, and the bytes from where the scan stopped stay buffered.
pub open spec fn spec_feed(c: RtspConfig, m: RtspModel, data: Seq<u8>) -> RtspModel {
    let buf = m.buffer + data;
    let (s2, p) = spec_scan(c, m.state, buf, 0);
    RtspModel { buffer: buf.skip(p), state: s2 }
}

// ---------------------------------------------------------------------------
// A fault, once raised, stays raised
// ---------------------------------------------------------------------------
proof fn lemma_aac_keeps_fault(
    c: RtspConfig,
    m: RtspState,
    data: Seq<u8>,
    i: nat,
    count: nat,
    frames: Seq<u8>,
)
    ensures
        m.fault ==> spec_aac_frames(c, m, data, i, count, frames).fault,
    decreases count - i,
{
    if i < count && 2 + 2 * i + 1 < data.len() {
        let size = be16_at(data, 2 + 2 * i as int) / 8;
        if frames.len() >= size {
            let frame = frames.take(size);
            let frame = if frame.len() > 7 && frame[0] == 0xff && frame[1] & 0xf0 == 0xf0 {
                frame.skip(7)
            } else {
                frame
            };
            let m1 = push_audio(c, m, frame, aac_frame_ns(c.audio_timescale));
            lemma_aac_keeps_fault(c, m1, data, i + 1, count, frames.skip(size));
        }
    }
}

proof fn lemma_demux_keeps_fault(c: RtspConfig, m: RtspState, channel: u8, p: Seq<u8>)
    ensures
        m.fault ==> spec_demux(c, m, channel, p).fault,
{
    if p.len() >= 12 {
        let csrc = (p[0] & 0x0f) as int;
        let off = 12 + csrc * 4;
        let off = if p[0] & 0x10 != 0 && off + 4 <= p.len() {
            off + 4 + be16_at(p, off + 2) * 4
        } else {
            off
        };
        if off < p.len() {
            let rtp = p.skip(off);
            if rtp.len() >= 4 {
                let count = (be16_at(rtp, 0) / 16) as nat;
                let o = 2 + 2 * count as int;
                if rtp.len() >= o {
                    lemma_aac_keeps_fault(c, m, rtp, 0, count, rtp.skip(o));
                }
            }
        }
    }
}

/// A fault raised by any frame of the scan shows in its result.
pub proof fn lemma_scan_keeps_fault(c: RtspConfig, m: RtspState, buf: Seq<u8>, pos: int)
    ensures
        m.fault ==> spec_scan(c, m, buf, pos).0.fault,
    decreases buf.len() - pos,
{
    if pos >= 0 && pos + 4 <= buf.len() {
        if buf[pos] == 0x24 {
            let len = be16_at(buf, pos + 2);
            if pos + 4 + len <= buf.len() {
                let p = buf.subrange(pos + 4, pos + 4 + len);
                lemma_demux_keeps_fault(c, m, buf[pos + 1], p);
                lemma_scan_keeps_fault(c, spec_demux(c, m, buf[pos + 1], p), buf, pos + 4 + len);
            }
        } else {
            lemma_scan_keeps_fault(c, m, buf, pos + 1);
        }
    }
}

// ---------------------------------------------------------------------------
// Parser
// ---------------------------------------------------------------------------
/// A demuxer of RTP packets interleaved in an RTSP byte stream: it
/// reassembles fragmented H.264 / H.265 units, splits AAC access units and
/// queues the frames as packets.
pub struct RtspParser {
    buffer: Vec<u8>,
    video_channel: u8,
    audio_channel: u8,
    video_codec: CodecType,
    audio_codec: CodecType,
    video_idx: i8,
    audio_idx: i8,
    fu_buffer: Vec<u8>,
    fu_started: bool,
    pre_video_ts: u64,
    audio_timeline: u64,
    audio_timescale: u32,
    packet_queue: Vec<Packet>,
}

proof fn lemma_be16_bytes(a: u8, b: u8)
    ensures
        ((a as usize) << 8usize) | (b as usize) == a * 256 + b,
        ((a as u16) << 8u16) | (b as u16) == a * 256 + b,
{
    assert(((a as usize) << 8usize) | (b as usize) == a * 256 + b) by (bit_vector);
    assert(((a as u16) << 8u16) | (b as u16) == a * 256 + b) by (bit_vector);
}

proof fn lemma_u16_shifts(x: u16)
    ensures
        x >> 4u16 == x / 16,
        x >> 3u16 == x / 8,
{
    assert(x >> 4u16 == x / 16) by (bit_vector);
    assert(x >> 3u16 == x / 8) by (bit_vector);
}

proof fn lemma_be32_bytes(a: u8, b: u8, c: u8, d: u8)
    ensures
        ((a as u64) << 24u64) | ((b as u64) << 16u64) | ((c as u64) << 8u64) | (d as u64) == a
            * 0x100_0000 + b * 0x1_0000 + c * 0x100 + d,
{
    assert(((a as u64) << 24u64) | ((b as u64) << 16u64) | ((c as u64) << 8u64) | (d as u64) == a
        * 0x100_0000 + b * 0x1_0000 + c * 0x100 + d) by (bit_vector);
}

impl RtspParser {
    /// The parser's audio clock rate is not zero.
    pub closed spec fn wf(&self) -> bool {
        self.audio_timescale > 0
    }

    /// The channels, codecs and stream indices of the parser.
    pub closed spec fn config(&self) -> RtspConfig {
        RtspConfig {
            video_channel: self.video_channel,
            audio_channel: self.audio_channel,
            video_codec: self.video_codec,
            audio_codec: self.audio_codec,
            video_idx: self.video_idx,
            audio_idx: self.audio_idx,
            audio_timescale: self.audio_timescale,
        }
    }

    /// The state of the parser.
    pub closed spec fn model(&self) -> RtspModel {
        RtspModel { buffer: self.buffer@, state: self.state() }
    }

    /// The state of the parser apart from its buffered bytes.
    pub closed spec fn state(&self) -> RtspState {
        RtspState {
            fu_buffer: self.fu_buffer@,
            fu_started: self.fu_started,
            pre_video_ts: self.pre_video_ts,
            audio_timeline: self.audio_timeline,
            queue: self.packet_queue@.map_values(|p: Packet| packet_model(p)),
            fault: false,
        }
    }

    /// A parser for video on channel 0 (stream 0) and audio on channel 2
    /// (stream 1, 8 kHz).
    pub fn new(video_codec: CodecType, audio_codec: CodecType) -> (r: Self)
        ensures
            r.wf(),
            r.config() == (RtspConfig {
                video_channel: 0,
                audio_channel: 2,
                video_codec,
                audio_codec,
                video_idx: 0,
                audio_idx: 1,
                audio_timescale: 8000,
            }),
            r.model() == (RtspModel {
                buffer: Seq::empty(),
                state: RtspState {
                    fu_buffer: Seq::empty(),
                    fu_started: false,
                    pre_video_ts: 0,
                    audio_timeline: 0,
                    queue: Seq::empty(),
                    fault: false,
                },
            }),
    {
        let r = Self {
            buffer: Vec::new(),
            video_channel: 0,
            audio_channel: 2,
            video_codec,
            audio_codec,
            video_idx: 0,
            audio_idx: 1,
            fu_buffer: Vec::new(),
            fu_started: false,
            pre_video_ts: 0,
            audio_timeline: 0,
            audio_timescale: 8000,
            packet_queue: Vec::new(),
        };
        assert(r.state().queue =~= Seq::<PacketModel>::empty());
        r
    }

    /// Sets the interleaved channels of video and audio.
    pub fn set_channels(&mut self, video: u8, audio: u8)
        ensures
            old(self).wf() ==> final(self).wf(),
            final(self).config() == (RtspConfig {
                video_channel: video,
                audio_channel: audio,
                ..old(self).config()
            }),
            final(self).model() == old(self).model(),
    {
        self.video_channel = video;
        self.audio_channel = audio;
    }

    /// Appends bytes of the RTSP stream and demuxes every complete
    /// interleaved frame; the packets are queued for `poll_packet`.
    pub fn feed_bytes(&mut self, data: &[u8])
        requires
            old(self).wf(),
            !spec_feed(old(self).config(), old(self).model(), data@).state.fault,
            old(self).model().buffer.len() + data@.len() + 0x1_0004 <= usize::MAX,
        ensures
            final(self).wf(),
            final(self).config() == old(self).config(),
            final(self).model() == spec_feed(old(self).config(), old(self).model(), data@),
    {
        extend(&mut self.buffer, data);
        self.parse_buffer();
    }

    /// Takes the oldest queued packet.
    pub fn poll_packet(&mut self) -> (r: Option<Packet>)
        ensures
            old(self).wf() ==> final(self).wf(),
            final(self).config() == old(self).config(),
            old(self).model().state.queue.len() == 0 ==> r is None && final(self).model() == old(
                self,
            ).model(),
            old(self).model().state.queue.len() > 0 ==> r is Some && packet_model(r->0) == old(
                self,
            ).model().state.queue[0] && final(self).model() == (RtspModel {
                state: RtspState {
                    queue: old(self).model().state.queue.drop_first(),
                    ..old(self).model().state
                },
                ..old(self).model()
            }),
    {
        if !self.packet_queue.is_empty() {
            let p = self.packet_queue.remove(0);
            proof {
                assert(self.state().queue =~= old(self).state().queue.drop_first());
            }
            Some(p)
        } else {
            None
        }
    }

    fn parse_buffer(&mut self)
        requires
            old(self).wf(),
            !spec_scan(old(self).config(), old(self).state(), old(self).buffer@, 0).0.fault,
            old(self).buffer@.len() + 0x1_0004 <= usize::MAX,
        ensures
            final(self).wf(),
            final(self).config() == old(self).config(),
            ({
                let (s2, p) = spec_scan(old(self).config(), old(self).state(), old(self).buffer@, 0);
                final(self).model() == RtspModel { buffer: old(self).buffer@.skip(p), state: s2 }
            }),
    {
        let ghost c = self.config();
        let ghost buf = self.buffer@;
        let ghost total = spec_scan(c, self.state(), buf, 0);
        let mut pos: usize = 0;
        while pos + 4 <= self.buffer.len()
            invariant_except_break
                self.wf(),
                self.config() == c,
                self.buffer@ == buf,
                buf.len() + 0x1_0004 <= usize::MAX,
                pos <= buf.len(),
                total == spec_scan(c, self.state(), buf, pos as int),
                !total.0.fault,
            ensures
                self.wf(),
                self.config() == c,
                self.buffer@ == buf,
                pos <= buf.len(),
                total == (self.state(), pos as int),
            decreases buf.len() - pos,
        {
            if self.buffer[pos] == 0x24 {
                let channel = self.buffer[pos + 1];
                proof {
                    lemma_be16_bytes(buf[pos + 2], buf[pos + 3]);
                }
                let length = ((self.buffer[pos + 2] as usize) << 8) | (self.buffer[pos + 3] as usize);
                if pos + 4 + length > self.buffer.len() {
                    break ;
                }
                let rtp_packet = vstd::slice::slice_to_vec(
                    vstd::slice::slice_subrange(self.buffer.as_slice(), pos + 4, pos + 4 + length),
                );
                proof {
                    let m1 = spec_demux(c, self.state(), channel, rtp_packet@);
                    lemma_scan_keeps_fault(c, m1, buf, pos + 4 + length);
                }
                self.demux_rtp(channel, rtp_packet.as_slice());
                pos += 4 + length;
            } else {
                pos += 1;
            }
        }
        if pos > 0 {
            self.buffer = vstd::slice::slice_to_vec(
                vstd::slice::slice_subrange(self.buffer.as_slice(), pos, self.buffer.len()),
            );
        }
        proof {
            if pos == 0 {
                assert(buf.skip(0) =~= buf);
            }
        }
    }

    fn demux_rtp(&mut self, channel: u8, payload: &[u8])
        requires
            old(self).wf(),
            !spec_demux(old(self).config(), old(self).state(), channel, payload@).fault,
            payload@.len() <= 0xffff,
        ensures
            final(self).wf() == old(self).wf(),
            final(self).config() == old(self).config(),
            final(self).buffer@ == old(self).buffer@,
            final(self).state() == spec_demux(
                old(self).config(),
                old(self).state(),
                channel,
                payload@,
            ),
    {
        if payload.len() < 12 {
            return ;
        }
        // RTP header
        let version_flags = payload[0];
        let cc = (version_flags & 0x0f) as usize;
        let has_extension = (version_flags & 0x10) != 0;
        let mut offset = 12 + cc * 4;
        if has_extension && offset + 4 <= payload.len() {
            proof {
                lemma_be16_bytes(payload@[offset + 2], payload@[offset + 3]);
            }
            let ext_len = (((payload[offset + 2] as usize) << 8) | (payload[offset + 3] as usize))
                * 4;
            offset += 4 + ext_len;
        }
        if offset >= payload.len() {
            return ;
        }
        proof {
            lemma_be32_bytes(payload@[4], payload@[5], payload@[6], payload@[7]);
        }
        let timestamp = ((payload[4] as u64) << 24) | ((payload[5] as u64) << 16) | ((
        payload[6] as u64) << 8) | (payload[7] as u64);
        let rtp_data = vstd::slice::slice_subrange(payload, offset, payload.len());
        if channel == self.video_channel {
            self.handle_video_rtp(timestamp, rtp_data);
        } else if channel == self.audio_channel {
            self.handle_audio_rtp(timestamp, rtp_data);
        }
    }

    fn handle_video_rtp(&mut self, timestamp: u64, rtp_data: &[u8])
        requires
            !spec_video(old(self).config(), old(self).state(), timestamp, rtp_data@).fault,
            timestamp < 0x1_0000_0000,
        ensures
            final(self).wf() == old(self).wf(),
            final(self).config() == old(self).config(),
            final(self).buffer@ == old(self).buffer@,
            final(self).state() == spec_video(
                old(self).config(),
                old(self).state(),
                timestamp,
                rtp_data@,
            ),
    {
        if rtp_data.len() == 0 {
            return ;
        }
        let pre = if self.pre_video_ts == 0 {
            timestamp
        } else {
            self.pre_video_ts
        };
        let duration_ms: u64 = if timestamp >= pre {
            (timestamp - pre) / 90
        } else {
            0
        };
        match self.video_codec {
            CodecType::H264 => self.handle_h264(rtp_data, duration_ms, timestamp),
            CodecType::H265 => self.handle_h265(rtp_data, duration_ms, timestamp),
            _ => {},
        }
        self.pre_video_ts = timestamp;
    }

    fn handle_h264(&mut self, rtp_data: &[u8], duration_ms: u64, timestamp: u64)
        requires
            rtp_data@.len() > 0,
            !spec_h264(old(self).config(), old(self).state(), rtp_data@, duration_ms, timestamp).fault,
            timestamp < 0x1_0000_0000,
            duration_ms < 0x1_0000_0000,
        ensures
            final(self).wf() == old(self).wf(),
            final(self).config() == old(self).config(),
            final(self).buffer@ == old(self).buffer@,
            final(self).pre_video_ts == old(self).pre_video_ts,
            final(self).state() == spec_h264(
                old(self).config(),
                old(self).state(),
                rtp_data@,
                duration_ms,
                timestamp,
            ),
    {
        let nalu_type = rtp_data[0] & 0x1f;
        if 1 <= nalu_type && nalu_type <= 5 {
            // Single NAL unit packet
            self.push_video_packet(rtp_data, nalu_type == 5, duration_ms, timestamp);
        } else if nalu_type == 28 {
            // FU-A fragment: rebuild the NAL header from the indicator and the FU header.
            let fu_indicator = rtp_data[0];
            let fu_header = rtp_data[1];
            let is_start = (fu_header & 0x80) != 0;
            let is_end = (fu_header & 0x40) != 0;
            let inner_type = fu_header & 0x1f;
            let hdr = [(fu_indicator & 0xe0) | inner_type];
            assert(hdr@ =~= seq![(rtp_data@[0] & 0xe0) | (rtp_data@[1] & 0x1f)]);
            self.handle_fragment(
                rtp_data,
                2,
                is_start,
                is_end,
                &hdr,
                inner_type == 5,
                duration_ms,
                timestamp,
            );
        }
    }

    fn handle_h265(&mut self, rtp_data: &[u8], duration_ms: u64, timestamp: u64)
        requires
            rtp_data@.len() > 0,
            !spec_h265(old(self).config(), old(self).state(), rtp_data@, duration_ms, timestamp).fault,
            timestamp < 0x1_0000_0000,
            duration_ms < 0x1_0000_0000,
        ensures
            final(self).wf() == old(self).wf(),
            final(self).config() == old(self).config(),
            final(self).buffer@ == old(self).buffer@,
            final(self).pre_video_ts == old(self).pre_video_ts,
            final(self).state() == spec_h265(
                old(self).config(),
                old(self).state(),
                rtp_data@,
                duration_ms,
                timestamp,
            ),
    {
        let nalu_type = (rtp_data[0] >> 1) & 0x3f;
        if nalu_type <= 21 {
            // Single NAL unit packet; types 19 and 20 are IDR slices.
            let is_key = nalu_type == 19 || nalu_type == 20;
            self.push_video_packet(rtp_data, is_key, duration_ms, timestamp);
        } else if nalu_type == 49 {
            // Fragmentation unit: rebuild the 2-byte NAL header.
            let payload_hdr0 = rtp_data[0];
            let payload_hdr1 = rtp_data[1];
            let fu_header = rtp_data[2];
            let is_start = (fu_header & 0x80) != 0;
            let is_end = (fu_header & 0x40) != 0;
            let inner_type = fu_header & 0x3f;
            let h0 = (payload_hdr0 & 0x81) | (inner_type << 1);
            let h1 = payload_hdr1;
            let is_key = inner_type == 19 || inner_type == 20;
            self.handle_fragment(
                rtp_data,
                3,
                is_start,
                is_end,
                &[h0, h1],
                is_key,
                duration_ms,
                timestamp,
            );
        }
    }

    fn handle_fragment(
        &mut self,
        rtp_data: &[u8],
        skip: usize,
        is_start: bool,
        is_end: bool,
        hdr: &[u8],
        is_key: bool,
        duration_ms: u64,
        timestamp: u64,
    )
        requires
            skip <= rtp_data@.len(),
            timestamp < 0x1_0000_0000,
            duration_ms < 0x1_0000_0000,
        ensures
            final(self).wf() == old(self).wf(),
            final(self).config() == old(self).config(),
            final(self).buffer@ == old(self).buffer@,
            final(self).pre_video_ts == old(self).pre_video_ts,
            final(self).state() == spec_fragment(
                old(self).config(),
                old(self).state(),
                rtp_data@,
                skip as int,
                is_start,
                is_end,
                hdr@,
                is_key,
                duration_ms,
                timestamp,
            ),
    {
        if is_start {
            self.fu_started = true;
            self.fu_buffer.clear();
            extend(&mut self.fu_buffer, hdr);
        }
        if self.fu_started {
            extend(
                &mut self.fu_buffer,
                vstd::slice::slice_subrange(rtp_data, skip, rtp_data.len()),
            );
            if is_end {
                self.fu_started = false;
                let fu_data = vstd::slice::slice_to_vec(self.fu_buffer.as_slice());
                self.push_video_packet(fu_data.as_slice(), is_key, duration_ms, timestamp);
            }
        }
        proof {
            assert(self.state().queue =~= spec_fragment(
                old(self).config(),
                old(self).state(),
                rtp_data@,
                skip as int,
                is_start,
                is_end,
                hdr@,
                is_key,
                duration_ms,
                timestamp,
            ).queue);
        }
    }

    fn push_video_packet(&mut self, nal: &[u8], is_key: bool, duration_ms: u64, timestamp: u64)
        requires
            timestamp < 0x1_0000_0000,
            duration_ms < 0x1_0000_0000,
        ensures
            final(self).wf() == old(self).wf(),
            final(self).config() == old(self).config(),
            final(self).buffer@ == old(self).buffer@,
            final(self).pre_video_ts == old(self).pre_video_ts,
            final(self).state() == push_video(
                old(self).config(),
                old(self).state(),
                nal@,
                is_key,
                duration_ms,
                timestamp,
            ),
    {
        // The 4-byte big-endian length in front of the unit.
        let len = nal.len() as u32;
        let mut data: Vec<u8> = Vec::new();
        push_be32(&mut data, len);
        extend(&mut data, nal);
        let time_ms = timestamp / 90;
        self.packet_queue.push(
            Packet {
                idx: self.video_idx,
                is_key_frame: is_key,
                time: time_ms * 1_000_000,
                composition_time: 1_000_000,
                duration: duration_ms * 1_000_000,
                data: bytes_from_vec(data),
            },
        );
        assert(self.state().queue =~= push_video(
            old(self).config(),
            old(self).state(),
            nal@,
            is_key,
            duration_ms,
            timestamp,
        ).queue);
    }

    fn push_audio_packet(&mut self, frame: &[u8], duration: u64)
        requires
            !push_audio(old(self).config(), old(self).state(), frame@, duration).fault,
        ensures
            final(self).wf() == old(self).wf(),
            final(self).config() == old(self).config(),
            final(self).buffer@ == old(self).buffer@,
            final(self).state() == push_audio(
                old(self).config(),
                old(self).state(),
                frame@,
                duration,
            ),
    {
        self.audio_timeline = self.audio_timeline + duration;
        self.packet_queue.push(
            Packet {
                idx: self.audio_idx,
                is_key_frame: false,
                time: self.audio_timeline,
                composition_time: 1_000_000,
                duration,
                data: bytes_copy_from_slice(frame),
            },
        );
        assert(self.state().queue =~= push_audio(
            old(self).config(),
            old(self).state(),
            frame@,
            duration,
        ).queue);
    }

    fn handle_audio_rtp(&mut self, _timestamp: u64, rtp_data: &[u8])
        requires
            old(self).wf(),
            !spec_audio(old(self).config(), old(self).state(), rtp_data@).fault,
        ensures
            final(self).wf() == old(self).wf(),
            final(self).config() == old(self).config(),
            final(self).buffer@ == old(self).buffer@,
            final(self).state() == spec_audio(old(self).config(), old(self).state(), rtp_data@),
    {
        if rtp_data.len() == 0 {
            return ;
        }
        match self.audio_codec {
            CodecType::AAC => {
                if rtp_data.len() < 4 {
                    return ;
                }
                // AU header section (RFC 3640)
                proof {
                    lemma_be16_bytes(rtp_data@[0], rtp_data@[1]);
                    lemma_u16_shifts((rtp_data@[0] as int * 256 + rtp_data@[1]) as u16);
                }
                let au_headers_length = ((rtp_data[0] as u16) << 8) | (rtp_data[1] as u16);
                let au_headers_count = (au_headers_length >> 4) as usize;
                let frames_offset = 2 + au_headers_count * 2;
                if rtp_data.len() < frames_offset {
                    return ;
                }
                let au_headers = vstd::slice::slice_subrange(rtp_data, 2, frames_offset);
                let mut frames_payload = vstd::slice::slice_subrange(
                    rtp_data,
                    frames_offset,
                    rtp_data.len(),
                );
                let duration: u64 = 1024 * 1_000_000_000 / (self.audio_timescale as u64);
                let ghost c = self.config();
                let ghost d = rtp_data@;
                let ghost goal = spec_audio(c, self.state(), d);
                assert(frames_payload@ =~= d.skip(frames_offset as int));
                let mut i: usize = 0;
                while i < au_headers_count
                    invariant_except_break
                        self.config() == c,
                        self.buffer@ == old(self).buffer@,
                        c.audio_timescale > 0,
                        d == rtp_data@,
                        au_headers@ == d.subrange(2, frames_offset as int),
                        frames_offset == 2 + au_headers_count * 2,
                        frames_offset <= d.len(),
                        i <= au_headers_count,
                        duration == aac_frame_ns(c.audio_timescale),
                        goal == spec_aac_frames(
                            c,
                            self.state(),
                            d,
                            i as nat,
                            au_headers_count as nat,
                            frames_payload@,
                        ),
                        !goal.fault,
                        self.wf() == old(self).wf(),
                    ensures
                        self.config() == c,
                        self.buffer@ == old(self).buffer@,
                        self.wf() == old(self).wf(),
                        goal == self.state(),
                    decreases au_headers_count - i,
                {
                    let idx = i * 2;
                    proof {
                        lemma_be16_bytes(au_headers@[idx as int], au_headers@[idx + 1]);
                        lemma_u16_shifts(
                            (au_headers@[idx as int] as int * 256 + au_headers@[idx + 1]) as u16,
                        );
                        assert(au_headers@[idx as int] == d[2 + idx]);
                        assert(au_headers@[idx + 1] == d[2 + idx + 1]);
                    }
                    let au_header = ((au_headers[idx] as u16) << 8) | (au_headers[idx + 1] as u16);
                    let frame_size = (au_header >> 3) as usize;
                    if frames_payload.len() < frame_size {
                        break ;
                    }
                    let ghost fp = frames_payload@;
                    let mut frame = vstd::slice::slice_subrange(frames_payload, 0, frame_size);
                    // A frame that starts with an ADTS sync word loses its 7-byte header.
                    if frame.len() > 7 && frame[0] == 0xff && (frame[1] & 0xf0) == 0xf0 {
                        frame = vstd::slice::slice_subrange(frame, 7, frame.len());
                    }
                    proof {
                        let m1 = push_audio(c, self.state(), frame@, duration);
                        lemma_aac_keeps_fault(
                            c,
                            m1,
                            d,
                            (i + 1) as nat,
                            au_headers_count as nat,
                            frames_payload@.skip(frame_size as int),
                        );
                    }
                    self.push_audio_packet(frame, duration);
                    frames_payload = vstd::slice::slice_subrange(
                        frames_payload,
                        frame_size,
                        frames_payload.len(),
                    );
                    assert(frames_payload@ =~= fp.skip(frame_size as int));
                    i += 1;
                }
            },
            CodecType::PcmAlaw | CodecType::PcmMulaw => {
                let duration = (rtp_data.len() as u128 * 1_000_000_000 / (
                self.audio_timescale as u128)) as u64;
                self.push_audio_packet(rtp_data, duration);
            },
            _ => {},
        }
    }
}

impl RtspParser {
    /// Whether the video payload `rtp_data` makes the parser fault: a
    /// fragmentation unit too short to hold its fragment header.
    fn video_faults(&self, rtp_data: &[u8], Ghost(m): Ghost<RtspState>, Ghost(ts): Ghost<u64>) -> (r: bool)
        requires
            !m.fault,
        ensures
            r == spec_video(self.config(), m, ts, rtp_data@).fault,
            spec_video(self.config(), m, ts, rtp_data@).audio_timeline == m.audio_timeline,
    {
        if rtp_data.len() == 0 {
            return false;
        }
        match self.video_codec {
            CodecType::H264 => (rtp_data[0] & 0x1f) == 28 && rtp_data.len() < 2,
            CodecType::H265 => ((rtp_data[0] >> 1) & 0x3f) == 49 && rtp_data.len() < 3,
            _ => false,
        }
    }

    /// Whether the audio payload `rtp_data` makes the parser fault (the
    /// audio timeline, at `tl`, passes `u64::MAX` nanoseconds), and if not,
    /// the audio timeline after it.
    fn audio_faults(&self, rtp_data: &[u8], tl: u64, Ghost(m): Ghost<RtspState>) -> (r: (bool, u64))
        requires
            self.wf(),
            !m.fault,
            m.audio_timeline == tl,
        ensures
            r.0 == spec_audio(self.config(), m, rtp_data@).fault,
            !r.0 ==> r.1 == spec_audio(self.config(), m, rtp_data@).audio_timeline,
    {
        if rtp_data.len() == 0 {
            return (false, tl);
        }
        match self.audio_codec {
            CodecType::AAC => {
                if rtp_data.len() < 4 {
                    return (false, tl);
                }
                proof {
                    lemma_be16_bytes(rtp_data@[0], rtp_data@[1]);
                    lemma_u16_shifts((rtp_data@[0] as int * 256 + rtp_data@[1]) as u16);
                }
                let au_headers_length = ((rtp_data[0] as u16) << 8) | (rtp_data[1] as u16);
                let au_headers_count = (au_headers_length >> 4) as usize;
                let frames_offset = 2 + au_headers_count * 2;
                if rtp_data.len() < frames_offset {
                    return (false, tl);
                }
                let au_headers = vstd::slice::slice_subrange(rtp_data, 2, frames_offset);
                let mut frames_payload = vstd::slice::slice_subrange(
                    rtp_data,
                    frames_offset,
                    rtp_data.len(),
                );
                let duration: u64 = 1024 * 1_000_000_000 / (self.audio_timescale as u64);
                let ghost c = self.config();
                let ghost d = rtp_data@;
                let ghost goal = spec_audio(c, m, d);
                let ghost mut mm = m;
                let mut t = tl;
                assert(frames_payload@ =~= d.skip(frames_offset as int));
                let mut i: usize = 0;
                while i < au_headers_count
                    invariant_except_break
                        c == self.config(),
                        goal == spec_audio(c, m, d),
                        c.audio_timescale > 0,
                        d == rtp_data@,
                        au_headers@ == d.subrange(2, frames_offset as int),
                        frames_offset == 2 + au_headers_count * 2,
                        frames_offset <= d.len(),
                        i <= au_headers_count,
                        duration == aac_frame_ns(c.audio_timescale),
                        goal == spec_aac_frames(
                            c,
                            mm,
                            d,
                            i as nat,
                            au_headers_count as nat,
                            frames_payload@,
                        ),
                        !mm.fault,
                        mm.audio_timeline == t,
                    ensures
                        goal == mm,
                        !mm.fault,
                        mm.audio_timeline == t,
                    decreases au_headers_count - i,
                {
                    let idx = i * 2;
                    proof {
                        lemma_be16_bytes(au_headers@[idx as int], au_headers@[idx + 1]);
                        lemma_u16_shifts(
                            (au_headers@[idx as int] as int * 256 + au_headers@[idx + 1]) as u16,
                        );
                        assert(au_headers@[idx as int] == d[2 + idx]);
                        assert(au_headers@[idx + 1] == d[2 + idx + 1]);
                    }
                    let au_header = ((au_headers[idx] as u16) << 8) | (au_headers[idx + 1] as u16);
                    let frame_size = (au_header >> 3) as usize;
                    if frames_payload.len() < frame_size {
                        break ;
                    }
                    let ghost fp = frames_payload@;
                    let ghost frame = {
                        let f = fp.take(frame_size as int);
                        if f.len() > 7 && f[0] == 0xff && f[1] & 0xf0 == 0xf0 {
                            f.skip(7)
                        } else {
                            f
                        }
                    };
                    let ghost m1 = push_audio(c, mm, frame, duration);
                    if t > u64::MAX - duration {
                        proof {
                            lemma_aac_keeps_fault(
                                c,
                                m1,
                                d,
                                (i + 1) as nat,
                                au_headers_count as nat,
                                fp.skip(frame_size as int),
                            );
                        }
                        return (true, 0);
                    }
                    t = t + duration;
                    proof {
                        mm = m1;
                    }
                    frames_payload = vstd::slice::slice_subrange(
                        frames_payload,
                        frame_size,
                        frames_payload.len(),
                    );
                    assert(frames_payload@ =~= fp.skip(frame_size as int));
                    i += 1;
                }
                (false, t)
            },
            CodecType::PcmAlaw | CodecType::PcmMulaw => {
                let duration = (rtp_data.len() as u128 * 1_000_000_000 / (
                self.audio_timescale as u128)) as u64;
                if tl > u64::MAX - duration {
                    (true, 0)
                } else {
                    (false, tl + duration)
                }
            },
            _ => (false, tl),
        }
    }

    /// Whether the RTP packet `payload` on `channel` makes the parser fault,
    /// and if not, the audio timeline after it.
    fn demux_faults(&self, channel: u8, payload: &[u8], tl: u64, Ghost(m): Ghost<RtspState>) -> (r: (bool, u64))
        requires
            self.wf(),
            !m.fault,
            m.audio_timeline == tl,
        ensures
            r.0 == spec_demux(self.config(), m, channel, payload@).fault,
            !r.0 ==> r.1 == spec_demux(self.config(), m, channel, payload@).audio_timeline,
    {
        if payload.len() < 12 {
            return (false, tl);
        }
        let version_flags = payload[0];
        let cc = (version_flags & 0x0f) as usize;
        let has_extension = (version_flags & 0x10) != 0;
        let mut offset = 12 + cc * 4;
        if has_extension && offset + 4 <= payload.len() {
            proof {
                lemma_be16_bytes(payload@[offset + 2], payload@[offset + 3]);
            }
            let ext_len = (((payload[offset + 2] as usize) << 8) | (payload[offset + 3] as usize))
                * 4;
            offset += 4 + ext_len;
        }
        if offset >= payload.len() {
            return (false, tl);
        }
        proof {
            lemma_be32_bytes(payload@[4], payload@[5], payload@[6], payload@[7]);
        }
        let ghost ts = (payload@[4] * 0x100_0000 + payload@[5] * 0x1_0000 + payload@[6] * 0x100
            + payload@[7]) as u64;
        let rtp_data = vstd::slice::slice_subrange(payload, offset, payload.len());
        if channel == self.video_channel {
            (self.video_faults(rtp_data, Ghost(m), Ghost(ts)), tl)
        } else if channel == self.audio_channel {
            self.audio_faults(rtp_data, tl, Ghost(m))
        } else {
            (false, tl)
        }
    }

    /// Whether feeding `data` would drive the parser into a fault (see
    /// `RtspState`), which `feed_bytes` does not accept.
    pub fn feed_faults(&self, data: &[u8]) -> (b: bool)
        requires
            self.wf(),
            self.model().buffer.len() + data@.len() + 0x1_0004 <= usize::MAX,
        ensures
            b == spec_feed(self.config(), self.model(), data@).state.fault,
    {
        let mut buf: Vec<u8> = Vec::new();
        extend(&mut buf, self.buffer.as_slice());
        extend(&mut buf, data);
        let ghost c = self.config();
        let ghost total = spec_scan(c, self.state(), buf@, 0);
        let ghost mut ms = self.state();
        let mut t = self.audio_timeline;
        let mut pos: usize = 0;
        while pos + 4 <= buf.len()
            invariant_except_break
                self.wf(),
                c == self.config(),
                buf@ == self.buffer@ + data@,
                total == spec_scan(c, self.state(), self.buffer@ + data@, 0),
                buf@.len() + 0x1_0004 <= usize::MAX,
                pos <= buf@.len(),
                total == spec_scan(c, ms, buf@, pos as int),
                !ms.fault,
                ms.audio_timeline == t,
            ensures
                total == (ms, pos as int),
                !ms.fault,
                total == spec_scan(c, self.state(), self.buffer@ + data@, 0),
                c == self.config(),
            decreases buf@.len() - pos,
        {
            if buf[pos] == 0x24 {
                let channel = buf[pos + 1];
                proof {
                    lemma_be16_bytes(buf@[pos + 2], buf@[pos + 3]);
                }
                let length = ((buf[pos + 2] as usize) << 8) | (buf[pos + 3] as usize);
                if pos + 4 + length > buf.len() {
                    break ;
                }
                let rtp_packet = vstd::slice::slice_subrange(buf.as_slice(), pos + 4, pos + 4 + length);
                let ghost m1 = spec_demux(c, ms, channel, rtp_packet@);
                let (f, t2) = self.demux_faults(channel, rtp_packet, t, Ghost(ms));
                if f {
                    proof {
                        lemma_scan_keeps_fault(c, m1, buf@, pos + 4 + length);
                    }
                    return true;
                }
                t = t2;
                proof {
                    ms = m1;
                }
                pos += 4 + length;
            } else {
                pos += 1;
            }
        }
        false
    }

    /// `feed_bytes`, for every input: where the bytes would drive the parser
    /// into a fault, returns `false` and changes nothing; otherwise feeds
    /// them and returns `true`.
    pub fn feed_bytes_checked(&mut self, data: &[u8]) -> (r: bool)
        requires
            old(self).wf(),
            old(self).model().buffer.len() + data@.len() + 0x1_0004 <= usize::MAX,
        ensures
            final(self).wf(),
            final(self).config() == old(self).config(),
            r == !spec_feed(old(self).config(), old(self).model(), data@).state.fault,
            r ==> final(self).model() == spec_feed(old(self).config(), old(self).model(), data@),
            !r ==> final(self).model() == old(self).model(),
    {
        if self.feed_faults(data) {
            return false;
        }
        self.feed_bytes(data);
        true
    }
}

// ---------------------------------------------------------------------------
// Laws
// ---------------------------------------------------------------------------
/// A scan stops between where it started and the end of the bytes.
pub proof fn lemma_scan_bounds(c: RtspConfig, s: RtspState, buf: Seq<u8>, pos: int)
    requires
        0 <= pos <= buf.len(),
    ensures
        pos <= spec_scan(c, s, buf, pos).1 <= buf.len(),
    decreases buf.len() - pos,
{
    if pos + 4 <= buf.len() {
        if buf[pos] == 0x24 {
            let len = be16_at(buf, pos + 2);
            if pos + 4 + len <= buf.len() {
                lemma_scan_bounds(
                    c,
                    spec_demux(c, s, buf[pos + 1], buf.subrange(pos + 4, pos + 4 + len)),
                    buf,
                    pos + 4 + len,
                );
            }
        } else {
            lemma_scan_bounds(c, s, buf, pos + 1);
        }
    }
}

/// More bytes after the end do not change the steps a scan took: scanning
/// `x + y` goes through the scan of `x` and goes on from where it stopped.
proof fn lemma_scan_extend(c: RtspConfig, s: RtspState, x: Seq<u8>, y: Seq<u8>, pos: int)
    requires
        0 <= pos,
    ensures
        ({
            let (s1, q) = spec_scan(c, s, x, pos);
            spec_scan(c, s, x + y, pos) == spec_scan(c, s1, x + y, q)
        }),
    decreases x.len() - pos,
{
    let xy = x + y;
    if pos + 4 <= x.len() {
        assert(xy[pos] == x[pos]);
        assert(xy[pos + 1] == x[pos + 1]);
        assert(xy[pos + 2] == x[pos + 2]);
        assert(xy[pos + 3] == x[pos + 3]);
        if x[pos] == 0x24 {
            let len = be16_at(x, pos + 2);
            if pos + 4 + len <= x.len() {
                assert(xy.subrange(pos + 4, pos + 4 + len) =~= x.subrange(pos + 4, pos + 4 + len));
                lemma_scan_extend(
                    c,
                    spec_demux(c, s, x[pos + 1], x.subrange(pos + 4, pos + 4 + len)),
                    x,
                    y,
                    pos + 4 + len,
                );
            }
        } else {
            lemma_scan_extend(c, s, x, y, pos + 1);
        }
    }
}

/// Scanning from `p + k` is scanning the bytes from `p` on from `k`.
proof fn lemma_scan_shift(c: RtspConfig, s: RtspState, z: Seq<u8>, p: int, k: int)
    requires
        0 <= p <= z.len(),
        0 <= k,
    ensures
        ({
            let (s1, q) = spec_scan(c, s, z.skip(p), k);
            spec_scan(c, s, z, p + k) == (s1, q + p)
        }),
    decreases z.len() - p - k,
{
    let w = z.skip(p);
    let pos = p + k;
    if pos + 4 <= z.len() {
        assert(w[k] == z[pos]);
        assert(w[k + 1] == z[pos + 1]);
        assert(w[k + 2] == z[pos + 2]);
        assert(w[k + 3] == z[pos + 3]);
        if z[pos] == 0x24 {
            let len = be16_at(z, pos + 2);
            if pos + 4 + len <= z.len() {
                assert(w.subrange(k + 4, k + 4 + len) =~= z.subrange(pos + 4, pos + 4 + len));
                lemma_scan_shift(
                    c,
                    spec_demux(c, s, z[pos + 1], z.subrange(pos + 4, pos + 4 + len)),
                    z,
                    p,
                    k + 4 + len,
                );
            }
        } else {
            lemma_scan_shift(c, s, z, p, k + 1);
        }
    }
}

/// Feeding bytes in two pieces has the same effect as feeding them at
/// once: the parser's output does not depend on how the RTSP byte stream
/// is cut into reads.
pub proof fn law_feed_chunking(c: RtspConfig, m: RtspModel, a: Seq<u8>, b: Seq<u8>)
    ensures
        spec_feed(c, spec_feed(c, m, a), b) == spec_feed(c, m, a + b),
{
    let b1 = m.buffer + a;
    let (s1, p1) = spec_scan(c, m.state, b1, 0);
    lemma_scan_bounds(c, m.state, b1, 0);
    let whole = m.buffer + (a + b);
    assert(whole =~= b1 + b);
    lemma_scan_extend(c, m.state, b1, b, 0);
    let b2 = b1.skip(p1) + b;
    assert(b2 =~= whole.skip(p1));
    lemma_scan_shift(c, s1, whole, p1, 0);
    let (s2, q) = spec_scan(c, s1, b2, 0);
    lemma_scan_bounds(c, s1, b2, 0);
    assert(whole.skip(q + p1) =~= b2.skip(q));
}

proof fn lemma_fu_header_bits(t: u8)
    requires
        t < 32,
    ensures
        (0x80u8 | t) & 0x80 != 0,
        (0x80u8 | t) & 0x40 == 0,
        (0x80u8 | t) & 0x1f == t,
        (0x40u8 | t) & 0x80 == 0,
        (0x40u8 | t) & 0x40 != 0,
        (0x40u8 | t) & 0x1f == t,
{
    assert((0x80u8 | t) & 0x80 != 0 && (0x80u8 | t) & 0x40 == 0 && (0x80u8 | t) & 0x1f == t && (
    0x40u8 | t) & 0x80 == 0 && (0x40u8 | t) & 0x40 != 0 && (0x40u8 | t) & 0x1f == t) by (bit_vector)
        requires
            t < 32,
    ;
}

/// An H.264 unit sent as a FU-A start fragment and an end fragment (RFC
/// 6184) comes out whole: one packet, the rebuilt NAL header (the
/// indicator's F and NRI bits with the fragment's type) followed by both
/// fragment payloads, behind its 4-byte length; a key frame when the type
/// is 5 (IDR).
pub proof fn law_fua_reassembly(
    c: RtspConfig,
    s: RtspState,
    ts: u64,
    indicator: u8,
    t: u8,
    p1: Seq<u8>,
    p2: Seq<u8>,
)
    requires
        c.video_codec == CodecType::H264,
        indicator & 0x1f == 28,
        t < 32,
        ts < 0x1_0000_0000,
    ensures
        ({
            let start = seq![indicator, 0x80u8 | t] + p1;
            let end = seq![indicator, 0x40u8 | t] + p2;
            let s2 = spec_video(c, spec_video(c, s, ts, start), ts, end);
            let unit = seq![(indicator & 0xe0) | t] + p1 + p2;
            &&& s2.queue == s.queue.push(
                (c.video_idx, t == 5, ((ts / 90) * 1_000_000) as u64, one_ms(), 0, be32(unit.len() as u32) + unit),
            )
            &&& !s2.fu_started
            &&& s2.fault == s.fault
            &&& s2.pre_video_ts == ts
        }),
{
    lemma_fu_header_bits(t);
    let start = seq![indicator, 0x80u8 | t] + p1;
    let end = seq![indicator, 0x40u8 | t] + p2;
    assert(start[0] == indicator && start[1] == 0x80u8 | t);
    assert(end[0] == indicator && end[1] == 0x40u8 | t);
    assert(start.skip(2) =~= p1);
    assert(end.skip(2) =~= p2);
    let s1 = spec_video(c, s, ts, start);
    assert(s1.fu_buffer == seq![(indicator & 0xe0) | t] + p1);
    let unit = seq![(indicator & 0xe0) | t] + p1 + p2;
    assert(s1.fu_buffer + p2 =~= unit);
}

proof fn lemma_hevc_fu_header_bits(t: u8)
    requires
        t < 64,
    ensures
        (0x80u8 | t) & 0x80 != 0,
        (0x80u8 | t) & 0x40 == 0,
        (0x80u8 | t) & 0x3f == t,
        (0x40u8 | t) & 0x80 == 0,
        (0x40u8 | t) & 0x40 != 0,
        (0x40u8 | t) & 0x3f == t,
{
    assert((0x80u8 | t) & 0x80 != 0 && (0x80u8 | t) & 0x40 == 0 && (0x80u8 | t) & 0x3f == t && (
    0x40u8 | t) & 0x80 == 0 && (0x40u8 | t) & 0x40 != 0 && (0x40u8 | t) & 0x3f == t) by (bit_vector)
        requires
            t < 64,
    ;
}

/// An H.265 unit sent as a start and an end fragmentation unit (RFC 7798)
/// comes out whole: one packet, the rebuilt 2-byte NAL header (the payload
/// header with the fragment's type in place of 49) followed by both
/// fragment payloads, behind its 4-byte length; a key frame when the type
/// is 19 or 20 (IDR).
pub proof fn law_hevc_fu_reassembly(
    c: RtspConfig,
    s: RtspState,
    ts: u64,
    h0: u8,
    h1: u8,
    t: u8,
    p1: Seq<u8>,
    p2: Seq<u8>,
)
    requires
        c.video_codec == CodecType::H265,
        (h0 >> 1u8) & 0x3f == 49,
        t < 64,
        ts < 0x1_0000_0000,
    ensures
        ({
            let start = seq![h0, h1, 0x80u8 | t] + p1;
            let end = seq![h0, h1, 0x40u8 | t] + p2;
            let s2 = spec_video(c, spec_video(c, s, ts, start), ts, end);
            let unit = seq![(h0 & 0x81) | (t << 1u8), h1] + p1 + p2;
            &&& s2.queue == s.queue.push(
                (c.video_idx, t == 19 || t == 20, ((ts / 90) * 1_000_000) as u64, one_ms(), 0, be32(unit.len() as u32) + unit),
            )
            &&& !s2.fu_started
            &&& s2.fault == s.fault
            &&& s2.pre_video_ts == ts
        }),
{
    lemma_hevc_fu_header_bits(t);
    let start = seq![h0, h1, 0x80u8 | t] + p1;
    let end = seq![h0, h1, 0x40u8 | t] + p2;
    assert(start[0] == h0 && start[1] == h1 && start[2] == 0x80u8 | t);
    assert(end[0] == h0 && end[1] == h1 && end[2] == 0x40u8 | t);
    assert(start.skip(3) =~= p1);
    assert(end.skip(3) =~= p2);
    let s1 = spec_video(c, s, ts, start);
    assert(s1.fu_buffer == seq![(h0 & 0x81) | (t << 1u8), h1] + p1);
    let unit = seq![(h0 & 0x81) | (t << 1u8), h1] + p1 + p2;
    assert(s1.fu_buffer + p2 =~= unit);
}


/// A single NAL unit packet (RFC 6184 / RFC 7798) is queued as exactly one
/// packet: the unit behind its 4-byte length, at the RTP time in whole
/// milliseconds, lasting the whole milliseconds since the previous time
/// stamp (none when it went back or there was none), and a key frame
/// exactly when the unit is an IDR picture: H.264 type 5, H.265 types 19
/// (IDR_W_RADL) and 20 (IDR_N_LP).
#[verifier::spinoff_prover]
pub proof fn law_single_nal_unit(c: RtspConfig, s: RtspState, ts: u64, data: Seq<u8>)
    requires
        data.len() > 0,
        ts < 0x1_0000_0000,
        c.video_codec == CodecType::H264 && 1 <= data[0] & 0x1f <= 5 || c.video_codec
            == CodecType::H265 && (data[0] >> 1u8) & 0x3f <= 21,
    ensures
        ({
            let s2 = spec_video(c, s, ts, data);
            let key = if c.video_codec == CodecType::H264 {
                data[0] & 0x1f == 5
            } else {
                (data[0] >> 1u8) & 0x3f == 19 || (data[0] >> 1u8) & 0x3f == 20
            };
            let pre = if s.pre_video_ts == 0 {
                ts as int
            } else {
                s.pre_video_ts as int
            };
            let dur_ms = if ts >= pre {
                (ts - pre) / 90
            } else {
                0
            };
            let p = s2.queue.last();
            &&& s2.queue.len() == s.queue.len() + 1
            &&& s2.queue.drop_last() == s.queue
            &&& p.0 == c.video_idx
            &&& p.1 == key
            &&& p.2 == ts / 90 * 1_000_000
            &&& p.3 == 1_000_000
            &&& p.4 == dur_ms * 1_000_000
            &&& p.5.len() == data.len() + 4
            &&& p.5.take(4) == be32(data.len() as u32)
            &&& p.5.skip(4) == data
            &&& s2.pre_video_ts == ts
            &&& s2.fault == s.fault
            &&& s2.fu_started == s.fu_started
            &&& s2.audio_timeline == s.audio_timeline
        }),
{
    let s2 = spec_video(c, s, ts, data);
    let p = s2.queue.last();
    assert(s2.queue.drop_last() =~= s.queue);
    assert(p.5.take(4) =~= be32(data.len() as u32));
    assert(p.5.skip(4) =~= data);
}

} // verus!

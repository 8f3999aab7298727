use crate::av::{bytes_as_slice, CodecType, Packet};
use crate::utils::buf::{
    be16, be32, be64, concat, extend, extend_fill, fill, lemma_concat_prefix_len, lemma_concat_push,
    push_be16, push_be32, push_be64,
};
use vstd::prelude::*;

verus! {

// ---------------------------------------------------------------------------
// Types
// ---------------------------------------------------------------------------
/// A track of the fragmented MP4 output.
pub struct Stream {
    pub codec_type: CodecType,
    pub track_id: u32,
    pub time_scale: u32,
    pub width: u32,
    pub height: u32,
    /// The decoder configuration record (`avcC`, `hvcC` or `esds` payload).
    pub codec_data: Vec<u8>,
    /// The decode time, in `time_scale` units, at which the next fragment
    /// of this track starts.
    pub last_dts: u64,
}

/// A fragmented MP4 (ISO BMFF) muxer: one init segment, then `moof` +
/// `mdat` fragments.
pub struct Mp4Muxer {
    pub streams: Vec<Stream>,
    pub fragment_index: u32,
    pub sample_index: u32,
    pub moof_entries: Vec<TrackFragRunEntry>,
    pub mdat_buffer: Vec<u8>,
}

/// One sample of the fragment being collected.
pub struct TrackFragRunEntry {
    pub duration: u32,
    pub size: u32,
    pub cts: u32,
    pub is_keyframe: bool,
}

// ---------------------------------------------------------------------------
// Box layout
// ---------------------------------------------------------------------------
/// An ISO BMFF box: its size (header included, as a `u32`), its 4-byte
/// type and its payload.
pub open spec fn mp4_box(tag: Seq<u8>, payload: Seq<u8>) -> Seq<u8> {
    be32((payload.len() + 8) as u32) + tag + payload
}

/// The `ftyp` box: brand `iso6`, minor version 1, compatible `iso6`, `dash`.
pub open spec fn spec_ftyp() -> Seq<u8> {
    seq![
        0x00u8, 0x00, 0x00, 0x18, 0x66, 0x74, 0x79, 0x70,
        0x69, 0x73, 0x6f, 0x36, 0x00, 0x00, 0x00, 0x01,
        0x69, 0x73, 0x6f, 0x36, 0x64, 0x61, 0x73, 0x68,
    ]
}

/// The `mvhd` box: time scale 1000, unit rate, volume and matrix, next
/// track id 3.
pub open spec fn spec_mvhd() -> Seq<u8> {
    seq![
        0x00u8, 0x00, 0x00, 0x6c, 0x6d, 0x76, 0x68, 0x64,
        0x00, 0x00, 0x00, 0x00,
        0x00, 0x00, 0x00, 0x00,
        0x00, 0x00, 0x00, 0x00,
        0x00, 0x00, 0x03, 0xe8,
        0x00, 0x00, 0x00, 0x00,
        0x00, 0x01, 0x00, 0x00,
        0x01, 0x00, 0x00, 0x00,
        0, 0, 0, 0, 0, 0, 0, 0,
        0x00, 0x01, 0x00, 0x00, 0, 0, 0, 0, 0, 0, 0, 0,
        0, 0, 0, 0, 0x00, 0x01, 0x00, 0x00, 0, 0, 0, 0,
        0, 0, 0, 0, 0, 0, 0, 0, 0x40, 0x00, 0x00, 0x00,
        0, 0, 0, 0, 0, 0, 0, 0, 0, 0, 0, 0, 0, 0, 0, 0, 0, 0, 0, 0, 0, 0, 0, 0,
        0x00, 0x00, 0x00, 0x03,
    ]
}

/// The unity transformation matrix of `tkhd`.
pub open spec fn spec_matrix() -> Seq<u8> {
    seq![
        0x00u8, 0x01, 0x00, 0x00, 0, 0, 0, 0, 0, 0, 0, 0,
        0, 0, 0, 0, 0x00, 0x01, 0x00, 0x00, 0, 0, 0, 0,
        0, 0, 0, 0, 0, 0, 0, 0, 0x40, 0x00, 0x00, 0x00,
    ]
}

/// The `tkhd` box of a track: enabled, its id, volume 1, its size in 16.16
/// fixed point.
pub open spec fn spec_tkhd(s: Stream) -> Seq<u8> {
    be32(92) + seq![0x74u8, 0x6b, 0x68, 0x64] + seq![0u8, 0, 0, 7] + fill(0, 8) + be32(s.track_id)
        + fill(0, 4) + fill(0, 4) + fill(0, 8) + fill(0, 2) + fill(0, 2) + seq![0x01u8, 0x00]
        + fill(0, 2) + spec_matrix() + be32(s.width << 16u32) + be32(s.height << 16u32)
}

/// The `mdhd` box of a track: its time scale, language `und`.
pub open spec fn spec_mdhd(s: Stream) -> Seq<u8> {
    be32(32) + seq![0x6du8, 0x64, 0x68, 0x64] + fill(0, 12) + be32(s.time_scale) + fill(0, 4)
        + seq![0x55u8, 0xc4, 0, 0]
}

/// The handler type of a codec: `vide`, `soun`, or `hint`.
pub open spec fn handler_type(c: CodecType) -> Seq<u8> {
    match c {
        CodecType::H264 | CodecType::H265 => seq![0x76u8, 0x69, 0x64, 0x65],
        CodecType::AAC => seq![0x73u8, 0x6f, 0x75, 0x6e],
        _ => seq![0x68u8, 0x69, 0x6e, 0x74],
    }
}

/// The `hdlr` box of a track.
pub open spec fn spec_hdlr(s: Stream) -> Seq<u8> {
    be32(37) + seq![0x68u8, 0x64, 0x6c, 0x72] + fill(0, 8) + handler_type(s.codec_type) + fill(
        0,
        12,
    ) + seq![0x47u8, 0x47, 0, 0, 0]
}

/// The media header of a track: `vmhd` for video, `smhd` for AAC, none
/// otherwise.
pub open spec fn spec_media_header(c: CodecType) -> Seq<u8> {
    match c {
        CodecType::H264 | CodecType::H265 => seq![
            0u8, 0, 0, 0x14, 0x76, 0x6d, 0x68, 0x64, 0, 0, 0, 1, 0, 0, 0, 0, 0, 0, 0, 0,
        ],
        CodecType::AAC => seq![0u8, 0, 0, 0x10, 0x73, 0x6d, 0x68, 0x64, 0, 0, 0, 0, 0, 0, 0, 0],
        _ => seq![],
    }
}

/// The `dinf` box with a single self-contained `url ` entry.
pub open spec fn spec_dinf() -> Seq<u8> {
    seq![
        0x00u8, 0x00, 0x00, 0x24, 0x64, 0x69, 0x6e, 0x66,
        0x00, 0x00, 0x00, 0x1c, 0x64, 0x72, 0x65, 0x66,
        0x00, 0x00, 0x00, 0x00,
        0x00, 0x00, 0x00, 0x01,
        0x00, 0x00, 0x00, 0x0c, 0x75, 0x72, 0x6c, 0x20,
        0x00, 0x00, 0x00, 0x01,
    ]
}

/// The fields shared by the `avc1` and `hvc1` sample entries, between the
/// entry type and the configuration box.
pub open spec fn spec_visual_fields(s: Stream) -> Seq<u8> {
    fill(0, 6) + seq![0u8, 1] + fill(0, 16) + be16(s.width as u16) + be16(s.height as u16) + seq![
        0x00u8,
        0x48,
        0x00,
        0x00,
    ] + seq![0x00u8, 0x48, 0x00, 0x00] + fill(0, 4) + seq![0u8, 1] + fill(0, 32) + seq![0u8, 24]
        + seq![0xffu8, 0xff]
}

/// The sample entry of a track: `avc1`+`avcC`, `hvc1`+`hvcC`,
/// `mp4a`+`esds`, or none. The entry size is computed in `u32`.
pub open spec fn spec_sample_entry(s: Stream) -> Seq<u8> {
    let cd = s.codec_data@;
    let n = (s.codec_data@.len() as u32) as int;
    match s.codec_type {
        CodecType::H264 => be32((94 + n) as u32) + seq![0x61u8, 0x76, 0x63, 0x31]
            + spec_visual_fields(s) + be32((8 + cd.len()) as u32) + seq![0x61u8, 0x76, 0x63, 0x43]
            + cd,
        CodecType::H265 => be32((94 + n) as u32) + seq![0x68u8, 0x76, 0x63, 0x31]
            + spec_visual_fields(s) + be32((8 + cd.len()) as u32) + seq![0x68u8, 0x76, 0x63, 0x43]
            + cd,
        CodecType::AAC => be32((44 + n) as u32) + seq![0x6du8, 0x70, 0x34, 0x61] + fill(0, 6)
            + seq![0u8, 1] + fill(0, 8) + seq![0u8, 2] + seq![0u8, 16] + fill(0, 4) + seq![
            0xbbu8,
            0x80,
            0x00,
            0x00,
        ] + be32((8 + cd.len()) as u32) + seq![0x65u8, 0x73, 0x64, 0x73] + cd,
        _ => seq![],
    }
}

/// The empty sample tables `stts`, `stsc`, `stss`, `stco` and `stsz`.
pub open spec fn spec_empty_tables() -> Seq<u8> {
    seq![0u8, 0, 0, 0x10, 0x73, 0x74, 0x74, 0x73, 0, 0, 0, 0, 0, 0, 0, 0]
        + seq![0u8, 0, 0, 0x10, 0x73, 0x74, 0x73, 0x63, 0, 0, 0, 0, 0, 0, 0, 0]
        + seq![0u8, 0, 0, 0x10, 0x73, 0x74, 0x73, 0x73, 0, 0, 0, 0, 0, 0, 0, 0]
        + seq![0u8, 0, 0, 0x10, 0x73, 0x74, 0x63, 0x6f, 0, 0, 0, 0, 0, 0, 0, 0]
        + seq![0u8, 0, 0, 0x14, 0x73, 0x74, 0x73, 0x7a, 0, 0, 0, 0, 0, 0, 0, 0, 0, 0, 0, 0]
}

/// The `stbl` payload of a track: `stsd` with its sample entry, then the
/// empty tables.
pub open spec fn spec_stbl_payload(s: Stream) -> Seq<u8> {
    mp4_box(
        seq![0x73u8, 0x74, 0x73, 0x64],
        seq![0u8, 0, 0, 0] + seq![0u8, 0, 0, 1] + spec_sample_entry(s),
    ) + spec_empty_tables()
}

/// The `minf` payload of a track.
pub open spec fn spec_minf_payload(s: Stream) -> Seq<u8> {
    spec_media_header(s.codec_type) + spec_dinf() + mp4_box(
        seq![0x73u8, 0x74, 0x62, 0x6c],
        spec_stbl_payload(s),
    )
}

/// The `mdia` payload of a track.
pub open spec fn spec_mdia_payload(s: Stream) -> Seq<u8> {
    spec_mdhd(s) + spec_hdlr(s) + mp4_box(seq![0x6du8, 0x69, 0x6e, 0x66], spec_minf_payload(s))
}

/// The `trak` box of a track.
pub open spec fn spec_trak(s: Stream) -> Seq<u8> {
    mp4_box(
        seq![0x74u8, 0x72, 0x61, 0x6b],
        spec_tkhd(s) + mp4_box(seq![0x6du8, 0x64, 0x69, 0x61], spec_mdia_payload(s)),
    )
}

/// The `trex` box of a track: default sample description 1.
pub open spec fn spec_trex(s: Stream) -> Seq<u8> {
    be32(32) + seq![0x74u8, 0x72, 0x65, 0x78] + seq![0u8, 0, 0, 0] + be32(s.track_id) + seq![
        0u8,
        0,
        0,
        1,
    ] + fill(0, 12)
}

/// The `mvex` payload: an empty `mehd`, then one `trex` per track.
pub open spec fn spec_mvex_payload(streams: Seq<Stream>) -> Seq<u8> {
    seq![0u8, 0, 0, 0x10, 0x6d, 0x65, 0x68, 0x64, 0, 0, 0, 0, 0, 0, 0, 0] + concat(
        streams.map_values(|s: Stream| spec_trex(s)),
    )
}

/// The `moov` payload: `mvhd`, one `trak` per track, and `mvex`.
pub open spec fn spec_moov_payload(streams: Seq<Stream>) -> Seq<u8> {
    spec_mvhd() + concat(streams.map_values(|s: Stream| spec_trak(s))) + mp4_box(
        seq![0x6du8, 0x76, 0x65, 0x78],
        spec_mvex_payload(streams),
    )
}

/// The init segment: `ftyp` then `moov`.
pub open spec fn spec_init_segment(streams: Seq<Stream>) -> Seq<u8> {
    spec_ftyp() + mp4_box(seq![0x6du8, 0x6f, 0x6f, 0x76], spec_moov_payload(streams))
}


// ---------------------------------------------------------------------------
// Fragments
// ---------------------------------------------------------------------------
/// A duration in nanoseconds expressed in units of `1 / time_scale`
/// seconds, rounded down, saturating at `u32::MAX`.
pub open spec fn timescale_units(ns: u64, time_scale: u32) -> u32 {
    let v = (ns as int * time_scale as int) / 1_000_000_000;
    if v > u32::MAX {
        u32::MAX
    } else {
        v as u32
    }
}

/// The run entry of one sample.
pub open spec fn entry_of(pkt: Packet, time_scale: u32) -> TrackFragRunEntry {
    TrackFragRunEntry {
        duration: timescale_units(pkt.duration, time_scale),
        size: pkt.data_view().len() as u32,
        cts: timescale_units(pkt.composition_time, time_scale),
        is_keyframe: pkt.is_key_frame,
    }
}

/// The 8-byte `mdat` header with its size not yet written.
pub open spec fn mdat_placeholder() -> Seq<u8> {
    seq![0u8, 0, 0, 0, 0x6d, 0x64, 0x61, 0x74]
}

/// The bytes of a run entry: duration, size, composition offset.
pub open spec fn entry_bytes(e: TrackFragRunEntry) -> Seq<u8> {
    be32(e.duration) + be32(e.size) + be32(e.cts)
}

/// The sum of the durations of the run entries.
pub open spec fn total_duration(es: Seq<TrackFragRunEntry>) -> nat
    decreases es.len(),
{
    if es.len() == 0 {
        0
    } else {
        total_duration(es.drop_last()) + es.last().duration as nat
    }
}

/// The `trun` payload: data offset, first sample flags (sync), and the size,
/// duration and composition offset of each sample. The data offset is
/// written once the `moof` size is known.
pub open spec fn spec_trun_payload(es: Seq<TrackFragRunEntry>) -> Seq<u8> {
    seq![0u8, 0x00, 0x0b, 0x05] + be32(es.len() as u32) + seq![0u8, 0, 0, 0] + seq![
        0x02u8,
        0x00,
        0x00,
        0x00,
    ] + concat(es.map_values(|e: TrackFragRunEntry| entry_bytes(e)))
}

/// The `moof` payload: `mfhd` with the sequence number, then `traf` with
/// `tfhd`, `tfdt` (the base decode time) and `trun`.
pub open spec fn spec_moof_payload(
    seq_num: u32,
    track_id: u32,
    base_dts: u64,
    es: Seq<TrackFragRunEntry>,
) -> Seq<u8> {
    be32(16) + seq![0x6du8, 0x66, 0x68, 0x64] + seq![0u8, 0, 0, 0] + be32(seq_num) + mp4_box(
        seq![0x74u8, 0x72, 0x61, 0x66],
        be32(20) + seq![0x74u8, 0x66, 0x68, 0x64] + seq![0u8, 0x02, 0x00, 0x20] + be32(track_id)
            + seq![0x01u8, 0x01, 0x00, 0x00] + be32(20) + seq![0x74u8, 0x66, 0x64, 0x74] + seq![
            1u8,
            0,
            0,
            0,
        ] + be64(base_dts) + mp4_box(seq![0x74u8, 0x72, 0x75, 0x6e], spec_trun_payload(es)),
    )
}

/// `b` with the four bytes at `pos` replaced by the big-endian `x`.
pub open spec fn put_be32(b: Seq<u8>, pos: int, x: u32) -> Seq<u8> {
    b.take(pos) + be32(x) + b.skip(pos + 4)
}

/// A media fragment: the `moof` box, whose `trun` data offset (at byte 88)
/// points just past the `mdat` header, then the `mdat` box.
pub open spec fn spec_fragment(
    seq_num: u32,
    track_id: u32,
    base_dts: u64,
    es: Seq<TrackFragRunEntry>,
    mdat: Seq<u8>,
) -> Seq<u8> {
    let moof = mp4_box(seq![0x6du8, 0x6f, 0x6f, 0x66], spec_moof_payload(seq_num, track_id, base_dts, es));
    put_be32(moof, 88, (moof.len() + 8) as u32) + put_be32(mdat, 0, mdat.len() as u32)
}

/// The `u32` sum that gives a track's sample entry size does not overflow:
/// `94` plus the configuration length (as a `u32`) for `avc1` / `hvc1`,
/// `44` plus it for `mp4a`; other codecs have no sample entry.
pub open spec fn entry_fits(s: Stream) -> bool {
    match s.codec_type {
        CodecType::H264 | CodecType::H265 => s.codec_data@.len() as u32 + 94 <= u32::MAX,
        CodecType::AAC => s.codec_data@.len() as u32 + 44 <= u32::MAX,
        _ => true,
    }
}

/// The sample entry size of every track fits in a `u32`, and the whole
/// init segment fits in memory.
pub open spec fn init_fits(streams: Seq<Stream>) -> bool {
    &&& forall|i: int| 0 <= i < streams.len() ==> entry_fits(#[trigger] streams[i])
    &&& spec_init_segment(streams).len() <= usize::MAX
}

// ---------------------------------------------------------------------------
// Box builders
// ---------------------------------------------------------------------------
fn push_box(out: &mut Vec<u8>, tag: &[u8], payload: &[u8])
    requires
        payload@.len() + 8 <= usize::MAX,
    ensures
        final(out)@ == old(out)@ + mp4_box(tag@, payload@),
{
    push_be32(out, (payload.len() + 8) as u32);
    extend(out, tag);
    extend(out, payload);
    assert(out@ =~= old(out)@ + mp4_box(tag@, payload@));
}

fn tkhd_bytes(s: &Stream) -> (r: Vec<u8>)
    ensures
        r@ == spec_tkhd(*s),
{
    let mut v: Vec<u8> = Vec::new();
    push_be32(&mut v, 92);
    extend(&mut v, &[0x74, 0x6b, 0x68, 0x64]);  // "tkhd"
    extend(&mut v, &[0, 0, 0, 7]);  // flags: enabled, in movie, in preview
    extend_fill(&mut v, 0, 8);  // creation & modification time
    push_be32(&mut v, s.track_id);
    extend_fill(&mut v, 0, 4);  // reserved
    extend_fill(&mut v, 0, 4);  // duration
    extend_fill(&mut v, 0, 8);  // reserved
    extend_fill(&mut v, 0, 2);  // layer
    extend_fill(&mut v, 0, 2);  // alternate_group
    extend(&mut v, &[0x01, 0x00]);  // volume (1.0)
    extend_fill(&mut v, 0, 2);  // reserved
    extend(
        &mut v,
        &[
            0x00, 0x01, 0x00, 0x00, 0, 0, 0, 0, 0, 0, 0, 0,
            0, 0, 0, 0, 0x00, 0x01, 0x00, 0x00, 0, 0, 0, 0,
            0, 0, 0, 0, 0, 0, 0, 0, 0x40, 0x00, 0x00, 0x00,
        ],
    );  // matrix
    push_be32(&mut v, s.width << 16);
    push_be32(&mut v, s.height << 16);
    assert(v@ =~= spec_tkhd(*s));
    v
}

fn mdhd_bytes(s: &Stream) -> (r: Vec<u8>)
    ensures
        r@ == spec_mdhd(*s),
{
    let mut v: Vec<u8> = Vec::new();
    push_be32(&mut v, 32);
    extend(&mut v, &[0x6d, 0x64, 0x68, 0x64]);  // "mdhd"
    extend_fill(&mut v, 0, 12);  // version, flags, creation, modification time
    push_be32(&mut v, s.time_scale);
    extend_fill(&mut v, 0, 4);  // duration
    extend(&mut v, &[0x55, 0xc4, 0, 0]);  // language "und"
    assert(v@ =~= spec_mdhd(*s));
    v
}

fn hdlr_bytes(s: &Stream) -> (r: Vec<u8>)
    ensures
        r@ == spec_hdlr(*s),
{
    let mut v: Vec<u8> = Vec::new();
    push_be32(&mut v, 37);
    extend(&mut v, &[0x68, 0x64, 0x6c, 0x72]);  // "hdlr"
    extend_fill(&mut v, 0, 8);  // version, flags, component type
    match s.codec_type {
        CodecType::H264 | CodecType::H265 => extend(&mut v, &[0x76, 0x69, 0x64, 0x65]),  // "vide"
        CodecType::AAC => extend(&mut v, &[0x73, 0x6f, 0x75, 0x6e]),  // "soun"
        _ => extend(&mut v, &[0x68, 0x69, 0x6e, 0x74]),  // "hint"
    }
    extend_fill(&mut v, 0, 12);  // manufacturer, flags, mask
    extend(&mut v, &[0x47, 0x47, 0, 0, 0]);  // name "GG"
    assert(v@ =~= spec_hdlr(*s));
    v
}

fn visual_fields(v: &mut Vec<u8>, s: &Stream)
    ensures
        final(v)@ == old(v)@ + spec_visual_fields(*s),
{
    extend_fill(v, 0, 6);  // reserved
    extend(v, &[0, 1]);  // data reference index
    extend_fill(v, 0, 16);  // pre-defined, reserved
    push_be16(v, s.width as u16);
    push_be16(v, s.height as u16);
    extend(v, &[0x00, 0x48, 0x00, 0x00]);  // horizontal resolution 72 dpi
    extend(v, &[0x00, 0x48, 0x00, 0x00]);  // vertical resolution 72 dpi
    extend_fill(v, 0, 4);  // reserved
    extend(v, &[0, 1]);  // frame count
    extend_fill(v, 0, 32);  // compressor name
    extend(v, &[0, 24]);  // depth
    extend(v, &[0xff, 0xff]);  // pre-defined
    assert(v@ =~= old(v)@ + spec_visual_fields(*s));
}

fn sample_entry(v: &mut Vec<u8>, s: &Stream)
    requires
        entry_fits(*s),
        spec_sample_entry(*s).len() + old(v)@.len() <= usize::MAX,
    ensures
        final(v)@ == old(v)@ + spec_sample_entry(*s),
{
    let cd = s.codec_data.as_slice();
    match s.codec_type {
        CodecType::H264 => {
            push_be32(v, 94 + s.codec_data.len() as u32);
            extend(v, &[0x61, 0x76, 0x63, 0x31]);  // "avc1"
            visual_fields(v, s);
            push_be32(v, (8 + s.codec_data.len()) as u32);
            extend(v, &[0x61, 0x76, 0x63, 0x43]);  // "avcC"
            extend(v, cd);
        },
        CodecType::H265 => {
            push_be32(v, 94 + s.codec_data.len() as u32);
            extend(v, &[0x68, 0x76, 0x63, 0x31]);  // "hvc1"
            visual_fields(v, s);
            push_be32(v, (8 + s.codec_data.len()) as u32);
            extend(v, &[0x68, 0x76, 0x63, 0x43]);  // "hvcC"
            extend(v, cd);
        },
        CodecType::AAC => {
            push_be32(v, 44 + s.codec_data.len() as u32);
            extend(v, &[0x6d, 0x70, 0x34, 0x61]);  // "mp4a"
            extend_fill(v, 0, 6);  // reserved
            extend(v, &[0, 1]);  // data reference index
            extend_fill(v, 0, 8);  // reserved
            extend(v, &[0, 2]);  // channels
            extend(v, &[0, 16]);  // sample size
            extend_fill(v, 0, 4);  // reserved
            extend(v, &[0xbb, 0x80, 0x00, 0x00]);  // sample rate 48000
            push_be32(v, (8 + s.codec_data.len()) as u32);
            extend(v, &[0x65, 0x73, 0x64, 0x73]);  // "esds"
            extend(v, cd);
        },
        _ => {},
    }
    assert(v@ =~= old(v)@ + spec_sample_entry(*s));
}

fn trak_bytes(s: &Stream) -> (r: Vec<u8>)
    requires
        entry_fits(*s),
        spec_trak(*s).len() <= usize::MAX,
    ensures
        r@ == spec_trak(*s),
{
    // stsd
    let mut stsd_payload: Vec<u8> = Vec::new();
    extend(&mut stsd_payload, &[0, 0, 0, 0]);  // version, flags
    extend(&mut stsd_payload, &[0, 0, 0, 1]);  // entry count
    sample_entry(&mut stsd_payload, s);
    // stbl
    let mut stbl: Vec<u8> = Vec::new();
    push_box(&mut stbl, &[0x73, 0x74, 0x73, 0x64], stsd_payload.as_slice());  // "stsd"
    extend(&mut stbl, &[0, 0, 0, 0x10, 0x73, 0x74, 0x74, 0x73, 0, 0, 0, 0, 0, 0, 0, 0]);  // stts
    extend(&mut stbl, &[0, 0, 0, 0x10, 0x73, 0x74, 0x73, 0x63, 0, 0, 0, 0, 0, 0, 0, 0]);  // stsc
    extend(&mut stbl, &[0, 0, 0, 0x10, 0x73, 0x74, 0x73, 0x73, 0, 0, 0, 0, 0, 0, 0, 0]);  // stss
    extend(&mut stbl, &[0, 0, 0, 0x10, 0x73, 0x74, 0x63, 0x6f, 0, 0, 0, 0, 0, 0, 0, 0]);  // stco
    extend(
        &mut stbl,
        &[0, 0, 0, 0x14, 0x73, 0x74, 0x73, 0x7a, 0, 0, 0, 0, 0, 0, 0, 0, 0, 0, 0, 0],
    );  // stsz
    assert(stbl@ =~= spec_stbl_payload(*s));
    // minf
    let mut minf: Vec<u8> = Vec::new();
    match s.codec_type {
        CodecType::H264 | CodecType::H265 => {
            extend(
                &mut minf,
                &[0, 0, 0, 0x14, 0x76, 0x6d, 0x68, 0x64, 0, 0, 0, 1, 0, 0, 0, 0, 0, 0, 0, 0],
            );  // vmhd
        },
        CodecType::AAC => {
            extend(&mut minf, &[0, 0, 0, 0x10, 0x73, 0x6d, 0x68, 0x64, 0, 0, 0, 0, 0, 0, 0, 0]);  // smhd
        },
        _ => {},
    }
    extend(
        &mut minf,
        &[
            0x00, 0x00, 0x00, 0x24, 0x64, 0x69, 0x6e, 0x66,
            0x00, 0x00, 0x00, 0x1c, 0x64, 0x72, 0x65, 0x66,
            0x00, 0x00, 0x00, 0x00,
            0x00, 0x00, 0x00, 0x01,
            0x00, 0x00, 0x00, 0x0c, 0x75, 0x72, 0x6c, 0x20,
            0x00, 0x00, 0x00, 0x01,
        ],
    );  // dinf with dref and a self-contained "url "
    push_box(&mut minf, &[0x73, 0x74, 0x62, 0x6c], stbl.as_slice());  // "stbl"
    assert(minf@ =~= spec_minf_payload(*s));
    // mdia
    let mut mdia = mdhd_bytes(s);
    let hdlr = hdlr_bytes(s);
    extend(&mut mdia, hdlr.as_slice());
    push_box(&mut mdia, &[0x6d, 0x69, 0x6e, 0x66], minf.as_slice());  // "minf"
    assert(mdia@ =~= spec_mdia_payload(*s));
    // trak
    let mut trak = tkhd_bytes(s);
    push_box(&mut trak, &[0x6d, 0x64, 0x69, 0x61], mdia.as_slice());  // "mdia"
    let mut trak_box: Vec<u8> = Vec::new();
    push_box(&mut trak_box, &[0x74, 0x72, 0x61, 0x6b], trak.as_slice());  // "trak"
    assert(trak_box@ =~= spec_trak(*s));
    trak_box
}

fn trex_bytes(s: &Stream) -> (r: Vec<u8>)
    ensures
        r@ == spec_trex(*s),
{
    let mut v: Vec<u8> = Vec::new();
    push_be32(&mut v, 32);
    extend(&mut v, &[0x74, 0x72, 0x65, 0x78]);  // "trex"
    extend(&mut v, &[0, 0, 0, 0]);  // version & flags
    push_be32(&mut v, s.track_id);
    extend(&mut v, &[0, 0, 0, 1]);  // default_sample_description_index
    extend_fill(&mut v, 0, 12);  // default duration, size, flags
    assert(v@ =~= spec_trex(*s));
    v
}

impl Mp4Muxer {
    /// A muxer with no tracks.
    pub fn new() -> (r: Self)
        ensures
            r.streams@.len() == 0,
            r.fragment_index == 0,
            r.sample_index == 0,
            r.moof_entries@.len() == 0,
            r.mdat_buffer@.len() == 0,
    {
        Self {
            streams: Vec::new(),
            fragment_index: 0,
            sample_index: 0,
            moof_entries: Vec::new(),
            mdat_buffer: Vec::new(),
        }
    }

    /// The time scale a codec's track gets: 90 kHz for video, 48 kHz for
    /// AAC, 1 kHz otherwise.
    pub open spec fn time_scale_of(c: CodecType) -> u32 {
        match c {
            CodecType::H264 | CodecType::H265 => 90000,
            CodecType::AAC => 48000,
            _ => 1000,
        }
    }

    /// Adds a track; its id is its 1-based index.
    pub fn add_stream(&mut self, codec_type: CodecType, width: u32, height: u32, codec_data: Vec<u8>)
        requires
            old(self).streams@.len() < usize::MAX,
        ensures
            final(self).streams@.len() == old(self).streams@.len() + 1,
            final(self).streams@.take(old(self).streams@.len() as int) == old(self).streams@,
            ({
                let s = final(self).streams@.last();
                &&& s.codec_type == codec_type
                &&& s.track_id == (old(self).streams@.len() + 1) as u32
                &&& s.time_scale == Self::time_scale_of(codec_type)
                &&& s.width == width
                &&& s.height == height
                &&& s.codec_data@ == codec_data@
                &&& s.last_dts == 0
            }),
            final(self).fragment_index == old(self).fragment_index,
            final(self).sample_index == old(self).sample_index,
            final(self).moof_entries@ == old(self).moof_entries@,
            final(self).mdat_buffer@ == old(self).mdat_buffer@,
    {
        let track_id = (self.streams.len() + 1) as u32;
        let time_scale = match codec_type {
            CodecType::H264 | CodecType::H265 => 90000,
            CodecType::AAC => 48000,
            _ => 1000,
        };
        self.streams.push(
            Stream { codec_type, track_id, time_scale, width, height, codec_data, last_dts: 0 },
        );
        assert(self.streams@.take(old(self).streams@.len() as int) =~= old(self).streams@);
    }

    /// The init segment (`ftyp` + `moov`) that describes every track.
    pub fn get_init(&self) -> (r: Vec<u8>)
        requires
            init_fits(self.streams@),
        ensures
            r@ == spec_init_segment(self.streams@),
    {
        let ghost ss = self.streams@;
        let ghost traks = ss.map_values(|s: Stream| spec_trak(s));
        let ghost trexs = ss.map_values(|s: Stream| spec_trex(s));
        let mut f: Vec<u8> = Vec::new();
        extend(
            &mut f,
            &[
                0x00, 0x00, 0x00, 0x18, 0x66, 0x74, 0x79, 0x70,  // size 24, "ftyp"
                0x69, 0x73, 0x6f, 0x36,  // major brand "iso6"
                0x00, 0x00, 0x00, 0x01,  // minor version 1
                0x69, 0x73, 0x6f, 0x36,  // compatible brand "iso6"
                0x64, 0x61, 0x73, 0x68,  // compatible brand "dash"
            ],
        );
        let mut moov: Vec<u8> = Vec::new();
        extend(
            &mut moov,
            &[
                0x00, 0x00, 0x00, 0x6c, 0x6d, 0x76, 0x68, 0x64,  // size & "mvhd"
                0x00, 0x00, 0x00, 0x00,  // version & flags
                0x00, 0x00, 0x00, 0x00,  // creation_time
                0x00, 0x00, 0x00, 0x00,  // modification_time
                0x00, 0x00, 0x03, 0xe8,  // timescale (1000)
                0x00, 0x00, 0x00, 0x00,  // duration
                0x00, 0x01, 0x00, 0x00,  // rate
                0x01, 0x00, 0x00, 0x00,  // volume
                0, 0, 0, 0, 0, 0, 0, 0,
                0x00, 0x01, 0x00, 0x00, 0, 0, 0, 0, 0, 0, 0, 0,
                0, 0, 0, 0, 0x00, 0x01, 0x00, 0x00, 0, 0, 0, 0,
                0, 0, 0, 0, 0, 0, 0, 0, 0x40, 0x00, 0x00, 0x00,  // matrix
                0, 0, 0, 0, 0, 0, 0, 0, 0, 0, 0, 0, 0, 0, 0, 0, 0, 0, 0, 0, 0, 0, 0, 0,
                0x00, 0x00, 0x00, 0x03,  // next_track_id
            ],
        );
        proof {
            assert(f@ =~= spec_ftyp());
            assert(moov@ =~= spec_mvhd());
            assert(traks.take(0) =~= Seq::<Seq<u8>>::empty());
            lemma_concat_prefix_len(traks, ss.len() as int);
            assert(traks.take(ss.len() as int) =~= traks);
        }
        let mut i: usize = 0;
        while i < self.streams.len()
            invariant
                i <= ss.len(),
                ss == self.streams@,
                init_fits(ss),
                traks == ss.map_values(|s: Stream| spec_trak(s)),
                moov@ == spec_mvhd() + concat(traks.take(i as int)),
                spec_mvhd().len() + concat(traks).len() <= usize::MAX,
            decreases ss.len() - i,
        {
            proof {
                assert(traks.take(i + 1) =~= traks.take(i as int).push(traks[i as int]));
                lemma_concat_push(traks.take(i as int), traks[i as int]);
                lemma_concat_prefix_len(traks, i + 1);
                assert(entry_fits(ss[i as int]));
            }
            let trak = trak_bytes(&self.streams[i]);
            extend(&mut moov, trak.as_slice());
            i += 1;
        }
        proof {
            assert(traks.take(ss.len() as int) =~= traks);
        }
        let mut mvex: Vec<u8> = Vec::new();
        extend(&mut mvex, &[0, 0, 0, 0x10, 0x6d, 0x65, 0x68, 0x64, 0, 0, 0, 0, 0, 0, 0, 0]);  // mehd
        proof {
            assert(trexs.take(0) =~= Seq::<Seq<u8>>::empty());
            lemma_concat_prefix_len(trexs, ss.len() as int);
            assert(trexs.take(ss.len() as int) =~= trexs);
        }
        let mut j: usize = 0;
        while j < self.streams.len()
            invariant
                j <= ss.len(),
                ss == self.streams@,
                trexs == ss.map_values(|s: Stream| spec_trex(s)),
                mvex@ == seq![0u8, 0, 0, 0x10, 0x6d, 0x65, 0x68, 0x64, 0, 0, 0, 0, 0, 0, 0, 0]
                    + concat(trexs.take(j as int)),
                16 + concat(trexs).len() <= usize::MAX,
            decreases ss.len() - j,
        {
            proof {
                assert(trexs.take(j + 1) =~= trexs.take(j as int).push(trexs[j as int]));
                lemma_concat_push(trexs.take(j as int), trexs[j as int]);
                lemma_concat_prefix_len(trexs, j + 1);
            }
            let trex = trex_bytes(&self.streams[j]);
            extend(&mut mvex, trex.as_slice());
            j += 1;
        }
        proof {
            assert(trexs.take(ss.len() as int) =~= trexs);
            assert(mvex@ =~= spec_mvex_payload(ss));
        }
        push_box(&mut moov, &[0x6d, 0x76, 0x65, 0x78], mvex.as_slice());  // "mvex"
        assert(moov@ =~= spec_moov_payload(ss));
        push_box(&mut f, &[0x6d, 0x6f, 0x6f, 0x76], moov.as_slice());  // "moov"
        assert(f@ =~= spec_init_segment(ss));
        f
    }
}

fn write_be32_at(v: &mut Vec<u8>, pos: usize, x: u32)
    requires
        pos + 4 <= old(v)@.len(),
    ensures
        final(v)@ == put_be32(old(v)@, pos as int, x),
{
    let n = v.len();
    assert(pos + 4 <= n);
    v.set(pos, (x >> 24u32) as u8);
    v.set(pos + 1, (x >> 16u32) as u8);
    v.set(pos + 2, (x >> 8u32) as u8);
    v.set(pos + 3, x as u8);
    assert(v@ =~= put_be32(old(v)@, pos as int, x));
}

impl Mp4Muxer {
    /// The invariant of the muxer: while samples are collected, the `mdat`
    /// buffer holds at least its 8-byte header.
    pub open spec fn wf(&self) -> bool {
        self.sample_index != 0 ==> self.mdat_buffer@.len() >= 8
    }

    /// Whether adding one more sample makes `write_packet` close the
    /// fragment.
    pub open spec fn closes_fragment(&self, pkt: Packet, max_frames: u32) -> bool {
        self.sample_index + 1 > max_frames && pkt.is_key_frame
    }

    /// The machine limits that a `write_packet` call stays within: the
    /// counters it increments and the buffers it grows.
    pub open spec fn write_fits(&self, pkt: Packet, max_frames: u32) -> bool {
        let i = pkt.idx as int;
        0 <= i < self.streams@.len() ==> {
            &&& self.sample_index < u32::MAX
            &&& self.mdat_buffer@.len() + 8 + pkt.data_view().len() <= usize::MAX
            &&& self.closes_fragment(pkt, max_frames) ==> {
                &&& self.fragment_index < u32::MAX
                &&& self.moof_entries@.len() + 1 <= 0x0fff_ffff
                &&& self.streams@[i].last_dts + total_duration(
                    self.moof_entries@.push(entry_of(pkt, self.streams@[i].time_scale)),
                ) <= u64::MAX
            }
        }
    }

    fn finalize(&mut self, idx: usize) -> (r: Vec<u8>)
        requires
            idx < old(self).streams@.len(),
            old(self).mdat_buffer@.len() >= 8,
            old(self).fragment_index < u32::MAX,
            old(self).moof_entries@.len() <= 0x0fff_ffff,
            old(self).streams@[idx as int].last_dts + total_duration(old(self).moof_entries@)
                <= u64::MAX,
        ensures
            r@ == spec_fragment(
                (old(self).fragment_index + 1) as u32,
                old(self).streams@[idx as int].track_id,
                old(self).streams@[idx as int].last_dts,
                old(self).moof_entries@,
                old(self).mdat_buffer@,
            ),
            final(self).fragment_index == old(self).fragment_index + 1,
            final(self).sample_index == 0,
            final(self).moof_entries@.len() == 0,
            final(self).mdat_buffer@.len() == 0,
            final(self).streams@.len() == old(self).streams@.len(),
            forall|j: int|
                0 <= j < old(self).streams@.len() && j != idx ==> #[trigger] final(self).streams@[j]
                    == old(self).streams@[j],
            final(self).streams@[idx as int] == (Stream {
                last_dts: (old(self).streams@[idx as int].last_dts + total_duration(
                    old(self).moof_entries@,
                )) as u64,
                ..old(self).streams@[idx as int]
            }),
    {
        let ghost es = self.moof_entries@;
        let ghost eb = es.map_values(|e: TrackFragRunEntry| entry_bytes(e));
        let track_id = self.streams[idx].track_id;
        let last_dts = self.streams[idx].last_dts;
        let seq_num = self.fragment_index + 1;
        self.fragment_index += 1;

        // mfhd
        let mut moof: Vec<u8> = Vec::new();
        push_be32(&mut moof, 16);
        extend(&mut moof, &[0x6d, 0x66, 0x68, 0x64]);  // "mfhd"
        extend(&mut moof, &[0, 0, 0, 0]);  // version, flags
        push_be32(&mut moof, seq_num);
        // tfhd
        let mut traf: Vec<u8> = Vec::new();
        push_be32(&mut traf, 20);
        extend(&mut traf, &[0x74, 0x66, 0x68, 0x64]);  // "tfhd"
        extend(&mut traf, &[0, 0x02, 0x00, 0x20]);  // flags: default-base-is-moof, default flags
        push_be32(&mut traf, track_id);
        extend(&mut traf, &[0x01, 0x01, 0x00, 0x00]);  // default sample flags
        // tfdt
        push_be32(&mut traf, 20);
        extend(&mut traf, &[0x74, 0x66, 0x64, 0x74]);  // "tfdt"
        extend(&mut traf, &[1, 0, 0, 0]);  // version 1
        push_be64(&mut traf, last_dts);
        // trun
        let mut trun: Vec<u8> = Vec::new();
        extend(&mut trun, &[0, 0x00, 0x0b, 0x05]);  // data offset, first sample flags, duration, size, cts
        push_be32(&mut trun, self.moof_entries.len() as u32);
        extend(&mut trun, &[0, 0, 0, 0]);  // data offset, written below
        extend(&mut trun, &[0x02, 0x00, 0x00, 0x00]);  // first sample flags (sync sample)
        let ghost head = trun@;
        let mut total_duration_acc: u64 = 0;
        let mut k: usize = 0;
        proof {
            assert(eb.take(0) =~= Seq::<Seq<u8>>::empty());
            assert(es.take(0) =~= Seq::<TrackFragRunEntry>::empty());
        }
        while k < self.moof_entries.len()
            invariant
                k <= es.len(),
                es == self.moof_entries@,
                eb == es.map_values(|e: TrackFragRunEntry| entry_bytes(e)),
                es.len() <= 0x0fff_ffff,
                trun@ == head + concat(eb.take(k as int)),
                trun@.len() == 16 + 12 * k,
                total_duration_acc == total_duration(es.take(k as int)),
                total_duration(es) <= u64::MAX,
            decreases es.len() - k,
        {
            let e = &self.moof_entries[k];
            push_be32(&mut trun, e.duration);
            push_be32(&mut trun, e.size);
            push_be32(&mut trun, e.cts);
            proof {
                assert(eb.take(k + 1) =~= eb.take(k as int).push(eb[k as int]));
                lemma_concat_push(eb.take(k as int), eb[k as int]);
                assert(es.take(k + 1).drop_last() =~= es.take(k as int));
                lemma_total_duration_prefix(es, k + 1);
            }
            total_duration_acc += e.duration as u64;
            k += 1;
        }
        proof {
            assert(eb.take(es.len() as int) =~= eb);
            assert(es.take(es.len() as int) =~= es);
            assert(trun@ =~= spec_trun_payload(es));
        }
        push_box(&mut traf, &[0x74, 0x72, 0x75, 0x6e], trun.as_slice());  // "trun"
        push_box(&mut moof, &[0x74, 0x72, 0x61, 0x66], traf.as_slice());  // "traf"
        assert(moof@ =~= spec_moof_payload(seq_num, track_id, last_dts, es));
        let mut moof_box: Vec<u8> = Vec::new();
        push_box(&mut moof_box, &[0x6d, 0x6f, 0x6f, 0x66], moof.as_slice());  // "moof"

        // The trun data offset points past the moof box and the mdat header.
        let data_offset = (moof_box.len() + 8) as u32;
        let offset_pos: usize = 88;
        write_be32_at(&mut moof_box, offset_pos, data_offset);

        // The mdat size.
        let mdat_len = self.mdat_buffer.len() as u32;
        write_be32_at(&mut self.mdat_buffer, 0, mdat_len);

        let mut fragment = moof_box;
        extend(&mut fragment, self.mdat_buffer.as_slice());

        let mut stream = self.streams.remove(idx);
        stream.last_dts = stream.last_dts + total_duration_acc;
        self.streams.insert(idx, stream);
        self.sample_index = 0;
        self.moof_entries.clear();
        self.mdat_buffer.clear();
        proof {
            assert forall|j: int|
                0 <= j < old(self).streams@.len() && j != idx implies #[trigger] self.streams@[j]
                == old(self).streams@[j] by {
                if j < idx {
                } else {
                }
            }
        }
        fragment
    }

    /// What `write_packet(pkt, max_frames)` does to a muxer in state `self`:
    /// `after` is the muxer afterwards, `r` the flag and the bytes returned.
    pub open spec fn writes_packet(
        &self,
        after: Self,
        pkt: Packet,
        max_frames: u32,
        r: (bool, Seq<u8>),
    ) -> bool {
        let i = pkt.idx as int;
        if i < 0 || i >= self.streams@.len() {
            &&& r.0 == false
            &&& r.1.len() == 0
            &&& after == *self
        } else {
            let st = self.streams@[i];
            let es = self.moof_entries@.push(entry_of(pkt, st.time_scale));
            let mdat = (if self.sample_index == 0 {
                mdat_placeholder()
            } else {
                self.mdat_buffer@
            }) + pkt.data_view();
            if self.closes_fragment(pkt, max_frames) {
                &&& r.0 == true
                &&& r.1 == spec_fragment(
                    (self.fragment_index + 1) as u32,
                    st.track_id,
                    st.last_dts,
                    es,
                    mdat,
                )
                &&& after.fragment_index == self.fragment_index + 1
                &&& after.sample_index == 0
                &&& after.moof_entries@.len() == 0
                &&& after.mdat_buffer@.len() == 0
                &&& after.streams@ == self.streams@.update(
                    i,
                    Stream { last_dts: (st.last_dts + total_duration(es)) as u64, ..st },
                )
            } else {
                &&& r.0 == false
                &&& r.1.len() == 0
                &&& after.fragment_index == self.fragment_index
                &&& after.sample_index == self.sample_index + 1
                &&& after.moof_entries@ == es
                &&& after.mdat_buffer@ == mdat
                &&& after.streams@ == self.streams@
            }
        }
    }

    /// Adds a frame to the fragment being collected. Once more than
    /// `max_frames` frames are in and the new one is a key frame, closes
    /// the fragment and returns it with `true`; otherwise returns `false`
    /// and no bytes. A frame of an unknown stream changes nothing.
    pub fn write_packet(&mut self, pkt: &Packet, max_frames: u32) -> (r: (bool, Vec<u8>))
        requires
            old(self).wf(),
            old(self).write_fits(*pkt, max_frames),
        ensures
            final(self).wf(),
            old(self).writes_packet(*final(self), *pkt, max_frames, (r.0, r.1@)),
    {
        if pkt.idx < 0 || pkt.idx as usize >= self.streams.len() {
            return (false, Vec::new());
        }
        let stream_idx = pkt.idx as usize;
        let is_keyframe = pkt.is_key_frame;
        let timescale = self.streams[stream_idx].time_scale;
        let raw_duration = to_timescale_units(pkt.duration, timescale);
        let cts = to_timescale_units(pkt.composition_time, timescale);

        if self.sample_index == 0 {
            // The mdat header, its size written when the fragment closes.
            let mut hdr: Vec<u8> = Vec::new();
            extend(&mut hdr, &[0, 0, 0, 0, 0x6d, 0x64, 0x61, 0x74]);
            self.mdat_buffer = hdr;
        }
        let data = bytes_as_slice(&pkt.data);
        self.moof_entries.push(
            TrackFragRunEntry {
                duration: raw_duration,
                size: data.len() as u32,
                cts: cts,
                is_keyframe,
            },
        );
        extend(&mut self.mdat_buffer, data);
        self.sample_index += 1;

        if self.sample_index > max_frames && is_keyframe {
            let result = self.finalize(stream_idx);
            proof {
                assert(self.streams@ =~= old(self).streams@.update(
                    stream_idx as int,
                    Stream {
                        last_dts: (old(self).streams@[stream_idx as int].last_dts + total_duration(
                            old(self).moof_entries@.push(
                                entry_of(*pkt, old(self).streams@[stream_idx as int].time_scale),
                            ),
                        )) as u64,
                        ..old(self).streams@[stream_idx as int]
                    },
                ));
            }
            return (true, result);
        }
        (false, Vec::new())
    }
}

impl Mp4Muxer {
    /// Whether `write_packet(pkt, max_frames)` may be called on this muxer:
    /// the invariant holds and the call stays within the machine limits.
    pub fn can_write(&self, pkt: &Packet, max_frames: u32) -> (b: bool)
        ensures
            b == (self.wf() && self.write_fits(*pkt, max_frames)),
    {
        if self.sample_index != 0 && self.mdat_buffer.len() < 8 {
            return false;
        }
        if pkt.idx < 0 || pkt.idx as usize >= self.streams.len() {
            return true;
        }
        let i = pkt.idx as usize;
        let data = bytes_as_slice(&pkt.data);
        if self.sample_index == u32::MAX {
            return false;
        }
        if self.mdat_buffer.len() > usize::MAX - 8 || data.len() > usize::MAX - 8 - self.mdat_buffer.len() {
            return false;
        }
        if !(self.sample_index + 1 > max_frames && pkt.is_key_frame) {
            return true;
        }
        if self.fragment_index == u32::MAX || self.moof_entries.len() >= 0x0fff_ffff {
            return false;
        }
        let total = sum_durations(&self.moof_entries);
        let d = to_timescale_units(pkt.duration, self.streams[i].time_scale);
        proof {
            let es = self.moof_entries@;
            let e = entry_of(*pkt, self.streams@[i as int].time_scale);
            assert(es.push(e).drop_last() =~= es);
        }
        (self.streams[i].last_dts as u128) + total + (d as u128) <= u64::MAX as u128
    }

    /// `write_packet`, for every muxer and frame: where the call would break
    /// the invariant or a machine limit, fails with
    /// `"frame does not fit the muxer"` and changes nothing.
    pub fn write_packet_checked(&mut self, pkt: &Packet, max_frames: u32) -> (r: Result<(bool, Vec<u8>), &'static str>)
        ensures
            !(old(self).wf() && old(self).write_fits(*pkt, max_frames)) ==> r is Err && r->Err_0
                == "frame does not fit the muxer" && *final(self) == *old(self),
            old(self).wf() && old(self).write_fits(*pkt, max_frames) ==> r is Ok && final(self).wf()
                && old(self).writes_packet(*final(self), *pkt, max_frames, (r->Ok_0.0, r->Ok_0.1@)),
    {
        if !self.can_write(pkt, max_frames) {
            return Err("frame does not fit the muxer");
        }
        Ok(self.write_packet(pkt, max_frames))
    }
}

fn sum_durations(es: &Vec<TrackFragRunEntry>) -> (t: u128)
    requires
        es@.len() <= 0x0fff_ffff,
    ensures
        t == total_duration(es@),
        t <= es@.len() * 0xffff_ffff,
{
    let mut t: u128 = 0;
    let mut i: usize = 0;
    while i < es.len()
        invariant
            i <= es@.len() <= 0x0fff_ffff,
            t == total_duration(es@.take(i as int)),
            t <= i * 0xffff_ffff,
        decreases es@.len() - i,
    {
        proof {
            lemma_total_duration_prefix(es@, i + 1);
        }
        t = t + es[i].duration as u128;
        i += 1;
    }
    assert(es@.take(i as int) =~= es@);
    t
}

fn to_timescale_units(ns: u64, time_scale: u32) -> (r: u32)
    ensures
        r == timescale_units(ns, time_scale),
{
    assert(ns as u128 * time_scale as u128 <= 0xffff_ffff_ffff_ffff * 0xffff_ffff) by (nonlinear_arith);
    let v: u128 = (ns as u128 * time_scale as u128) / 1_000_000_000;
    if v > u32::MAX as u128 {
        u32::MAX
    } else {
        v as u32
    }
}

/// The durations of a prefix of run entries add up one entry at a time.
proof fn lemma_total_duration_prefix(es: Seq<TrackFragRunEntry>, k: int)
    requires
        0 < k <= es.len(),
    ensures
        total_duration(es.take(k)) == total_duration(es.take(k - 1)) + es[k - 1].duration,
        total_duration(es.take(k)) <= total_duration(es),
    decreases es.len(),
{
    assert(es.take(k).drop_last() =~= es.take(k - 1));
    if k < es.len() {
        assert(es.drop_last().take(k) =~= es.take(k));
        assert(es.drop_last().take(k - 1) =~= es.take(k - 1));
        lemma_total_duration_prefix(es.drop_last(), k);
    } else {
        assert(es.take(k) =~= es);
    }
}

// ---------------------------------------------------------------------------
// Laws
// ---------------------------------------------------------------------------
/// Every box states its own size: its first four bytes hold its length as
/// a big-endian `u32`, the next four its type.
pub proof fn law_box_states_size(tag: Seq<u8>, payload: Seq<u8>)
    requires
        tag.len() == 4,
    ensures
        mp4_box(tag, payload).len() == payload.len() + 8,
        mp4_box(tag, payload).take(4) == be32(mp4_box(tag, payload).len() as u32),
        mp4_box(tag, payload).subrange(4, 8) == tag,
        mp4_box(tag, payload).skip(8) == payload,
{
    let b = mp4_box(tag, payload);
    assert(b.take(4) =~= be32((payload.len() + 8) as u32));
    assert(b.subrange(4, 8) =~= tag);
    assert(b.skip(8) =~= payload);
}

/// Whether the bytes `b` start with their own length as a big-endian `u32`
/// and hold at least a box header.
pub open spec fn states_size(b: Seq<u8>) -> bool {
    &&& 8 <= b.len() <= u32::MAX
    &&& b.take(4) == be32(b.len() as u32)
}

proof fn lemma_be32_small(x: u32)
    requires
        x < 256,
    ensures
        be32(x) == seq![0u8, 0, 0, x as u8],
{
    assert((x >> 24u32) as u8 == 0 && (x >> 16u32) as u8 == 0 && (x >> 8u32) as u8 == 0)
        by (bit_vector)
        requires
            x < 256,
    ;
    assert(be32(x) =~= seq![0u8, 0, 0, x as u8]);
}

proof fn lemma_literal_box(b: Seq<u8>, n: u8)
    requires
        b.len() == n,
        n >= 8,
        b[0] == 0,
        b[1] == 0,
        b[2] == 0,
        b[3] == n,
    ensures
        states_size(b),
{
    lemma_be32_small(n as u32);
    assert(b.take(4) =~= be32(b.len() as u32));
}

proof fn lemma_mp4_box_states_size(tag: Seq<u8>, payload: Seq<u8>)
    requires
        tag.len() == 4,
        payload.len() + 8 <= u32::MAX,
    ensures
        states_size(mp4_box(tag, payload)),
{
    law_box_states_size(tag, payload);
}

/// Every box of a track's `trak` states its own size: `trak`, `tkhd`,
/// `mdia`, `mdhd`, `hdlr`, the media header, `dinf`, `dref`, `url `,
/// `minf`, `stbl`, `stsd`, the sample entry and its configuration box, and
/// the five sample tables; so does the track's `trex`.
pub proof fn law_track_boxes_state_sizes(s: Stream)
    requires
        spec_trak(s).len() <= u32::MAX,
    ensures
        states_size(spec_trak(s)),
        states_size(spec_tkhd(s)),
        states_size(mp4_box(seq![0x6du8, 0x64, 0x69, 0x61], spec_mdia_payload(s))),
        states_size(spec_mdhd(s)),
        states_size(spec_hdlr(s)),
        spec_media_header(s.codec_type).len() > 0 ==> states_size(
            spec_media_header(s.codec_type),
        ),
        states_size(spec_dinf()),
        states_size(spec_dinf().skip(8)),
        states_size(spec_dinf().skip(24)),
        states_size(mp4_box(seq![0x6du8, 0x69, 0x6e, 0x66], spec_minf_payload(s))),
        states_size(mp4_box(seq![0x73u8, 0x74, 0x62, 0x6c], spec_stbl_payload(s))),
        states_size(
            mp4_box(
                seq![0x73u8, 0x74, 0x73, 0x64],
                seq![0u8, 0, 0, 0] + seq![0u8, 0, 0, 1] + spec_sample_entry(s),
            ),
        ),
        spec_sample_entry(s).len() > 0 ==> states_size(spec_sample_entry(s)),
        s.codec_type == CodecType::H264 || s.codec_type == CodecType::H265 ==> states_size(
            spec_sample_entry(s).skip(86),
        ),
        s.codec_type == CodecType::AAC ==> states_size(spec_sample_entry(s).skip(36)),
        forall|i: int| 0 <= i < 4 ==> states_size(#[trigger] spec_empty_tables().subrange(16 * i, 16 * i + 16)),
        states_size(spec_empty_tables().skip(64)),
        states_size(spec_trex(s)),
{
    let t = spec_trak(s);
    let mdia = mp4_box(seq![0x6du8, 0x64, 0x69, 0x61], spec_mdia_payload(s));
    let minf = mp4_box(seq![0x6du8, 0x69, 0x6e, 0x66], spec_minf_payload(s));
    let stbl = mp4_box(seq![0x73u8, 0x74, 0x62, 0x6c], spec_stbl_payload(s));
    let stsd = mp4_box(
        seq![0x73u8, 0x74, 0x73, 0x64],
        seq![0u8, 0, 0, 0] + seq![0u8, 0, 0, 1] + spec_sample_entry(s),
    );
    // Each box lies inside its parent, so all fit in a u32 size.
    assert(t.len() == spec_tkhd(s).len() + mdia.len() + 8);
    assert(mdia.len() == spec_mdhd(s).len() + spec_hdlr(s).len() + minf.len() + 8);
    assert(minf.len() == spec_media_header(s.codec_type).len() + spec_dinf().len() + stbl.len() + 8);
    assert(stbl.len() == stsd.len() + spec_empty_tables().len() + 8);
    lemma_mp4_box_states_size(seq![0x74u8, 0x72, 0x61, 0x6b], spec_tkhd(s) + mdia);
    lemma_mp4_box_states_size(seq![0x6du8, 0x64, 0x69, 0x61], spec_mdia_payload(s));
    lemma_mp4_box_states_size(seq![0x6du8, 0x69, 0x6e, 0x66], spec_minf_payload(s));
    lemma_mp4_box_states_size(seq![0x73u8, 0x74, 0x62, 0x6c], spec_stbl_payload(s));
    lemma_mp4_box_states_size(
        seq![0x73u8, 0x74, 0x73, 0x64],
        seq![0u8, 0, 0, 0] + seq![0u8, 0, 0, 1] + spec_sample_entry(s),
    );
    // Leaf boxes written out byte by byte.
    lemma_be32_small(92);
    lemma_be32_small(32);
    lemma_be32_small(37);
    assert(spec_tkhd(s).take(4) =~= be32(92));
    assert(spec_mdhd(s).take(4) =~= be32(32));
    assert(spec_hdlr(s).take(4) =~= be32(37));
    assert(spec_trex(s).take(4) =~= be32(32));
    if spec_media_header(s.codec_type).len() > 0 {
        let h = spec_media_header(s.codec_type);
        if s.codec_type == CodecType::AAC {
            lemma_literal_box(h, 16);
        } else {
            lemma_literal_box(h, 20);
        }
    }
    lemma_literal_box(spec_dinf(), 36);
    lemma_literal_box(spec_dinf().skip(8), 28);
    lemma_literal_box(spec_dinf().skip(24), 12);
    let e = spec_empty_tables();
    assert forall|i: int| 0 <= i < 4 implies states_size(#[trigger] e.subrange(16 * i, 16 * i + 16)) by {
        lemma_literal_box(e.subrange(16 * i, 16 * i + 16), 16);
    }
    lemma_literal_box(e.skip(64), 20);
    // The sample entry and its configuration box.
    let cd = s.codec_data@;
    let se = spec_sample_entry(s);
    if s.codec_type == CodecType::H264 || s.codec_type == CodecType::H265 {
        assert(se.len() == 94 + cd.len());
        assert(se.take(4) =~= be32((94 + cd.len()) as u32));
        assert(se.skip(86).take(4) =~= be32((8 + cd.len()) as u32));
    } else if s.codec_type == CodecType::AAC {
        assert(se.len() == 44 + cd.len());
        assert(se.take(4) =~= be32((44 + cd.len()) as u32));
        assert(se.skip(36).take(4) =~= be32((8 + cd.len()) as u32));
    }
}

proof fn lemma_concat_part_len(parts: Seq<Seq<u8>>, i: int)
    requires
        0 <= i < parts.len(),
    ensures
        parts[i].len() <= concat(parts).len(),
{
    assert(parts.take(i + 1).drop_last() =~= parts.take(i));
    lemma_concat_prefix_len(parts, i + 1);
}

proof fn lemma_entry_fits_of_trak(s: Stream)
    requires
        spec_trak(s).len() <= u32::MAX,
    ensures
        entry_fits(s),
{
    let stsd_payload = seq![0u8, 0, 0, 0] + seq![0u8, 0, 0, 1] + spec_sample_entry(s);
    let stbl = mp4_box(seq![0x73u8, 0x74, 0x62, 0x6c], spec_stbl_payload(s));
    let minf = mp4_box(seq![0x6du8, 0x69, 0x6e, 0x66], spec_minf_payload(s));
    let mdia = mp4_box(seq![0x6du8, 0x64, 0x69, 0x61], spec_mdia_payload(s));
    assert(spec_trak(s).len() >= mdia.len());
    assert(mdia.len() >= minf.len());
    assert(minf.len() >= stbl.len());
    assert(stbl.len() >= stsd_payload.len());
    assert(spec_sample_entry(s).len() <= u32::MAX);
    let cd = s.codec_data@;
    if s.codec_type == CodecType::H264 || s.codec_type == CodecType::H265 {
        assert(spec_sample_entry(s).len() >= 94 + cd.len());
        assert(cd.len() as u32 == cd.len());
    } else if s.codec_type == CodecType::AAC {
        assert(spec_sample_entry(s).len() >= 44 + cd.len());
        assert(cd.len() as u32 == cd.len());
    }
}

proof fn lemma_trex_states_size(st: Stream)
    ensures
        states_size(spec_trex(st)),
{
    lemma_be32_small(32);
    assert(spec_trex(st).take(4) =~= be32(32));
}

proof fn lemma_trak_in_init(streams: Seq<Stream>, i: int)
    requires
        spec_init_segment(streams).len() <= u32::MAX,
        0 <= i < streams.len(),
    ensures
        states_size(spec_trak(streams[i])),
        spec_trak(streams[i]).len() <= u32::MAX,
{
    let traks = streams.map_values(|s: Stream| spec_trak(s));
    let st = streams[i];
    lemma_concat_part_len(traks, i);
    assert(traks[i] == spec_trak(st));
    assert(spec_moov_payload(streams).len() >= concat(traks).len());
    let pl = spec_tkhd(st) + mp4_box(seq![0x6du8, 0x64, 0x69, 0x61], spec_mdia_payload(st));
    lemma_mp4_box_states_size(seq![0x74u8, 0x72, 0x61, 0x6b], pl);
}

/// The boxes at the top of the init segment state their own sizes: `ftyp`,
/// `moov`, `mvhd`, `mvex` and `mehd`, and every track's `trak` and `trex`,
/// each `trak` small enough for `law_track_boxes_state_sizes` to cover the
/// boxes inside it; and such an init segment is one `get_init` builds.
#[verifier::spinoff_prover]
#[verifier::rlimit(40)]
pub proof fn law_init_boxes_state_sizes(streams: Seq<Stream>)
    requires
        spec_init_segment(streams).len() <= u32::MAX,
    ensures
        states_size(spec_ftyp()),
        states_size(spec_init_segment(streams).skip(24)),
        states_size(spec_mvhd()),
        states_size(mp4_box(seq![0x6du8, 0x76, 0x65, 0x78], spec_mvex_payload(streams))),
        states_size(spec_mvex_payload(streams).take(16)),
        forall|i: int|
            0 <= i < streams.len() ==> states_size(#[trigger] spec_trak(streams[i])) && states_size(
                spec_trex(streams[i]),
            ) && spec_trak(streams[i]).len() <= u32::MAX,
        init_fits(streams),
{
    let traks = streams.map_values(|s: Stream| spec_trak(s));
    let mvex = mp4_box(seq![0x6du8, 0x76, 0x65, 0x78], spec_mvex_payload(streams));
    let moov = mp4_box(seq![0x6du8, 0x6f, 0x6f, 0x76], spec_moov_payload(streams));
    let init = spec_init_segment(streams);
    assert(init.skip(24) =~= moov);
    lemma_mp4_box_states_size(seq![0x6du8, 0x6f, 0x6f, 0x76], spec_moov_payload(streams));
    assert(spec_moov_payload(streams).len() == 108 + concat(traks).len() + mvex.len());
    lemma_mp4_box_states_size(seq![0x6du8, 0x76, 0x65, 0x78], spec_mvex_payload(streams));
    lemma_literal_box(spec_ftyp(), 24);
    lemma_literal_box(spec_mvhd(), 108);
    lemma_literal_box(spec_mvex_payload(streams).take(16), 16);
    assert forall|i: int| 0 <= i < streams.len() implies states_size(#[trigger] spec_trak(streams[i]))
        && states_size(spec_trex(streams[i])) && spec_trak(streams[i]).len() <= u32::MAX by {
        lemma_trak_in_init(streams, i);
        lemma_trex_states_size(streams[i]);
    }
    assert forall|i: int| 0 <= i < streams.len() implies entry_fits(#[trigger] streams[i]) by {
        lemma_trak_in_init(streams, i);
        lemma_entry_fits_of_trak(streams[i]);
    }
}


proof fn lemma_nested_subrange(t: Seq<u8>, x: Seq<u8>, at: int, i: int, j: int)
    requires
        0 <= at,
        0 <= i <= j <= x.len(),
        at + x.len() <= t.len(),
        t.subrange(at, at + x.len() as int) == x,
    ensures
        t.subrange(at + i, at + j) == x.subrange(i, j),
{
    assert forall|k: int| 0 <= k < j - i implies t.subrange(at + i, at + j)[k] == x.subrange(i, j)[k] by {
        assert(t.subrange(at, at + x.len() as int)[i + k] == t[at + i + k]);
    }
    assert(t.subrange(at + i, at + j) =~= x.subrange(i, j));
}

/// The type tags of the sample entries and their configuration boxes.
proof fn lemma_entry_tags(s: Stream)
    ensures
        ({
            let se = spec_sample_entry(s);
            &&& s.codec_type == CodecType::H264 ==> se.len() >= 94 && se.subrange(4, 8) == seq![
                0x61u8,
                0x76,
                0x63,
                0x31,
            ] && se.subrange(90, 94) == seq![0x61u8, 0x76, 0x63, 0x43]
            &&& s.codec_type == CodecType::H265 ==> se.len() >= 94 && se.subrange(4, 8) == seq![
                0x68u8,
                0x76,
                0x63,
                0x31,
            ] && se.subrange(90, 94) == seq![0x68u8, 0x76, 0x63, 0x43]
            &&& s.codec_type == CodecType::AAC ==> se.len() >= 44 && se.subrange(4, 8) == seq![
                0x6du8,
                0x70,
                0x34,
                0x61,
            ] && se.subrange(40, 44) == seq![0x65u8, 0x73, 0x64, 0x73]
            &&& s.codec_type != CodecType::H264 && s.codec_type != CodecType::H265
                && s.codec_type != CodecType::AAC ==> se.len() == 0
        }),
{
    let se = spec_sample_entry(s);
    if s.codec_type == CodecType::H264 || s.codec_type == CodecType::H265 {
        assert(spec_visual_fields(s).len() == 78);
        assert(se.subrange(4, 8) =~= se.subrange(4, 8));
    }
    if s.codec_type == CodecType::H264 {
        assert(se.subrange(4, 8) =~= seq![0x61u8, 0x76, 0x63, 0x31]);
        assert(se.subrange(90, 94) =~= seq![0x61u8, 0x76, 0x63, 0x43]);
    } else if s.codec_type == CodecType::H265 {
        assert(se.subrange(4, 8) =~= seq![0x68u8, 0x76, 0x63, 0x31]);
        assert(se.subrange(90, 94) =~= seq![0x68u8, 0x76, 0x63, 0x43]);
    } else if s.codec_type == CodecType::AAC {
        assert(se.subrange(4, 8) =~= seq![0x6du8, 0x70, 0x34, 0x61]);
        assert(se.subrange(40, 44) =~= seq![0x65u8, 0x73, 0x64, 0x73]);
    }
}

proof fn lemma_stsd_parts(se: Seq<u8>)
    ensures
        ({
            let stsd = mp4_box(
                seq![0x73u8, 0x74, 0x73, 0x64],
                seq![0u8, 0, 0, 0] + seq![0u8, 0, 0, 1] + se,
            );
            &&& stsd.len() == 16 + se.len()
            &&& stsd.subrange(16, 16 + se.len() as int) == se
            &&& stsd.subrange(4, 8) == seq![0x73u8, 0x74, 0x73, 0x64]
            &&& stsd.subrange(0, 4) == be32((se.len() + 16) as u32)
            &&& se.len() == 0 ==> stsd.subrange(0, 4) == seq![0u8, 0, 0, 16]
        }),
{
    let stsd = mp4_box(seq![0x73u8, 0x74, 0x73, 0x64], seq![0u8, 0, 0, 0] + seq![0u8, 0, 0, 1] + se);
    assert(stsd.subrange(16, 16 + se.len() as int) =~= se);
    assert(stsd.subrange(4, 8) =~= seq![0x73u8, 0x74, 0x73, 0x64]);
    assert(stsd.subrange(0, 4) =~= be32((se.len() + 16) as u32));
    if se.len() == 0 {
        lemma_be32_small(16);
        assert(stsd.subrange(0, 4) =~= seq![0u8, 0, 0, 16]);
    }
}

proof fn lemma_hdlr_media_header(s: Stream)
    ensures
        spec_hdlr(s).len() == 37,
        spec_hdlr(s).subrange(16, 20) == handler_type(s.codec_type),
        s.codec_type == CodecType::H264 || s.codec_type == CodecType::H265 ==> spec_media_header(
            s.codec_type,
        ).len() == 20,
        s.codec_type == CodecType::AAC ==> spec_media_header(s.codec_type).len() == 16,
        s.codec_type != CodecType::H264 && s.codec_type != CodecType::H265 && s.codec_type
            != CodecType::AAC ==> spec_media_header(s.codec_type).len() == 0,
{
    assert(spec_hdlr(s).subrange(16, 20) =~= handler_type(s.codec_type));
}

/// Where the `hdlr` box and the `stsd` box stand in a `trak`.
proof fn lemma_trak_parts(s: Stream)
    ensures
        ({
            let t = spec_trak(s);
            let stsd = mp4_box(
                seq![0x73u8, 0x74, 0x73, 0x64],
                seq![0u8, 0, 0, 0] + seq![0u8, 0, 0, 1] + spec_sample_entry(s),
            );
            let base: int = 185 + spec_media_header(s.codec_type).len() as int + 36 + 8;
            &&& spec_hdlr(s).len() == 37
            &&& t.subrange(140, 177) == spec_hdlr(s)
            &&& t.len() >= base + stsd.len()
            &&& t.subrange(base, base + stsd.len() as int) == stsd
        }),
{
    let se = spec_sample_entry(s);
    let stsd = mp4_box(seq![0x73u8, 0x74, 0x73, 0x64], seq![0u8, 0, 0, 0] + seq![0u8, 0, 0, 1] + se);
    let stbl_p = spec_stbl_payload(s);
    let minf_p = spec_minf_payload(s);
    let mdia_p = spec_mdia_payload(s);
    let stbl = mp4_box(seq![0x73u8, 0x74, 0x62, 0x6c], stbl_p);
    let minf = mp4_box(seq![0x6du8, 0x69, 0x6e, 0x66], minf_p);
    let mdia = mp4_box(seq![0x6du8, 0x64, 0x69, 0x61], mdia_p);
    let t = spec_trak(s);
    let mh = spec_media_header(s.codec_type);
    assert(spec_tkhd(s).len() == 92);
    assert(spec_mdhd(s).len() == 32);
    assert(spec_hdlr(s).len() == 37);
    assert(spec_dinf().len() == 36);
    let pre = be32((spec_tkhd(s).len() + mdia.len() + 8) as u32) + seq![0x74u8, 0x72, 0x61, 0x6b]
        + spec_tkhd(s) + be32((mdia_p.len() + 8) as u32) + seq![0x6du8, 0x64, 0x69, 0x61]
        + spec_mdhd(s);
    assert(pre.len() == 140);
    assert(t =~= pre + spec_hdlr(s) + minf);
    assert(t.subrange(140, 177) =~= spec_hdlr(s));
    let pre2 = pre + spec_hdlr(s) + be32((minf_p.len() + 8) as u32) + seq![0x6du8, 0x69, 0x6e, 0x66]
        + mh + spec_dinf() + be32((stbl_p.len() + 8) as u32) + seq![0x73u8, 0x74, 0x62, 0x6c];
    assert(t =~= pre2 + stsd + spec_empty_tables());
    assert(t.subrange(pre2.len() as int, pre2.len() + stsd.len() as int) =~= stsd);
}

/// The windows of a `trak` that hold its handler type and the type tags
/// of its sample entry and configuration box.
#[verifier::spinoff_prover]
proof fn lemma_trak_windows(s: Stream)
    ensures
        ({
            let t = spec_trak(s);
            let se = spec_sample_entry(s);
            let at: int = 245 + spec_media_header(s.codec_type).len() as int;
            &&& t.subrange(156, 160) == handler_type(s.codec_type)
            &&& t.len() >= at + se.len()
            &&& t.subrange(at, at + se.len() as int) == se
            &&& t.subrange(at - 16, at - 12) == be32((se.len() + 16) as u32)
            &&& t.subrange(at - 12, at - 8) == seq![0x73u8, 0x74, 0x73, 0x64]
        }),
{
    let se = spec_sample_entry(s);
    let stsd = mp4_box(seq![0x73u8, 0x74, 0x73, 0x64], seq![0u8, 0, 0, 0] + seq![0u8, 0, 0, 1] + se);
    let t = spec_trak(s);
    lemma_trak_parts(s);
    lemma_stsd_parts(se);
    lemma_hdlr_media_header(s);
    let base: int = 185 + spec_media_header(s.codec_type).len() as int + 36 + 8;
    lemma_nested_subrange(t, spec_hdlr(s), 140, 16, 20);
    lemma_nested_subrange(t, stsd, base, 16, 16 + se.len() as int);
    lemma_nested_subrange(t, stsd, base, 0, 4);
    lemma_nested_subrange(t, stsd, base, 4, 8);
}

/// The four bytes at `i` of a track's sample entry stand at `245 + i` plus
/// the media header's length in its `trak`, after the handler type.
#[verifier::spinoff_prover]
proof fn lemma_track_tags(s: Stream, i: int)
    requires
        0 <= i,
        i + 4 <= spec_sample_entry(s).len(),
    ensures
        ({
            let at: int = 245 + spec_media_header(s.codec_type).len() as int;
            &&& spec_trak(s).subrange(at + i, at + i + 4) == spec_sample_entry(s).subrange(i, i + 4)
            &&& spec_trak(s).subrange(156, 160) == handler_type(s.codec_type)
        }),
{
    lemma_trak_windows(s);
    let at: int = 245 + spec_media_header(s.codec_type).len() as int;
    lemma_nested_subrange(spec_trak(s), spec_sample_entry(s), at, i, i + 4);
}

/// An H.264 track is declared as H.264: its handler is `vide` and its
/// `stsd` holds an `avc1` sample entry whose configuration box is `avcC`.
#[verifier::spinoff_prover]
pub proof fn law_h264_track_types(s: Stream)
    requires
        s.codec_type == CodecType::H264,
    ensures
        spec_trak(s).subrange(156, 160) == seq![0x76u8, 0x69, 0x64, 0x65],
        spec_trak(s).subrange(269, 273) == seq![0x61u8, 0x76, 0x63, 0x31],
        spec_trak(s).subrange(355, 359) == seq![0x61u8, 0x76, 0x63, 0x43],
{
    lemma_track_tags(s, 4);
    lemma_track_tags(s, 90);
}

/// An H.265 track is declared as H.265: its handler is `vide` and its
/// `stsd` holds an `hvc1` sample entry whose configuration box is `hvcC`.
#[verifier::spinoff_prover]
pub proof fn law_h265_track_types(s: Stream)
    requires
        s.codec_type == CodecType::H265,
    ensures
        spec_trak(s).subrange(156, 160) == seq![0x76u8, 0x69, 0x64, 0x65],
        spec_trak(s).subrange(269, 273) == seq![0x68u8, 0x76, 0x63, 0x31],
        spec_trak(s).subrange(355, 359) == seq![0x68u8, 0x76, 0x63, 0x43],
{
    lemma_track_tags(s, 4);
    lemma_track_tags(s, 90);
}

/// An AAC track is declared as audio: its handler is `soun` and its
/// `stsd` holds an `mp4a` sample entry whose configuration box is `esds`.
#[verifier::spinoff_prover]
pub proof fn law_aac_track_types(s: Stream)
    requires
        s.codec_type == CodecType::AAC,
    ensures
        spec_trak(s).subrange(156, 160) == seq![0x73u8, 0x6f, 0x75, 0x6e],
        spec_trak(s).subrange(265, 269) == seq![0x6du8, 0x70, 0x34, 0x61],
        spec_trak(s).subrange(301, 305) == seq![0x65u8, 0x73, 0x64, 0x73],
{
    lemma_track_tags(s, 4);
    lemma_track_tags(s, 40);
}

/// A track of another codec has the handler `hint` and an `stsd` box of 16
/// bytes: version, flags and an entry count, with no sample entry.
#[verifier::spinoff_prover]
#[verifier::rlimit(60)]
pub proof fn law_other_track_types(s: Stream)
    requires
        s.codec_type == CodecType::Opus || s.codec_type == CodecType::PcmMulaw || s.codec_type
            == CodecType::PcmAlaw,
    ensures
        spec_trak(s).subrange(156, 160) == seq![0x68u8, 0x69, 0x6e, 0x74],
        spec_trak(s).subrange(229, 233) == seq![0u8, 0, 0, 16],
        spec_trak(s).subrange(233, 237) == seq![0x73u8, 0x74, 0x73, 0x64],
{
    lemma_trak_windows(s);
    lemma_entry_tags(s);
    lemma_hdlr_media_header(s);
    lemma_be32_small(16);
    let t = spec_trak(s);
    let se = spec_sample_entry(s);
    assert(spec_media_header(s.codec_type).len() == 0);
    assert(se.len() == 0);
    assert(t.subrange(229, 233) == be32((se.len() + 16) as u32));
    assert(handler_type(s.codec_type) =~= seq![0x68u8, 0x69, 0x6e, 0x74]);
}

/// The init segment is an `ftyp` box followed by a `moov` box, each
/// stating its own size.
#[verifier::spinoff_prover]
pub proof fn law_init_segment_layout(streams: Seq<Stream>)
    ensures
        ({
            let init = spec_init_segment(streams);
            &&& init.len() >= 32
            &&& init.take(4) == be32(24)
            &&& init.subrange(4, 8) == seq![0x66u8, 0x74, 0x79, 0x70]
            &&& init.subrange(24, 28) == be32((init.len() - 24) as u32)
            &&& init.subrange(28, 32) == seq![0x6du8, 0x6f, 0x6f, 0x76]
        }),
{
    let init = spec_init_segment(streams);
    let moov = mp4_box(seq![0x6du8, 0x6f, 0x6f, 0x76], spec_moov_payload(streams));
    law_box_states_size(seq![0x6du8, 0x6f, 0x6f, 0x76], spec_moov_payload(streams));
    assert(init.take(4) =~= be32(24)) by {
        let x: u32 = 24;
        assert((x >> 24u32) as u8 == 0 && (x >> 16u32) as u8 == 0 && (x >> 8u32) as u8 == 0 && x
            as u8 == 0x18) by (bit_vector)
            requires
                x == 24,
        ;
    }
    assert(init.subrange(4, 8) =~= seq![0x66u8, 0x74, 0x79, 0x70]);
    assert(init.subrange(24, 28) =~= moov.take(4));
    assert(init.subrange(28, 32) =~= moov.subrange(4, 8));
}

/// A fragment is a `moof` box stating its own size, whose `trun` data
/// offset (byte 88) points just past the `mdat` header, followed by the
/// `mdat` box, whose size field holds its length.
pub proof fn law_fragment_layout(
    seq_num: u32,
    track_id: u32,
    base_dts: u64,
    es: Seq<TrackFragRunEntry>,
    mdat: Seq<u8>,
)
    requires
        mdat.len() >= 8,
    ensures
        ({
            let f = spec_fragment(seq_num, track_id, base_dts, es, mdat);
            let ml = spec_moof_payload(seq_num, track_id, base_dts, es).len() + 8;
            &&& ml >= 96
            &&& f.len() == ml + mdat.len()
            &&& f.take(4) == be32(ml as u32)
            &&& f.subrange(4, 8) == seq![0x6du8, 0x6f, 0x6f, 0x66]
            &&& f.subrange(88, 92) == be32((ml + 8) as u32)
            &&& f.subrange(ml as int, ml + 4int) == be32(mdat.len() as u32)
            &&& f.skip(ml + 4int) == mdat.skip(4)
        }),
{
    let payload = spec_moof_payload(seq_num, track_id, base_dts, es);
    let moof = mp4_box(seq![0x6du8, 0x6f, 0x6f, 0x66], payload);
    law_box_states_size(seq![0x6du8, 0x6f, 0x6f, 0x66], payload);
    let ml = moof.len();
    assert(ml >= 96);
    let pm = put_be32(moof, 88, (ml + 8) as u32);
    let pd = put_be32(mdat, 0, mdat.len() as u32);
    let f = spec_fragment(seq_num, track_id, base_dts, es, mdat);
    assert(f == pm + pd);
    assert(f.take(4) =~= moof.take(4));
    assert(f.subrange(4, 8) =~= moof.subrange(4, 8));
    assert(f.subrange(88, 92) =~= be32((ml + 8) as u32));
    assert(f.subrange(ml as int, ml + 4int) =~= be32(mdat.len() as u32));
    assert(f.skip(ml + 4int) =~= mdat.skip(4));
}

} // verus!

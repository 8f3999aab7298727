use crate::av::{bytes_as_slice, CodecType, Packet};
use crate::utils::buf::{
    be16, be64, concat, extend, extend_fill, fill, lemma_concat_push, push_be16, push_be64,
};
use std::collections::HashMap;
use vstd::prelude::*;

verus! {

broadcast use vstd::std_specs::hash::group_hash_axioms;

pub const TS_PACKET_SIZE: usize = 188;

pub const PAT_PID: u16 = 0;

pub const PMT_PID: u16 = 0x100;

pub const PCR_PID: u16 = 0x100;

/// An elementary stream of the transport stream.
#[derive(Clone, Copy)]
pub struct TsStream {
    pub codec_type: CodecType,
    pub pid: u16,
    pub stream_type: u8,
    pub continuity_counter: u8,
}

/// An MPEG-TS muxer: PAT and PMT, then PES packets cut into 188-byte
/// transport packets.
pub struct TsMuxer {
    pub streams: HashMap<i8, TsStream>,
    pub pat_cc: u8,
    pub pmt_cc: u8,
}

// ---------------------------------------------------------------------------
// Program tables
// ---------------------------------------------------------------------------
/// The stream type of a codec in the PMT.
pub open spec fn stream_type_of(c: CodecType) -> u8 {
    match c {
        CodecType::H264 => 0x1b,
        CodecType::H265 => 0x24,
        CodecType::AAC => 0x0f,
        _ => 0,
    }
}

/// The PAT packet: program 1 on PID 0x100, with the continuity counter
/// `cc`, padded with `0xff`.
pub open spec fn spec_pat_packet(cc: u8) -> Seq<u8> {
    seq![0x47u8, 0x40, 0x00, 0x10 | (cc & 0xf), 0x00] + seq![
        0x00u8, 0xb0, 0x0d, 0x00, 0x01, 0xc1, 0x00, 0x00, 0x00, 0x01, 0xe1, 0x00, 0x2a, 0xb1,
        0x04, 0xb2,
    ] + fill(0xff, 167)
}

/// The PMT entry of an elementary stream.
pub open spec fn pmt_entry(s: TsStream) -> Seq<u8> {
    seq![s.stream_type, 0xe0u8 | ((s.pid >> 8u16) as u8), (s.pid & 0xff) as u8, 0xf0, 0x00]
}

/// The PMT section listing the streams in the order `order`: its section
/// length counts the bytes after the length field.
pub open spec fn spec_pmt_table(order: Seq<TsStream>) -> Seq<u8> {
    let body = seq![0x00u8, 0x01, 0xc1, 0x00, 0x00, 0xe1, 0x00, 0xf0, 0x00] + concat(
        order.map_values(|s: TsStream| pmt_entry(s)),
    ) + seq![0x3fu8, 0xe4, 0x5a, 0x82];
    let len = body.len() as u16;
    seq![0x02u8, 0xb0u8 | ((len >> 8u16) as u8), (len & 0xff) as u8] + body
}

/// The PMT packet with the continuity counter `cc`, padded with `0xff`.
pub open spec fn spec_pmt_packet(cc: u8, order: Seq<TsStream>) -> Seq<u8> {
    seq![0x47u8, 0x41, 0x00, 0x10 | (cc & 0xf), 0x00] + spec_pmt_table(order) + fill(
        0xff,
        (183 - spec_pmt_table(order).len()) as nat,
    )
}

/// `ks` lists every key of `m` once, in some order.
pub open spec fn lists_keys(ks: Seq<i8>, m: Map<i8, TsStream>) -> bool {
    &&& ks.no_duplicates()
    &&& ks.len() == m.dom().len()
    &&& ks.to_set() == m.dom()
}

/// `order` lists the streams of `m`, one entry per key, in some order of
/// the keys.
pub open spec fn lists_streams(order: Seq<TsStream>, m: Map<i8, TsStream>) -> bool {
    exists|ks: Seq<i8>| #[trigger] lists_keys(ks, m) && order == ks.map_values(|k: i8| m[k])
}

// ---------------------------------------------------------------------------
// PES packets
// ---------------------------------------------------------------------------
/// A time in nanoseconds on the 90 kHz clock, rounded down.
pub open spec fn clock_90k(ns: u64) -> int {
    ns as int * 9 / 100_000
}

/// The PES stream id of a codec.
pub open spec fn stream_id_of(c: CodecType) -> u8 {
    match c {
        CodecType::H264 | CodecType::H265 => 0xe0,
        CodecType::AAC => 0xc0,
        _ => 0xbd,
    }
}

/// A time stamp field: the marker byte with bits 32..30 of `t`, then bits
/// 29..15 and 14..0 of `t`, each with a marker bit, each as a 64-bit
/// big-endian word.
pub open spec fn stamp_bytes(prefix: u64, t: u64) -> Seq<u8> {
    seq![(((t >> 29u64) & 0x07) << 1u64 | prefix) as u8] + be64(((t >> 14u64) & 0x7fff) << 1u64 | 1)
        + be64(((t & 0x7fff) << 1u64) | 1)
}

/// The PES packet of a frame of a stream of codec `c`, with its
/// presentation and decode times on the 90 kHz clock. Video gets an access
/// unit delimiter before the frame.
pub open spec fn spec_pes(c: CodecType, data: Seq<u8>, pts: u64, dts: u64) -> Seq<u8> {
    let sid = stream_id_of(c);
    seq![0x00u8, 0x00, 0x01, sid] + (if sid >= 0xe0 {
        seq![0u8, 0]
    } else {
        be16((data.len() + 8) as u16)
    }) + seq![0x84u8, 0xc0, 10] + stamp_bytes(0x31, pts) + stamp_bytes(0x11, dts) + (if c
        == CodecType::H264 || c == CodecType::H265 {
        seq![0x00u8, 0x00, 0x00, 0x01, 0x09, 0xf0]
    } else {
        seq![]
    }) + data
}

/// The number of PES bytes that the first transport packet carries: 176
/// behind the PCR adaptation field of a key frame, 184 otherwise.
pub open spec fn first_capacity(key: bool) -> nat {
    if key {
        176
    } else {
        184
    }
}

/// The program clock reference bytes of the adaptation field, from `pcr`.
pub open spec fn pcr_bytes(pcr: u64) -> Seq<u8> {
    seq![
        (pcr >> 25u64) as u8,
        ((pcr >> 17u64) & 0xff) as u8,
        ((pcr >> 9u64) & 0xff) as u8,
        ((pcr >> 1u64) & 0xff) as u8,
        (((pcr & 1) << 7u64) | 0x7e) as u8,
        0,
    ]
}

/// The first transport packet of a PES packet: payload unit start set; for
/// a key frame an adaptation field with random access and the PCR, the
/// payload, then `0xff` filling (the field length counts the filling); for
/// other frames the payload then zeros.
pub open spec fn spec_first_packet(pes: Seq<u8>, pid: u16, cc: u8, key: bool, pcr: u64) -> Seq<u8> {
    let fp = pid | 0x4000;
    let hdr = seq![0x47u8, (fp >> 8u16) as u8, (fp & 0xff) as u8];
    let n = if pes.len() < first_capacity(key) {
        pes.len()
    } else {
        first_capacity(key)
    };
    if key {
        hdr + seq![0x30u8 | (cc & 0xf), (7 + (176 - n)) as u8, 0x50] + pcr_bytes(pcr)
            + pes.take(n as int) + fill(0xff, (176 - n) as nat)
    } else {
        hdr + seq![0x10u8 | (cc & 0xf)] + pes.take(n as int) + fill(0, (184 - n) as nat)
    }
}

/// The last transport packet of a PES packet, for its last `r` bytes
/// (`0 < r < 184`): an adaptation field of length `183 - r` (a flags byte
/// and `0xff` stuffing, or nothing but the length when `r` is 183) puts
/// the payload at the end of the packet.
pub open spec fn spec_last_packet(rest: Seq<u8>, pid: u16, cc: u8) -> Seq<u8> {
    let r = rest.len();
    seq![0x47u8, (pid >> 8u16) as u8, (pid & 0xff) as u8, 0x30u8 | (cc & 0xf), (183 - r) as u8]
        + (if r < 183 {
        seq![0x00u8] + fill(0xff, (182 - r) as nat)
    } else {
        seq![]
    }) + rest
}

/// The transport packets after the first, for the PES bytes from `off` on,
/// starting with the continuity counter `cc`: 184 bytes in each, then the
/// bytes left over in a stuffed last packet.
pub open spec fn spec_more_packets(pes: Seq<u8>, off: int, pid: u16, cc: u8) -> Seq<u8>
    decreases pes.len() - off,
{
    if off < 0 || off >= pes.len() {
        seq![]
    } else if off + 184 <= pes.len() {
        seq![0x47u8, (pid >> 8u16) as u8, (pid & 0xff) as u8, 0x10u8 | (cc & 0xf)] + pes.subrange(
            off,
            off + 184,
        ) + spec_more_packets(pes, off + 184, pid, ((cc + 1) % 16) as u8)
    } else {
        spec_last_packet(pes.skip(off), pid, cc)
    }
}

/// The transport packets of a PES packet.
pub open spec fn spec_ts_packets(pes: Seq<u8>, pid: u16, cc: u8, key: bool, pcr: u64) -> Seq<u8> {
    spec_first_packet(pes, pid, cc, key, pcr) + spec_more_packets(
        pes,
        first_capacity(key) as int,
        pid,
        ((cc + 1) % 16) as u8,
    )
}

/// The number of transport packets a PES packet of `pes_len` bytes takes.
pub open spec fn packet_count(pes_len: nat, key: bool) -> nat {
    if pes_len <= first_capacity(key) {
        1
    } else {
        1 + ((pes_len - first_capacity(key) + 183) / 184) as nat
    }
}

/// The presentation time of a frame on the 90 kHz clock.
pub open spec fn pts_of(pkt: Packet) -> int {
    clock_90k(pkt.time)
}

/// The decode time of a frame on the 90 kHz clock.
pub open spec fn dts_of(pkt: Packet) -> int {
    clock_90k(pkt.time) - clock_90k(pkt.composition_time)
}

/// The PES packet that `write_packet` builds for `pkt` on stream `s`.
pub open spec fn pes_of(s: TsStream, pkt: Packet) -> Seq<u8> {
    spec_pes(s.codec_type, pkt.data_view(), pts_of(pkt) as u64, dts_of(pkt) as u64)
}

// ---------------------------------------------------------------------------
// Muxer
// ---------------------------------------------------------------------------
/// Taking a whole sequence gives it back.
broadcast proof fn lemma_take_all<A>(s: Seq<A>)
    ensures
        #[trigger] s.take(s.len() as int) == s,
{
    assert(s.take(s.len() as int) =~= s);
}

fn clock_90k_exec(ns: u64) -> (r: u64)
    ensures
        r == clock_90k(ns),
{
    (ns as u128 * 9 / 100_000) as u64
}

fn push_stamp(v: &mut Vec<u8>, prefix: u64, t: u64)
    ensures
        final(v)@ == old(v)@ + stamp_bytes(prefix, t),
{
    v.push((((t >> 29) & 0x07) << 1 | prefix) as u8);
    push_be64(v, ((t >> 14) & 0x7fff) << 1 | 1);
    push_be64(v, ((t & 0x7fff) << 1) | 1);
    assert(v@ =~= old(v)@ + stamp_bytes(prefix, t));
}

fn build_pes(codec_type: CodecType, data: &[u8], pts: u64, dts: u64) -> (r: Vec<u8>)
    requires
        data@.len() + 64 <= usize::MAX,
    ensures
        r@ == spec_pes(codec_type, data@, pts, dts),
{
    let mut pes: Vec<u8> = Vec::new();
    // Start code prefix and stream id.
    extend(&mut pes, &[0x00, 0x00, 0x01]);
    let stream_id: u8 = match codec_type {
        CodecType::H264 | CodecType::H265 => 0xe0,
        CodecType::AAC => 0xc0,
        _ => 0xbd,
    };
    pes.push(stream_id);
    // Packet length: 0 (unbounded) for video, else the frame plus header.
    if stream_id >= 0xe0 {
        extend(&mut pes, &[0, 0]);
    } else {
        let pes_len = (data.len() + 8) as u16;
        push_be16(&mut pes, pes_len);
    }
    extend(&mut pes, &[0x84, 0xc0]);  // PTS and DTS present
    pes.push(10);  // header data length
    push_stamp(&mut pes, 0x31, pts);
    push_stamp(&mut pes, 0x11, dts);
    if codec_type == CodecType::H264 || codec_type == CodecType::H265 {
        extend(&mut pes, &[0x00, 0x00, 0x00, 0x01, 0x09, 0xf0]);  // access unit delimiter
    }
    extend(&mut pes, data);
    assert(pes@ =~= spec_pes(codec_type, data@, pts, dts));
    pes
}

fn first_packet(pes: &[u8], pid: u16, cc: u8, key: bool, pcr: u64) -> (r: Vec<u8>)
    ensures
        r@ == spec_first_packet(pes@, pid, cc, key, pcr),
        r@.len() == 188,
{
    let mut ts_pkt: Vec<u8> = Vec::new();
    ts_pkt.push(0x47);  // sync byte
    let flags_pid = pid | 0x4000;  // payload unit start
    ts_pkt.push((flags_pid >> 8) as u8);
    ts_pkt.push((flags_pid & 0xff) as u8);
    if key {
        let payload_size: usize = TS_PACKET_SIZE - 12;
        let to_copy = if pes.len() < payload_size {
            pes.len()
        } else {
            payload_size
        };
        ts_pkt.push(0x30 | (cc & 0xf));  // adaptation field and payload
        ts_pkt.push((7 + (payload_size - to_copy)) as u8);  // adaptation field length
        ts_pkt.push(0x50);  // random access, PCR
        ts_pkt.push((pcr >> 25) as u8);
        ts_pkt.push(((pcr >> 17) & 0xff) as u8);
        ts_pkt.push(((pcr >> 9) & 0xff) as u8);
        ts_pkt.push(((pcr >> 1) & 0xff) as u8);
        ts_pkt.push((((pcr & 1) << 7) | 0x7e) as u8);
        ts_pkt.push(0);  // PCR extension
        extend(&mut ts_pkt, vstd::slice::slice_subrange(pes, 0, to_copy));
        extend_fill(&mut ts_pkt, 0xff, payload_size - to_copy);
    } else {
        let payload_size: usize = TS_PACKET_SIZE - 4;
        let to_copy = if pes.len() < payload_size {
            pes.len()
        } else {
            payload_size
        };
        ts_pkt.push(0x10 | (cc & 0xf));  // payload only
        extend(&mut ts_pkt, vstd::slice::slice_subrange(pes, 0, to_copy));
        extend_fill(&mut ts_pkt, 0, payload_size - to_copy);
    }
    assert(ts_pkt@ =~= spec_first_packet(pes@, pid, cc, key, pcr));
    ts_pkt
}

impl TsMuxer {
    /// A muxer with no streams.
    pub fn new() -> (r: Self)
        ensures
            r.streams@ == Map::<i8, TsStream>::empty(),
            r.pat_cc == 0,
            r.pmt_cc == 0,
    {
        Self { streams: HashMap::new(), pat_cc: 0, pmt_cc: 0 }
    }

    /// Registers stream `idx` on PID `0x101 + idx`.
    pub fn add_stream(&mut self, idx: i8, codec_type: CodecType)
        requires
            idx >= 0,
        ensures
            final(self).streams@ == old(self).streams@.insert(
                idx,
                TsStream {
                    codec_type,
                    pid: (0x101 + idx) as u16,
                    stream_type: stream_type_of(codec_type),
                    continuity_counter: 0,
                },
            ),
            final(self).pat_cc == old(self).pat_cc,
            final(self).pmt_cc == old(self).pmt_cc,
    {
        let pid = 0x100 + (idx as u16) + 1;
        let stream_type = match codec_type {
            CodecType::H264 => 0x1b,  // H.264 video
            CodecType::H265 => 0x24,  // H.265 video
            CodecType::AAC => 0x0f,  // AAC in ADTS
            _ => 0,
        };
        self.streams.insert(idx, TsStream { codec_type, pid, stream_type, continuity_counter: 0 });
    }

    /// The PAT and PMT packets that start a transport stream; the PMT lists
    /// the streams in the order the map hands them out.
    pub fn get_pat_pmt(&mut self) -> (r: Vec<u8>)
        requires
            old(self).pat_cc < 255,
            old(self).pmt_cc < 255,
            old(self).streams@.dom().len() <= 33,
        ensures
            exists|order: Seq<TsStream>|
                lists_streams(order, old(self).streams@) && r@ == spec_pat_packet(old(self).pat_cc)
                    + spec_pmt_packet(old(self).pmt_cc, order),
            r@.len() == 2 * 188,
            final(self).pat_cc == (old(self).pat_cc + 1) % 16,
            final(self).pmt_cc == (old(self).pmt_cc + 1) % 16,
            final(self).streams == old(self).streams,
    {
        let mut buf: Vec<u8> = Vec::new();
        // PAT
        extend(&mut buf, &[0x47, 0x40, 0x00]);  // sync byte, payload start, PID 0
        buf.push(0x10 | (self.pat_cc & 0xf));  // payload only, continuity counter
        self.pat_cc = (self.pat_cc + 1) % 16;
        buf.push(0);  // pointer field
        extend(
            &mut buf,
            &[
                0x00,  // table id
                0xb0, 0x0d,  // section syntax, length 13
                0x00, 0x01,  // transport stream id
                0xc1,  // version 0, current
                0x00, 0x00,  // section number, last section
                0x00, 0x01,  // program number 1
                0xe1, 0x00,  // PMT PID
                0x2a, 0xb1, 0x04, 0xb2,  // CRC32
            ],
        );
        extend_fill(&mut buf, 0xff, 167);
        assert(buf@ =~= spec_pat_packet(old(self).pat_cc));
        // PMT entries, one per stream
        let mut entries: Vec<u8> = Vec::new();
        let ghost m = self.streams@;
        let ghost mut order: Seq<TsStream> = Seq::empty();
        let ghost mut ks: Seq<i8> = Seq::empty();
        proof {
            vstd::std_specs::hash::axiom_spec_hash_map_iter(&self.streams);
        }
        for kv in it: self.streams.iter()
            invariant
                m == self.streams@,
                it.seq().len() == m.dom().len(),
                it.seq().no_duplicates(),
                forall|i: int|
                    0 <= i < it.seq().len() ==> m.contains_key(*(#[trigger] it.seq()[i]).0) && m[*it.seq()[i].0]
                        == *it.seq()[i].1,
                0 <= it.index() <= it.seq().len(),
                ks.len() == it.index(),
                forall|i: int| 0 <= i < it.index() ==> ks[i] == *(#[trigger] it.seq()[i]).0,
                ks.no_duplicates(),
                forall|i: int| 0 <= i < ks.len() ==> m.contains_key(#[trigger] ks[i]),
                order == ks.map_values(|k: i8| m[k]),
                entries@ == concat(order.map_values(|s: TsStream| pmt_entry(s))),
                m.dom().len() <= 33,
                entries@.len() == 5 * it.index(),
        {
            let stream = kv.1;
            proof {
                let idx = it.index();
                let sq = it.seq();
                assert(kv == sq[idx]);
                assert forall|j: int| 0 <= j < ks.len() implies ks[j] != *kv.0 by {
                    assert(ks[j] == *sq[j].0);
                    if ks[j] == *kv.0 {
                        assert(sq[j] == sq[idx]);
                    }
                }
                let o = ks.map_values(|k: i8| m[k]);
                let ks1 = ks.push(*kv.0);
                assert(ks1.map_values(|k: i8| m[k]) =~= o.push(*stream));
                assert(o.push(*stream).map_values(|s: TsStream| pmt_entry(s)) =~= o.map_values(
                    |s: TsStream| pmt_entry(s),
                ).push(pmt_entry(*stream)));
                lemma_concat_push(o.map_values(|s: TsStream| pmt_entry(s)), pmt_entry(*stream));
            }
            entries.push(stream.stream_type);
            entries.push(0xe0 | ((stream.pid >> 8) as u8));
            entries.push((stream.pid & 0xff) as u8);
            entries.push(0xf0);
            entries.push(0x00);
            proof {
                ks = ks.push(*kv.0);
                order = ks.map_values(|k: i8| m[k]);
            }
        }
        proof {
            assert(ks.len() == m.dom().len());
            assert(ks.to_set().subset_of(m.dom())) by {
                assert forall|x: i8| ks.to_set().contains(x) implies m.dom().contains(x) by {
                    let j = choose|j: int| 0 <= j < ks.len() && ks[j] == x;
                    assert(m.contains_key(ks[j]));
                }
            }
            ks.unique_seq_to_set();
            vstd::std_specs::hash::axiom_hashmap_view_finite_dom(self.streams);
            vstd::set_lib::lemma_subset_equality(ks.to_set(), m.dom());
            assert(lists_keys(ks, m));
        }
        // PMT
        let mut table: Vec<u8> = Vec::new();
        extend(&mut table, &[0x00, 0x01]);  // program number
        extend(&mut table, &[0xc1]);  // version 0, current
        extend(&mut table, &[0x00, 0x00]);  // section number, last section
        extend(&mut table, &[0xe1, 0x00]);  // PCR PID
        extend(&mut table, &[0xf0, 0x00]);  // program info length
        extend(&mut table, entries.as_slice());
        extend(&mut table, &[0x3f, 0xe4, 0x5a, 0x82]);  // CRC32
        let len = table.len() as u16;  // section length
        let mut section: Vec<u8> = Vec::new();
        section.push(0x02);  // table id
        section.push(0xb0 | ((len >> 8) as u8));
        section.push((len & 0xff) as u8);
        extend(&mut section, table.as_slice());
        assert(section@ =~= spec_pmt_table(order));
        let ghost before_pmt = buf@;
        extend(&mut buf, &[0x47, 0x41, 0x00]);  // sync byte, payload start, PID 0x100
        buf.push(0x10 | (self.pmt_cc & 0xf));
        self.pmt_cc = (self.pmt_cc + 1) % 16;
        buf.push(0);  // pointer field
        extend(&mut buf, section.as_slice());
        extend_fill(&mut buf, 0xff, TS_PACKET_SIZE - 5 - section.len());
        proof {
            assert(buf@ =~= spec_pat_packet(old(self).pat_cc) + spec_pmt_packet(
                old(self).pmt_cc,
                order,
            ));
            broadcast use lemma_take_all;

            assert(lists_streams(order, m));
        }
        buf
    }
}

impl TsMuxer {
    /// The limits a `write_packet` call stays within: the continuity counter
    /// it increments, a decode time not before 0 and the sizes it
    /// allocates.
    pub open spec fn write_fits(&self, pkt: Packet) -> bool {
        self.streams@.contains_key(pkt.idx) ==> {
            let s = self.streams@[pkt.idx];
            let pes = pes_of(s, pkt);
            &&& s.continuity_counter < 255
            &&& clock_90k(pkt.time) >= clock_90k(pkt.composition_time)
            &&& pkt.data_view().len() + 64 <= usize::MAX
            &&& 188 * packet_count(pes.len(), pkt.is_key_frame) <= usize::MAX
        }
    }

    /// What `write_packet(pkt)` does to a muxer in state `self`: `after` is
    /// the muxer afterwards, `r` the bytes returned.
    pub open spec fn writes_packet(&self, after: Self, pkt: Packet, r: Seq<u8>) -> bool {
        &&& !self.streams@.contains_key(pkt.idx) ==> r.len() == 0 && after.streams@
            == self.streams@
        &&& self.streams@.contains_key(pkt.idx) ==> {
            let s = self.streams@[pkt.idx];
            let pes = pes_of(s, pkt);
            let n = packet_count(pes.len(), pkt.is_key_frame);
            &&& r == spec_ts_packets(
                pes,
                s.pid,
                s.continuity_counter,
                pkt.is_key_frame,
                dts_of(pkt) as u64,
            )
            &&& r.len() == 188 * n
            &&& after.streams@ == self.streams@.insert(
                pkt.idx,
                TsStream { continuity_counter: ((s.continuity_counter + n) % 16) as u8, ..s },
            )
        }
        &&& after.pat_cc == self.pat_cc
        &&& after.pmt_cc == self.pmt_cc
    }

    /// Cuts a frame of a registered stream into transport packets: a PES
    /// packet with PTS and DTS on the 90 kHz clock, split 188-byte packet by
    /// packet, the last one stuffed through its adaptation field. A frame of
    /// an unknown stream gives no bytes.
    pub fn write_packet(&mut self, pkt: &Packet) -> (r: Vec<u8>)
        requires
            old(self).write_fits(*pkt),
        ensures
            old(self).writes_packet(*final(self), *pkt, r@),
    {
        let stream = match self.streams.get(&pkt.idx) {
            Some(s) => *s,
            None => return Vec::new(),
        };
        let data = bytes_as_slice(&pkt.data);
        // PTS and DTS on the 90 kHz clock.
        let pts = clock_90k_exec(pkt.time);
        let dts = pts - clock_90k_exec(pkt.composition_time);
        let pes = build_pes(stream.codec_type, data, pts, dts);
        let ghost total = spec_ts_packets(
            pes@,
            stream.pid,
            stream.continuity_counter,
            pkt.is_key_frame,
            dts,
        );
        // The first packet.
        let mut buf = first_packet(pes.as_slice(), stream.pid, stream.continuity_counter, pkt.is_key_frame, dts);
        let mut cc: u8 = (stream.continuity_counter + 1) % 16;
        let mut offset: usize = if pkt.is_key_frame {
            TS_PACKET_SIZE - 12
        } else {
            TS_PACKET_SIZE - 4
        };
        let ghost first = offset as int;
        let ghost mut k: nat = 1;
        if offset > pes.len() {
            offset = pes.len();
        }
        proof {
            if pes@.len() <= first {
                assert(spec_more_packets(pes@, first, stream.pid, cc) == Seq::<u8>::empty());
            }
        }
        // The following packets, 184 PES bytes each, then a stuffed last one.
        while offset < pes.len()
            invariant
                pes@.len() + 0 <= usize::MAX,
                offset <= pes@.len(),
                cc < 16,
                first == first_capacity(pkt.is_key_frame),
                offset < pes@.len() ==> offset >= first && (offset - first) % 184 == 0,
                total == buf@ + spec_more_packets(pes@, offset as int, stream.pid, cc),
                buf@.len() == 188 * k,
                k >= 1,
                offset < pes@.len() ==> k == 1 + (offset - first) / 184,
                offset == pes@.len() ==> k == packet_count(pes@.len(), pkt.is_key_frame),
                cc == (stream.continuity_counter + k) % 16,
                188 * packet_count(pes@.len(), pkt.is_key_frame) <= usize::MAX,
            decreases pes@.len() - offset,
        {
            let ghost old_buf = buf@;
            let ghost old_off = offset as int;
            let ghost old_cc = cc;
            let remaining = pes.len() - offset;
            buf.push(0x47);  // sync byte
            buf.push((stream.pid >> 8) as u8);
            buf.push((stream.pid & 0xff) as u8);
            if remaining >= 184 {
                buf.push(0x10 | (cc & 0xf));  // payload only
                extend(&mut buf, vstd::slice::slice_subrange(pes.as_slice(), offset, offset + 184));
                proof {
                    assert(buf@ =~= old_buf + seq![0x47u8, (stream.pid >> 8u16) as u8, (stream.pid & 0xff) as u8, 0x10u8 | (cc & 0xf)] + pes@.subrange(offset as int, offset + 184));
                    k = k + 1;
                }
                cc = (cc + 1) % 16;
                offset += 184;
            } else {
                // Stuffing in the adaptation field puts the payload at the end.
                buf.push(0x30 | (cc & 0xf));  // adaptation field and payload
                buf.push((183 - remaining) as u8);  // adaptation field length
                if remaining < 183 {
                    buf.push(0x00);  // no flags
                    extend_fill(&mut buf, 0xff, 182 - remaining);
                }
                extend(&mut buf, vstd::slice::slice_subrange(pes.as_slice(), offset, pes.len()));
                proof {
                    assert(pes@.subrange(offset as int, pes@.len() as int) =~= pes@.skip(offset as int));
                    assert(buf@ =~= old_buf + spec_last_packet(pes@.skip(offset as int), stream.pid, cc));
                    assert((pes@.len() - first + 183) / 184 == (offset - first) / 184 + 1);
                    k = k + 1;
                }
                cc = (cc + 1) % 16;
                offset = pes.len();
            }
            proof {
                assert(spec_more_packets(pes@, offset as int, stream.pid, cc) == Seq::<u8>::empty() || offset < pes@.len());
                assert(total =~= buf@ + spec_more_packets(pes@, offset as int, stream.pid, cc));
            }
        }
        self.streams.insert(pkt.idx, TsStream { continuity_counter: cc, ..stream });
        buf
    }
}

impl TsMuxer {
    /// Whether `write_packet(pkt)` may be called: the call stays within the
    /// limits of `write_fits`.
    pub fn can_write(&self, pkt: &Packet) -> (b: bool)
        ensures
            b == self.write_fits(*pkt),
    {
        let stream = match self.streams.get(&pkt.idx) {
            Some(s) => *s,
            None => return true,
        };
        let data = bytes_as_slice(&pkt.data);
        if stream.continuity_counter >= 255 {
            return false;
        }
        if clock_90k_exec(pkt.time) < clock_90k_exec(pkt.composition_time) {
            return false;
        }
        if data.len() > usize::MAX - 64 {
            return false;
        }
        let video = stream.codec_type == CodecType::H264 || stream.codec_type == CodecType::H265;
        let pes_len: u128 = data.len() as u128 + if video { 49 } else { 43 };
        let cap: u128 = if pkt.is_key_frame { 176 } else { 184 };
        let count: u128 = if pes_len <= cap { 1 } else { 1 + (pes_len - cap + 183) / 184 };
        assert(pes_of(stream, *pkt).len() == pes_len);
        188 * count <= usize::MAX as u128
    }

    /// `write_packet`, for every frame: where the call would break one of
    /// the limits of `write_fits`, fails with
    /// `"frame does not fit the muxer"` and changes nothing.
    pub fn write_packet_checked(&mut self, pkt: &Packet) -> (r: Result<Vec<u8>, &'static str>)
        ensures
            !old(self).write_fits(*pkt) ==> r is Err && r->Err_0 == "frame does not fit the muxer"
                && final(self).streams@ == old(self).streams@ && final(self).pat_cc
                == old(self).pat_cc && final(self).pmt_cc == old(self).pmt_cc,
            old(self).write_fits(*pkt) ==> r is Ok && old(self).writes_packet(
                *final(self),
                *pkt,
                r->Ok_0@,
            ),
    {
        if !self.can_write(pkt) {
            return Err("frame does not fit the muxer");
        }
        Ok(self.write_packet(pkt))
    }
}

// ---------------------------------------------------------------------------
// Laws
// ---------------------------------------------------------------------------
proof fn lemma_last_packet(rest: Seq<u8>, pid: u16, cc: u8)
    requires
        0 < rest.len() < 184,
    ensures
        spec_last_packet(rest, pid, cc).len() == 188,
        spec_last_packet(rest, pid, cc)[0] == 0x47,
{
}

proof fn lemma_more_packets_aligned(pes: Seq<u8>, off: int, pid: u16, cc: u8)
    requires
        0 <= off <= pes.len(),
    ensures
        spec_more_packets(pes, off, pid, cc).len() == 188 * ((pes.len() - off + 183) / 184),
        forall|k: int|
            0 <= k < (pes.len() - off + 183) / 184 ==> #[trigger] spec_more_packets(pes, off, pid, cc)[188
                * k] == 0x47,
    decreases pes.len() - off,
{
    if off + 184 <= pes.len() {
        let next = ((cc + 1) % 16) as u8;
        lemma_more_packets_aligned(pes, off + 184, pid, next);
        let head = seq![0x47u8, (pid >> 8u16) as u8, (pid & 0xff) as u8, 0x10u8 | (cc & 0xf)]
            + pes.subrange(off, off + 184);
        let rest = spec_more_packets(pes, off + 184, pid, next);
        assert(head.len() == 188);
        assert((pes.len() - off + 183) / 184 == (pes.len() - (off + 184) + 183) / 184 + 1);
        assert forall|k: int| 0 <= k < (pes.len() - off + 183) / 184 implies #[trigger] spec_more_packets(
            pes,
            off,
            pid,
            cc,
        )[188 * k] == 0x47 by {
            if k > 0 {
                assert(spec_more_packets(pes, off, pid, cc)[188 * k] == rest[188 * (k - 1)]);
            }
        }
    } else if off < pes.len() {
        lemma_last_packet(pes.skip(off), pid, cc);
        assert((pes.len() - off + 183) / 184 == 1);
    } else {
        assert(pes.len() == off);
    }
}

/// The transport packets of a PES packet: there are `packet_count` of
/// them, each 188 bytes long and each starting with the sync byte `0x47`.
pub proof fn law_ts_packets_aligned(pes: Seq<u8>, pid: u16, cc: u8, key: bool, pcr: u64)
    ensures
        ({
            let out = spec_ts_packets(pes, pid, cc, key, pcr);
            let n = packet_count(pes.len(), key);
            &&& out.len() == 188 * n
            &&& forall|k: int| 0 <= k < n ==> #[trigger] out[188 * k] == 0x47
        }),
{
    let first = spec_first_packet(pes, pid, cc, key, pcr);
    let cap = first_capacity(key) as int;
    let next = ((cc + 1) % 16) as u8;
    assert(first.len() == 188);
    let out = spec_ts_packets(pes, pid, cc, key, pcr);
    let n = packet_count(pes.len(), key);
    if pes.len() <= cap {
        assert(spec_more_packets(pes, cap, pid, next) == Seq::<u8>::empty());
    } else {
        lemma_more_packets_aligned(pes, cap, pid, next);
        let rest = spec_more_packets(pes, cap, pid, next);
        assert forall|k: int| 0 <= k < n implies #[trigger] out[188 * k] == 0x47 by {
            if k > 0 {
                assert(out[188 * k] == rest[188 * (k - 1)]);
            }
        }
    }
}

/// The payload of a 188-byte transport packet: what follows the 4-byte
/// header and, when the adaptation field flag is set, the adaptation field.
pub open spec fn ts_payload(pkt: Seq<u8>) -> Seq<u8> {
    let start = if pkt[3] & 0x20 != 0 {
        5 + pkt[4]
    } else {
        4
    };
    pkt.subrange(start, 188)
}

/// The payloads of consecutive 188-byte transport packets, joined.
pub open spec fn ts_payloads(out: Seq<u8>) -> Seq<u8>
    decreases out.len(),
{
    if out.len() < 188 {
        seq![]
    } else {
        ts_payload(out.take(188)) + ts_payloads(out.skip(188))
    }
}

proof fn lemma_header_flag_bits(cc: u8)
    ensures
        (0x10u8 | (cc & 0xf)) & 0x20 == 0,
        (0x30u8 | (cc & 0xf)) & 0x20 != 0,
{
    assert((0x10u8 | (cc & 0xf)) & 0x20 == 0 && (0x30u8 | (cc & 0xf)) & 0x20 != 0) by (bit_vector);
}

proof fn lemma_payloads_concat(a: Seq<u8>, b: Seq<u8>)
    requires
        a.len() == 188,
    ensures
        ts_payloads(a + b) == ts_payload(a) + ts_payloads(b),
{
    assert((a + b).take(188) =~= a);
    assert((a + b).skip(188) =~= b);
}

proof fn lemma_more_packets_payloads(pes: Seq<u8>, off: int, pid: u16, cc: u8)
    requires
        0 <= off <= pes.len(),
    ensures
        ts_payloads(spec_more_packets(pes, off, pid, cc)) == pes.skip(off),
    decreases pes.len() - off,
{
    lemma_header_flag_bits(cc);
    if off == pes.len() {
        assert(pes.skip(off) =~= Seq::<u8>::empty());
    } else if off + 184 <= pes.len() {
        let next = ((cc + 1) % 16) as u8;
        let head = seq![0x47u8, (pid >> 8u16) as u8, (pid & 0xff) as u8, 0x10u8 | (cc & 0xf)]
            + pes.subrange(off, off + 184);
        lemma_more_packets_payloads(pes, off + 184, pid, next);
        lemma_payloads_concat(head, spec_more_packets(pes, off + 184, pid, next));
        assert(ts_payload(head) =~= pes.subrange(off, off + 184));
        assert(pes.skip(off) =~= pes.subrange(off, off + 184) + pes.skip(off + 184));
    } else {
        let rest = pes.skip(off);
        let last = spec_last_packet(rest, pid, cc);
        lemma_last_packet(rest, pid, cc);
        lemma_payloads_concat(last, seq![]);
        assert(last + seq![] =~= last);
        assert(last[4] == 183 - rest.len());
        assert(ts_payload(last) =~= rest);
        assert(ts_payload(last) + Seq::<u8>::empty() =~= rest);
    }
}

/// A PES packet that fills at least the first transport packet comes back
/// from the transport packets it is cut into: joining their payloads
/// (after the header and any adaptation field) gives the PES bytes.
pub proof fn law_ts_payloads_reassemble(pes: Seq<u8>, pid: u16, cc: u8, key: bool, pcr: u64)
    requires
        pes.len() >= first_capacity(key),
    ensures
        ts_payloads(spec_ts_packets(pes, pid, cc, key, pcr)) == pes,
{
    let cap = first_capacity(key) as int;
    let next = ((cc + 1) % 16) as u8;
    let first = spec_first_packet(pes, pid, cc, key, pcr);
    lemma_header_flag_bits(cc);
    assert(first.len() == 188);
    lemma_more_packets_payloads(pes, cap, pid, next);
    lemma_payloads_concat(first, spec_more_packets(pes, cap, pid, next));
    if key {
        assert(first[4] == 7);
    }
    assert(ts_payload(first) =~= pes.take(cap));
    assert(pes =~= pes.take(cap) + pes.skip(cap));
}


proof fn lemma_stamp_fields(prefix: u64, t: u64)
    requires
        prefix == 0x31 || prefix == 0x11,
    ensures
        stamp_bytes(prefix, t) == seq![(((t / 0x2000_0000) % 8) * 2 + prefix) as u8] + be64(
            (((t / 0x4000) % 0x8000) * 2 + 1) as u64,
        ) + be64(((t % 0x8000) * 2 + 1) as u64),
{
    assert((((t >> 29u64) & 0x07) << 1u64 | prefix) as u8 == (((t / 0x2000_0000) % 8) * 2
        + prefix) as u8 && ((t >> 14u64) & 0x7fff) << 1u64 | 1 == (((t / 0x4000) % 0x8000) * 2
        + 1) as u64 && ((t & 0x7fff) << 1u64) | 1 == ((t % 0x8000) * 2 + 1) as u64) by (bit_vector)
        requires
            prefix == 0x31 || prefix == 0x11,
    ;
}

proof fn lemma_pcr_fields(t: u64)
    ensures
        pcr_bytes(t) == seq![
            ((t / 0x200_0000) % 256) as u8,
            ((t / 0x2_0000) % 256) as u8,
            ((t / 0x200) % 256) as u8,
            ((t / 2) % 256) as u8,
            ((t % 2) * 128 + 0x7e) as u8,
            0u8,
        ],
{
    assert((t >> 25u64) as u8 == ((t / 0x200_0000) % 256) as u8 && ((t >> 17u64) & 0xff) as u8
        == ((t / 0x2_0000) % 256) as u8 && ((t >> 9u64) & 0xff) as u8 == ((t / 0x200) % 256) as u8
        && ((t >> 1u64) & 0xff) as u8 == ((t / 2) % 256) as u8 && (((t & 1) << 7u64) | 0x7e) as u8
        == ((t % 2) * 128 + 0x7e) as u8) by (bit_vector);
    assert(pcr_bytes(t) =~= seq![
        ((t / 0x200_0000) % 256) as u8,
        ((t / 0x2_0000) % 256) as u8,
        ((t / 0x200) % 256) as u8,
        ((t / 2) % 256) as u8,
        ((t % 2) * 128 + 0x7e) as u8,
        0u8,
    ]);
}

/// The time stamps that `write_packet` writes for a frame: in the PES
/// header of the first transport packet (behind its 4-byte header, and the
/// 8-byte adaptation field of a key frame), the PTS field holds the frame's
/// time on the 90 kHz clock and the DTS field that time less the
/// composition offset on the same clock, each as a marker byte with bits
/// 31..29, then bits 28..14 and 14..0 each shifted left with a marker bit,
/// as 64-bit words; and a key frame's program clock reference carries the
/// DTS.
#[verifier::spinoff_prover]
#[verifier::rlimit(50)]
pub proof fn law_ts_time_stamps(m: TsMuxer, after: TsMuxer, pkt: Packet, r: Seq<u8>)
    requires
        m.writes_packet(after, pkt, r),
        m.streams@.contains_key(pkt.idx),
        clock_90k(pkt.time) >= clock_90k(pkt.composition_time),
    ensures
        ({
            let pts = clock_90k(pkt.time);
            let dts = clock_90k(pkt.time) - clock_90k(pkt.composition_time);
            let h: int = if pkt.is_key_frame {
                12
            } else {
                4
            };
            &&& r[h + 9] == (((pts / 0x2000_0000) % 8) * 2 + 0x31) as u8
            &&& r.subrange(h + 10, h + 18) == be64((((pts / 0x4000) % 0x8000) * 2 + 1) as u64)
            &&& r.subrange(h + 18, h + 26) == be64(((pts % 0x8000) * 2 + 1) as u64)
            &&& r[h + 26] == (((dts / 0x2000_0000) % 8) * 2 + 0x11) as u8
            &&& r.subrange(h + 27, h + 35) == be64((((dts / 0x4000) % 0x8000) * 2 + 1) as u64)
            &&& r.subrange(h + 35, h + 43) == be64(((dts % 0x8000) * 2 + 1) as u64)
            &&& pkt.is_key_frame ==> {
                &&& r[6] == ((dts / 0x200_0000) % 256) as u8
                &&& r[7] == ((dts / 0x2_0000) % 256) as u8
                &&& r[8] == ((dts / 0x200) % 256) as u8
                &&& r[9] == ((dts / 2) % 256) as u8
                &&& r[10] == ((dts % 2) * 128 + 0x7e) as u8
            }
        }),
{
    let s = m.streams@[pkt.idx];
    let pts = clock_90k(pkt.time);
    let dts = clock_90k(pkt.time) - clock_90k(pkt.composition_time);
    assert(pts <= u64::MAX);
    let pes = pes_of(s, pkt);
    let key = pkt.is_key_frame;
    let h: int = if key {
        12
    } else {
        4
    };
    lemma_stamp_fields(0x31, pts as u64);
    lemma_stamp_fields(0x11, dts as u64);
    lemma_pcr_fields(dts as u64);
    let st1 = stamp_bytes(0x31, pts as u64);
    let st2 = stamp_bytes(0x11, dts as u64);
    assert(pes.subrange(9, 26) =~= st1);
    assert(pes.subrange(26, 43) =~= st2);
    let first = spec_first_packet(pes, s.pid, s.continuity_counter, key, dts as u64);
    let cap = first_capacity(key) as int;
    assert(pes.len() >= 43);
    assert(first.len() == 188);
    assert(r.take(188) =~= first);
    assert forall|j: int| 0 <= j < 43 implies #[trigger] r[h + j] == pes[j] by {
        assert(r[h + j] == first[h + j]);
    }
    assert(r.subrange(h + 10, h + 18) =~= st1.subrange(1, 9));
    assert(r.subrange(h + 18, h + 26) =~= st1.subrange(9, 17));
    assert(r.subrange(h + 27, h + 35) =~= st2.subrange(1, 9));
    assert(r.subrange(h + 35, h + 43) =~= st2.subrange(9, 17));
    if key {
        assert(r.subrange(6, 12) =~= pcr_bytes(dts as u64));
    }
}

/// The PAT and PMT that start a stream of up to 33 elementary streams are
/// two 188-byte packets, each starting with the sync byte.
pub proof fn law_tables_aligned(pat_cc: u8, pmt_cc: u8, order: Seq<TsStream>)
    requires
        order.len() <= 33,
    ensures
        ({
            let out = spec_pat_packet(pat_cc) + spec_pmt_packet(pmt_cc, order);
            &&& out.len() == 376
            &&& out[0] == 0x47
            &&& out[188] == 0x47
        }),
{
    lemma_pmt_entries_len(order);
}

proof fn lemma_pmt_entries_len(order: Seq<TsStream>)
    ensures
        concat(order.map_values(|s: TsStream| pmt_entry(s))).len() == 5 * order.len(),
    decreases order.len(),
{
    if order.len() > 0 {
        let init = order.drop_last();
        lemma_pmt_entries_len(init);
        assert(order.map_values(|s: TsStream| pmt_entry(s)).drop_last() =~= init.map_values(
            |s: TsStream| pmt_entry(s),
        ));
    } else {
        assert(order.map_values(|s: TsStream| pmt_entry(s)) =~= Seq::<Seq<u8>>::empty());
    }
}

} // verus!

use bytes::Bytes;
use vstd::prelude::*;

verus! {

/// The codecs that the demuxer and the muxers know.
#[derive(Debug, Clone, Copy, PartialEq, Eq, Structural)]
pub enum CodecType {
    H264,
    H265,
    AAC,
    Opus,
    PcmMulaw,
    PcmAlaw,
}

/// Codec parameters that can tell which codec they belong to.
pub trait CodecData {
    fn codec_type(&self) -> CodecType;
}

#[verifier::external_type_specification]
#[verifier::external_body]
pub struct ExBytes(Bytes);

/// The bytes that a `Bytes` buffer holds.
pub uninterp spec fn bytes_view(b: Bytes) -> Seq<u8>;

/// `Bytes::from(Vec<u8>)`: the buffer takes over the vector and holds its
/// bytes.
#[verifier::external_body]
pub(crate) fn bytes_from_vec(v: Vec<u8>) -> (b: Bytes)
    ensures
        bytes_view(b) == v@,
{
    Bytes::from(v)
}

/// `Bytes::copy_from_slice`: a buffer holding a copy of `s`.
#[verifier::external_body]
pub(crate) fn bytes_copy_from_slice(s: &[u8]) -> (b: Bytes)
    ensures
        bytes_view(b) == s@,
{
    Bytes::copy_from_slice(s)
}

/// `<Bytes as AsRef<[u8]>>::as_ref`: the bytes of the buffer as a slice.
#[verifier::external_body]
pub(crate) fn bytes_as_slice(b: &Bytes) -> (s: &[u8])
    ensures
        s@ == bytes_view(*b),
{
    b.as_ref()
}

/// `<Bytes as Clone>::clone`: a second handle on the same bytes.
pub assume_specification[ <Bytes as Clone>::clone ](b: &Bytes) -> (r: Bytes)
    ensures
        bytes_view(r) == bytes_view(*b),
;

/// One coded frame of a stream. Times are in nanoseconds.
#[derive(Debug, Clone)]
pub struct Packet {
    /// The stream the frame belongs to.
    pub idx: i8,
    pub is_key_frame: bool,
    /// Presentation time, in nanoseconds.
    pub time: u64,
    /// Offset of the presentation time from the decode time, in nanoseconds.
    pub composition_time: u64,
    /// Duration, in nanoseconds.
    pub duration: u64,
    pub data: Bytes,
}

impl Packet {
    /// The bytes of the frame.
    pub open spec fn data_view(&self) -> Seq<u8> {
        bytes_view(self.data)
    }

    /// A packet holding the bytes of `data`.
    pub fn new(
        idx: i8,
        is_key_frame: bool,
        time: u64,
        composition_time: u64,
        duration: u64,
        data: Vec<u8>,
    ) -> (p: Packet)
        ensures
            p.idx == idx,
            p.is_key_frame == is_key_frame,
            p.time == time,
            p.composition_time == composition_time,
            p.duration == duration,
            p.data_view() == data@,
    {
        Packet { idx, is_key_frame, time, composition_time, duration, data: bytes_from_vec(data) }
    }
}

} // verus!

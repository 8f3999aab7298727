//! Memory-to-memory video toolkit: bitstream readers for H.264, H.265 and
//! AAC parameters, an RTP-over-RTSP demuxer, and fragmented-MP4 and
//! MPEG-TS muxers.
pub mod av;
pub mod codec;
pub mod format;
pub mod utils;

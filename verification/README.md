# zenovdk

A memory-to-memory video toolkit written in Verus: every function of the
library carries a `requires` / `ensures` contract that Verus proves.

- `utils::bits` — an MSB-first bit reader with Exp-Golomb codes, specified
  over the bit string of its input.
- `utils::buf` — byte-vector helpers (big-endian integers, fills).
- `codec::h264`, `codec::h265` — emulation-prevention removal, NAL unit
  splitting (AVCC / Annex B), SPS parsing and slice-type detection.
- `codec::aac` — ADTS headers and AudioSpecificConfig.
- `format::rtsp` — an interleaved RTP demuxer that reassembles H.264 FU-A and
  H.265 FU units and splits AAC / PCM payloads into packets; its behaviour is
  given by a model (`spec_feed`) of what each fed chunk does.
- `format::mp4f` — a fragmented MP4 muxer (`ftyp` + `moov` init segment,
  `moof` + `mdat` fragments).
- `format::ts` — an MPEG-TS muxer (PAT, PMT and PES packets, 188 bytes each).

Times are integers: packet times and durations are in nanoseconds, and every
conversion to a media clock (90 kHz, a track's time scale, milliseconds) is
exact integer arithmetic, rounded down.

Where a function cannot complete on an input (an Exp-Golomb code too long
for `u32`, a demuxer fault, a frame past a muxer's limits), it excludes that
input in its `requires`; a `_checked` variant (with `can_write` and
`feed_faults` to test beforehand) takes every input and reports the case.

The `law_*` proof functions state properties that span calls, such as the
independence of the demuxer's output from how the byte stream is chunked, or
the 188-byte alignment of every MPEG-TS output.

Packet payloads are `bytes::Bytes`; the few calls into that crate are the
library's only trusted items (see `src/av/mod.rs`).

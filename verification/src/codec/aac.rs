use crate::utils::bits::{failed_pos, spec_read_bits, GolombBitReader};
use vstd::prelude::*;

verus! {

broadcast use crate::utils::bits::group_reads;

/// An MPEG-4 audio specific configuration.
#[derive(Debug, Default, Clone, Copy)]
pub struct MPEG4AudioConfig {
    pub sample_rate: u32,
    pub object_type: u32,
    pub sample_rate_index: u32,
    pub channel_config: u32,
}

/// The sampling frequency of a sampling frequency index, for the 13
/// indices that have one.
pub open spec fn sample_rate_of(index: u32) -> Option<u32> {
    if index == 0 {
        Some(96000)
    } else if index == 1 {
        Some(88200)
    } else if index == 2 {
        Some(64000)
    } else if index == 3 {
        Some(48000)
    } else if index == 4 {
        Some(44100)
    } else if index == 5 {
        Some(32000)
    } else if index == 6 {
        Some(24000)
    } else if index == 7 {
        Some(22050)
    } else if index == 8 {
        Some(16000)
    } else if index == 9 {
        Some(12000)
    } else if index == 10 {
        Some(11025)
    } else if index == 11 {
        Some(8000)
    } else if index == 12 {
        Some(7350)
    } else {
        None
    }
}

/// A configuration with its sample rate filled in from its index, when
/// the index has one.
pub open spec fn spec_complete(c: MPEG4AudioConfig) -> MPEG4AudioConfig {
    match sample_rate_of(c.sample_rate_index) {
        Some(r) => MPEG4AudioConfig { sample_rate: r, ..c },
        None => c,
    }
}

impl MPEG4AudioConfig {
    /// Fills in the sample rate from the sampling frequency index.
    pub fn complete(&mut self)
        ensures
            *final(self) == spec_complete(*old(self)),
    {
        let table: [u32; 13] = [
            96000, 88200, 64000, 48000, 44100, 32000, 24000, 22050, 16000, 12000, 11025, 8000, 7350,
        ];
        if (self.sample_rate_index as usize) < table.len() {
            self.sample_rate = table[self.sample_rate_index as usize];
        }
    }
}

/// Filling in the sample rate is idempotent and leaves the object type, the
/// index and the channel configuration as they were.
pub proof fn law_complete_idempotent(c: MPEG4AudioConfig)
    ensures
        spec_complete(spec_complete(c)) == spec_complete(c),
        spec_complete(c).object_type == c.object_type,
        spec_complete(c).sample_rate_index == c.sample_rate_index,
        spec_complete(c).channel_config == c.channel_config,
{
}

fn zero_config() -> (c: MPEG4AudioConfig)
    ensures
        c == (MPEG4AudioConfig { sample_rate: 0, object_type: 0, sample_rate_index: 0, channel_config: 0 }),
{
    MPEG4AudioConfig { sample_rate: 0, object_type: 0, sample_rate_index: 0, channel_config: 0 }
}

/// The 13-bit frame length of an ADTS header: the low 2 bits of byte 3,
/// byte 4, and the high 3 bits of byte 5.
pub open spec fn adts_frame_length(f: Seq<u8>) -> int {
    (f[3] & 3) * 2048 + f[4] * 8 + f[5] / 32
}

/// Parsing an ADTS header: the audio configuration, the header length (7,
/// or 9 when a CRC follows), the frame length and the number of samples.
pub open spec fn spec_parse_adts_header(f: Seq<u8>) -> Result<
    (MPEG4AudioConfig, usize, usize, usize),
    &'static str,
> {
    if f.len() < 7 {
        Err("adts frame too short")
    } else if f[0] != 0xff || (f[1] & 0xf6) != 0xf0 {
        Err("not adts header")
    } else {
        let channel = (((f[2] << 2u8) & 0x4) | ((f[3] >> 6u8) & 0x3)) as u32;
        if channel == 0 {
            Err("adts channel count invalid")
        } else {
            let config = spec_complete(
                MPEG4AudioConfig {
                    sample_rate: 0,
                    object_type: ((f[2] >> 6u8) + 1) as u32,
                    sample_rate_index: ((f[2] >> 2u8) & 0xf) as u32,
                    channel_config: channel,
                },
            );
            let framelen = adts_frame_length(f);
            let samples = ((f[6] & 0x3) + 1) * 1024;
            let hdrlen = if (f[1] & 0x1) == 0 {
                9int
            } else {
                7
            };
            if framelen < hdrlen {
                Err("adts framelen < hdrlen")
            } else {
                Ok((config, hdrlen as usize, framelen as usize, samples as usize))
            }
        }
    }
}

proof fn lemma_frame_length_bits(a: u8, b: u8, c: u8)
    ensures
        (((a & 0x3) as usize) << 11usize) | ((b as usize) << 3usize) | ((c >> 5u8) as usize) == (a
            & 3) * 2048 + b * 8 + c / 32,
{
    assert((((a & 0x3) as usize) << 11usize) | ((b as usize) << 3usize) | ((c >> 5u8) as usize)
        == (a & 3) * 2048 + b * 8 + c / 32) by (bit_vector);
}

/// Parses the 7-byte header of an ADTS frame: the audio configuration, the
/// header length, the frame length and the number of samples.
pub fn parse_adts_header(frame: &[u8]) -> (r: Result<(MPEG4AudioConfig, usize, usize, usize), &'static str>)
    ensures
        r == spec_parse_adts_header(frame@),
{
    if frame.len() < 7 {
        return Err("adts frame too short");
    }
    if frame[0] != 0xff || (frame[1] & 0xf6) != 0xf0 {
        return Err("not adts header");
    }
    let mut config = zero_config();
    config.object_type = ((frame[2] >> 6) as u32) + 1;
    config.sample_rate_index = ((frame[2] >> 2) & 0xf) as u32;
    config.channel_config = (((frame[2] << 2) & 0x4) | ((frame[3] >> 6) & 0x3)) as u32;
    if config.channel_config == 0 {
        return Err("adts channel count invalid");
    }
    config.complete();
    proof {
        lemma_frame_length_bits(frame@[3], frame@[4], frame@[5]);
    }
    let framelen = (((frame[3] & 0x3) as usize) << 11) | ((frame[4] as usize) << 3) | ((frame[5]
        >> 5) as usize);
    let samples = (((frame[6] & 0x3) as usize) + 1) * 1024;
    let mut hdrlen: usize = 7;
    if (frame[1] & 0x1) == 0 {
        hdrlen = 9;
    }
    if framelen < hdrlen {
        return Err("adts framelen < hdrlen");
    }
    Ok((config, hdrlen, framelen, samples))
}

/// Parsing an AudioSpecificConfig: the object type (5 bits, or 32 plus 6
/// more bits after the escape value 31), the sampling frequency index (4
/// bits, or 24 more bits after the escape value 15) and the channel
/// configuration (4 bits); the final position is `failed_pos()` when the
/// data ends early.
pub open spec fn spec_audio_config(d: Seq<u8>) -> (MPEG4AudioConfig, int) {
    let (ot, p) = spec_read_bits(d, 0, 5);
    let (ot, p) = if ot == 31 {
        let (i, p) = spec_read_bits(d, p, 6);
        ((32 + i) as u32, p)
    } else {
        (ot, p)
    };
    let (idx, p) = spec_read_bits(d, p, 4);
    let (idx, p) = if idx == 0xf {
        spec_read_bits(d, p, 24)
    } else {
        (idx, p)
    };
    let (ch, p) = spec_read_bits(d, p, 4);
    (
        spec_complete(
            MPEG4AudioConfig {
                sample_rate: 0,
                object_type: ot,
                sample_rate_index: idx,
                channel_config: ch,
            },
        ),
        p,
    )
}

/// Parses an MPEG-4 AudioSpecificConfig.
pub fn parse_mpeg4_audio_config_bytes(data: &[u8]) -> (r: Result<MPEG4AudioConfig, &'static str>)
    ensures
        ({
            let (c, p) = spec_audio_config(data@);
            match r {
                Ok(v) => p != failed_pos() && v == c,
                Err(e) => p == failed_pos() && e == "EOF",
            }
        }),
{
    let mut br = GolombBitReader::new(data);
    let mut config = zero_config();
    let mut object_type = br.read_bits(5)?;
    if object_type == 31 {
        let i = br.read_bits(6)?;
        proof {
            vstd::arithmetic::power2::lemma2_to64();
            crate::utils::bits::lemma_bits_value_bound(data@, 5, 6);
        }
        object_type = 32 + i;
    }
    config.object_type = object_type;
    let mut index = br.read_bits(4)?;
    if index == 0xf {
        index = br.read_bits(24)?;
    }
    config.sample_rate_index = index;
    config.channel_config = br.read_bits(4)?;
    config.complete();
    Ok(config)
}

} // verus!

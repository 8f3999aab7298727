use crate::utils::bits::{
    failed_pos, spec_read_bits, spec_read_se, spec_read_ue, ue_overflows, GolombBitReader,
};
use crate::utils::buf::be32;
use vstd::prelude::*;

verus! {

broadcast use crate::utils::bits::group_reads;

pub const NALU_SEI: u8 = 6;

pub const NALU_SPS: u8 = 7;

pub const NALU_PPS: u8 = 8;

pub const NALU_AUD: u8 = 9;

/// How the NAL units of a buffer were framed.
#[derive(Debug, Clone, Copy, PartialEq, Eq, Structural)]
pub enum NaluType {
    /// One unit, not framed.
    Raw,
    /// Each unit behind its 4-byte big-endian length.
    Avcc,
    /// Units separated by `00 00 01` or `00 00 00 01` start codes.
    AnnexB,
}

// ---------------------------------------------------------------------------
// Emulation prevention
// ---------------------------------------------------------------------------
/// The payload of a NAL unit with its emulation prevention bytes removed:
/// scanning from the left, each `00 00 03` becomes `00 00`.
pub open spec fn spec_remove_emulation(b: Seq<u8>) -> Seq<u8>
    decreases b.len(),
{
    if b.len() == 0 {
        Seq::empty()
    } else if b.len() >= 3 && b[0] == 0 && b[1] == 0 && b[2] == 3 {
        seq![0u8, 0u8] + spec_remove_emulation(b.skip(3))
    } else {
        seq![b[0]] + spec_remove_emulation(b.skip(1))
    }
}

/// Removes the emulation prevention bytes of an H.264 or H.265 NAL unit.
pub fn remove_h264_or_h265_emulation_bytes(b: &[u8]) -> (r: Vec<u8>)
    ensures
        r@ == spec_remove_emulation(b@),
{
    let mut r = Vec::with_capacity(b.len());
    let mut i: usize = 0;
    assert(b@.skip(0) =~= b@);
    while i < b.len()
        invariant
            i <= b.len(),
            spec_remove_emulation(b@) == r@ + spec_remove_emulation(b@.skip(i as int)),
        decreases b.len() - i,
    {
        let ghost s = b@.skip(i as int);
        let ghost r0 = r@;
        if b.len() - i > 2 && b[i] == 0 && b[i + 1] == 0 && b[i + 2] == 3 {
            r.push(0);
            r.push(0);
            i += 3;
            proof {
                assert(s.skip(3) =~= b@.skip(i as int));
                assert(r@ =~= r0 + seq![0u8, 0u8]);
            }
        } else {
            r.push(b[i]);
            i += 1;
            proof {
                assert(s.skip(1) =~= b@.skip(i as int));
                assert(r@ =~= r0 + seq![s[0]]);
            }
        }
    }
    proof {
        assert(b@.skip(i as int) =~= Seq::<u8>::empty());
        assert(r@ + Seq::<u8>::empty() =~= r@);
    }
    r
}

// ---------------------------------------------------------------------------
// Sequence parameter set
// ---------------------------------------------------------------------------
/// The fields of an H.264 sequence parameter set that the muxers use.
#[derive(Debug, Default, Clone)]
pub struct SPSInfo {
    pub id: u32,
    pub profile_idc: u32,
    pub level_idc: u32,
    pub constraint_set_flag: u32,
    pub mb_width: u32,
    pub mb_height: u32,
    pub crop_left: u32,
    pub crop_right: u32,
    pub crop_top: u32,
    pub crop_bottom: u32,
    pub width: u32,
    pub height: u32,
    pub fps: u32,
}

/// An `SPSInfo` with every field zero.
pub open spec fn sps_zero() -> SPSInfo {
    SPSInfo {
        id: 0,
        profile_idc: 0,
        level_idc: 0,
        constraint_set_flag: 0,
        mb_width: 0,
        mb_height: 0,
        crop_left: 0,
        crop_right: 0,
        crop_top: 0,
        crop_bottom: 0,
        width: 0,
        height: 0,
        fps: 0,
    }
}

fn new_sps() -> (s: SPSInfo)
    ensures
        s == sps_zero(),
{
    SPSInfo {
        id: 0,
        profile_idc: 0,
        level_idc: 0,
        constraint_set_flag: 0,
        mb_width: 0,
        mb_height: 0,
        crop_left: 0,
        crop_right: 0,
        crop_top: 0,
        crop_bottom: 0,
        width: 0,
        height: 0,
        fps: 0,
    }
}

/// The profiles whose SPS carries chroma format and scaling matrix fields.
pub open spec fn is_high_profile(profile_idc: u32) -> bool {
    profile_idc == 100 || profile_idc == 110 || profile_idc == 122 || profile_idc == 244
        || profile_idc == 44 || profile_idc == 83 || profile_idc == 86 || profile_idc == 118
}

/// The remainder of `a / b` rounded toward zero, as Rust's `%` on signed
/// integers computes it.
pub open spec fn trunc_rem(a: int, b: int) -> int {
    if a >= 0 {
        a % b
    } else {
        -((-a) % b)
    }
}

/// The start of an SPS: the NAL header byte, `profile_idc`, the constraint
/// flags (shifted right by 2), `level_idc` and `seq_parameter_set_id`.
/// Returns the fields, the position after them and whether the
/// `seq_parameter_set_id` code overflows.
pub open spec fn sps_head(d: Seq<u8>) -> (SPSInfo, int, bool) {
    let p = spec_read_bits(d, 0, 8).1;
    let (profile, p) = spec_read_bits(d, p, 8);
    let (flags, p) = spec_read_bits(d, p, 8);
    let (level, p) = spec_read_bits(d, p, 8);
    let ovf = ue_overflows(d, p);
    let (id, p) = spec_read_ue(d, p);
    (
        SPSInfo {
            id: id,
            profile_idc: profile,
            level_idc: level,
            constraint_set_flag: flags >> 2u32,
            ..sps_zero()
        },
        p,
        ovf,
    )
}

/// One scaling list of `n` remaining entries, from the running `last` and
/// `next` scales: the position after it, and whether the `i32`
/// arithmetic on the scales or a delta code overflows.
pub open spec fn scaling_list(d: Seq<u8>, p: int, n: nat, last: int, next: int) -> (int, bool)
    decreases n,
{
    if p < 0 || n == 0 {
        (p, false)
    } else if next != 0 {
        let ovf = ue_overflows(d, p);
        let (delta, q) = spec_read_se(d, p);
        if q < 0 {
            (q, ovf)
        } else {
            let s1 = last + delta;
            let s2 = s1 + 256;
            if !(i32::MIN <= s1 <= i32::MAX) || !(i32::MIN <= s2 <= i32::MAX) {
                (q, true)
            } else {
                let nx = trunc_rem(s2, 256);
                let (r, o) = scaling_list(
                    d,
                    q,
                    (n - 1) as nat,
                    if nx != 0 {
                        nx
                    } else {
                        last
                    },
                    nx,
                );
                (r, ovf || o)
            }
        }
    } else {
        scaling_list(d, p, (n - 1) as nat, last, next)
    }
}

/// The scaling matrix from list `i` on: for each of the 8 lists a presence
/// bit, then the list when present (16 entries for the first 6, 64 after).
pub open spec fn scaling_matrix(d: Seq<u8>, p: int, i: nat) -> (int, bool)
    decreases 8 - i,
{
    if p < 0 || i >= 8 {
        (p, false)
    } else {
        let (f, q) = spec_read_bits(d, p, 1);
        let (q2, o1) = if f != 0 {
            scaling_list(
                d,
                q,
                if i < 6 {
                    16
                } else {
                    64
                },
                8,
                8,
            )
        } else {
            (q, false)
        };
        let (q3, o2) = scaling_matrix(d, q2, i + 1);
        (q3, o1 || o2)
    }
}

/// The chroma format, bit depth and scaling fields that high profiles carry.
pub open spec fn sps_chroma(d: Seq<u8>, p: int, profile_idc: u32) -> (int, bool) {
    if !is_high_profile(profile_idc) {
        (p, false)
    } else {
        let o1 = ue_overflows(d, p);
        let (chroma, p) = spec_read_ue(d, p);
        let p = if chroma == 3 {
            spec_read_bits(d, p, 1).1
        } else {
            p
        };
        let o2 = ue_overflows(d, p);
        let p = spec_read_ue(d, p).1;
        let o3 = ue_overflows(d, p);
        let p = spec_read_ue(d, p).1;
        let p = spec_read_bits(d, p, 1).1;
        let (flag, p) = spec_read_bits(d, p, 1);
        let (p, o4) = if flag != 0 {
            scaling_matrix(d, p, 0)
        } else {
            (p, false)
        };
        (p, o1 || o2 || o3 || o4)
    }
}

/// `n` signed codes in a row.
pub open spec fn se_repeat(d: Seq<u8>, p: int, n: nat) -> (int, bool)
    decreases n,
{
    if p < 0 || n == 0 {
        (p, false)
    } else {
        let o = ue_overflows(d, p);
        let q = spec_read_se(d, p).1;
        let (r, o2) = se_repeat(d, q, (n - 1) as nat);
        (r, o || o2)
    }
}

/// `log2_max_frame_num_minus4` and the picture order count fields.
pub open spec fn sps_poc(d: Seq<u8>, p: int) -> (int, bool) {
    let o1 = ue_overflows(d, p);
    let p = spec_read_ue(d, p).1;
    let o2 = ue_overflows(d, p);
    let (t, p) = spec_read_ue(d, p);
    if t == 0 {
        let o3 = ue_overflows(d, p);
        (spec_read_ue(d, p).1, o1 || o2 || o3)
    } else if t == 1 {
        let p = spec_read_bits(d, p, 1).1;
        let o3 = ue_overflows(d, p);
        let p = spec_read_se(d, p).1;
        let o4 = ue_overflows(d, p);
        let p = spec_read_se(d, p).1;
        let o5 = ue_overflows(d, p);
        let (n, p) = spec_read_ue(d, p);
        let (p, o6) = se_repeat(d, p, n as nat);
        (p, o1 || o2 || o3 || o4 || o5 || o6)
    } else {
        (p, o1 || o2)
    }
}

/// The frame size fields: reference frames, macroblock counts, frame/field
/// coding and the cropping window. Returns the updated `s`, the
/// `frame_mbs_only_flag`, the position and whether a code overflows.
pub open spec fn sps_frame(d: Seq<u8>, p: int, s: SPSInfo) -> (SPSInfo, u32, int, bool) {
    let o1 = ue_overflows(d, p);
    let p = spec_read_ue(d, p).1;
    let p = spec_read_bits(d, p, 1).1;
    let o2 = ue_overflows(d, p);
    let (w, p) = spec_read_ue(d, p);
    let o3 = ue_overflows(d, p);
    let (h, p) = spec_read_ue(d, p);
    let (fmo, p) = spec_read_bits(d, p, 1);
    let p = if fmo == 0 {
        spec_read_bits(d, p, 1).1
    } else {
        p
    };
    let p = spec_read_bits(d, p, 1).1;
    let (crop, p) = spec_read_bits(d, p, 1);
    let s = SPSInfo { mb_width: (w + 1) as u32, mb_height: (h + 1) as u32, ..s };
    if crop != 0 {
        let o4 = ue_overflows(d, p);
        let (cl, p) = spec_read_ue(d, p);
        let o5 = ue_overflows(d, p);
        let (cr, p) = spec_read_ue(d, p);
        let o6 = ue_overflows(d, p);
        let (ct, p) = spec_read_ue(d, p);
        let o7 = ue_overflows(d, p);
        let (cb, p) = spec_read_ue(d, p);
        (
            SPSInfo { crop_left: cl, crop_right: cr, crop_top: ct, crop_bottom: cb, ..s },
            fmo,
            p,
            o1 || o2 || o3 || o4 || o5 || o6 || o7,
        )
    } else {
        (s, fmo, p, o1 || o2 || o3)
    }
}

/// The luma width in pixels: `16 * mb_width - 2 * (crop_left + crop_right)`.
pub open spec fn sps_width(s: SPSInfo) -> int {
    s.mb_width * 16 - s.crop_left * 2 - s.crop_right * 2
}

/// The luma height in pixels:
/// `(2 - frame_mbs_only_flag) * 16 * mb_height - 2 * (crop_top + crop_bottom)`.
pub open spec fn sps_height(s: SPSInfo, fmo: u32) -> int {
    (2 - fmo) * s.mb_height * 16 - s.crop_top * 2 - s.crop_bottom * 2
}

/// Whether a step of the `u32` arithmetic of `sps_width` or `sps_height`
/// leaves the range of `u32`.
pub open spec fn sps_dims_overflow(s: SPSInfo, fmo: u32) -> bool {
    let m = u32::MAX as int;
    ||| s.mb_width * 16 > m
    ||| s.crop_left * 2 > m
    ||| s.mb_width * 16 - s.crop_left * 2 < 0
    ||| s.crop_right * 2 > m
    ||| sps_width(s) < 0
    ||| (2 - fmo) * s.mb_height > m
    ||| (2 - fmo) * s.mb_height * 16 > m
    ||| s.crop_top * 2 > m
    ||| (2 - fmo) * s.mb_height * 16 - s.crop_top * 2 < 0
    ||| s.crop_bottom * 2 > m
    ||| sps_height(s, fmo) < 0
}

/// The frame rate that the VUI timing information gives:
/// `time_scale / (2 * num_units_in_tick)` rounded down, or 0.
pub open spec fn fps_of(num_units_in_tick: int, time_scale: int) -> u32 {
    if num_units_in_tick != 0 {
        (time_scale / (2 * num_units_in_tick)) as u32
    } else {
        0
    }
}

/// The aspect ratio fields of the VUI.
pub open spec fn vui_aspect(d: Seq<u8>, p: int) -> int {
    let (ar, p) = spec_read_bits(d, p, 1);
    if ar != 0 {
        let (idc, p) = spec_read_bits(d, p, 8);
        if idc == 255 {
            spec_read_bits(d, spec_read_bits(d, p, 16).1, 16).1
        } else {
            p
        }
    } else {
        p
    }
}

/// The overscan and video signal fields of the VUI.
pub open spec fn vui_signal(d: Seq<u8>, p: int) -> int {
    let (os, p) = spec_read_bits(d, p, 1);
    let p = if os != 0 {
        spec_read_bits(d, p, 1).1
    } else {
        p
    };
    let (vs, p) = spec_read_bits(d, p, 1);
    if vs != 0 {
        let p = spec_read_bits(d, p, 3).1;
        let p = spec_read_bits(d, p, 1).1;
        let (cd, p) = spec_read_bits(d, p, 1);
        if cd != 0 {
            spec_read_bits(d, spec_read_bits(d, spec_read_bits(d, p, 8).1, 8).1, 8).1
        } else {
            p
        }
    } else {
        p
    }
}

/// The chroma location fields of the VUI, and whether a code overflows.
pub open spec fn vui_chroma_loc(d: Seq<u8>, p: int) -> (int, bool) {
    let (cl, p) = spec_read_bits(d, p, 1);
    if cl != 0 {
        let o1 = ue_overflows(d, p);
        let p = spec_read_ue(d, p).1;
        let o2 = ue_overflows(d, p);
        (spec_read_ue(d, p).1, o1 || o2)
    } else {
        (p, false)
    }
}

/// The timing fields of the VUI: the frame rate (0 when absent).
pub open spec fn vui_timing(d: Seq<u8>, p: int) -> (u32, int) {
    let (ti, p) = spec_read_bits(d, p, 1);
    if ti != 0 {
        let (a, p) = spec_read_bits(d, p, 16);
        let (b, p) = spec_read_bits(d, p, 16);
        let (c, p) = spec_read_bits(d, p, 16);
        let (e, p) = spec_read_bits(d, p, 16);
        (fps_of(a * 65536 + b, c * 65536 + e), p)
    } else {
        (0, p)
    }
}

/// The VUI fields up to the timing information: the frame rate (0 when
/// absent), the position after them and whether a code overflows.
pub open spec fn sps_vui(d: Seq<u8>, p: int) -> (u32, int, bool) {
    let (vui, p) = spec_read_bits(d, p, 1);
    if vui == 0 {
        (0, p, false)
    } else {
        let p = vui_aspect(d, p);
        let p = vui_signal(d, p);
        let (p, o) = vui_chroma_loc(d, p);
        let (fps, p) = vui_timing(d, p);
        (fps, p, o)
    }
}

/// Parsing the RBSP (emulation prevention removed) of an H.264 SPS: the
/// fields, the final position (`failed_pos()` when the data ends early) and
/// whether the parse overflows (an Exp-Golomb code too long for `u32`, the
/// scaling list arithmetic, or the picture size arithmetic).
pub open spec fn spec_h264_sps(d: Seq<u8>) -> (SPSInfo, int, bool) {
    let (s, p, o1) = sps_head(d);
    let (p, o2) = sps_chroma(d, p, s.profile_idc);
    let (p, o3) = sps_poc(d, p);
    let (s, fmo, p, o4) = sps_frame(d, p, s);
    let o5 = p >= 0 && sps_dims_overflow(s, fmo);
    let s = SPSInfo { width: sps_width(s) as u32, height: sps_height(s, fmo) as u32, ..s };
    let (fps, p, o6) = sps_vui(d, p);
    (SPSInfo { fps: fps, ..s }, p, o1 || o2 || o3 || o4 || o5 || o6)
}

/// Whether parsing the SPS NAL unit `data` overflows (see `spec_h264_sps`).
pub open spec fn h264_sps_overflows(data: Seq<u8>) -> bool {
    spec_h264_sps(spec_remove_emulation(data)).2
}

fn read_sps_head(r: &mut GolombBitReader) -> (res: Result<SPSInfo, &'static str>)
    requires
        old(r).wf(),
        old(r).pos() == 0,
    ensures
        final(r).wf(),
        final(r).data() == old(r).data(),
        sps_head(old(r).data()).2 ==> res == Err::<SPSInfo, &'static str>("value out of range"),
        !sps_head(old(r).data()).2 ==> ({
            let (s, p, _) = sps_head(old(r).data());
            match res {
                Ok(v) => p != failed_pos() && v == s && final(r).pos() == p,
                Err(e) => p == failed_pos() && e == "EOF",
            }
        }),
{
    r.read_bits(8)?;
    let mut s = new_sps();
    s.profile_idc = r.read_bits(8)?;
    s.constraint_set_flag = r.read_bits(8)? >> 2;
    s.level_idc = r.read_bits(8)?;
    s.id = r.read_exponential_golomb_checked()?;
    Ok(s)
}

fn skip_scaling_list(r: &mut GolombBitReader, size: u32) -> (res: Result<(), &'static str>)
    requires
        old(r).wf(),
    ensures
        final(r).wf(),
        final(r).data() == old(r).data(),
        scaling_list(old(r).data(), old(r).pos(), size as nat, 8, 8).1 ==> res == Err::<(), &'static str>("value out of range"),
        !scaling_list(old(r).data(), old(r).pos(), size as nat, 8, 8).1 ==> ({
            let (p, _) = scaling_list(old(r).data(), old(r).pos(), size as nat, 8, 8);
            match res {
                Ok(_) => p != failed_pos() && final(r).pos() == p,
                Err(e) => p == failed_pos() && e == "EOF",
            }
        }),
{
    let ghost d = r.data();
    proof {
        r.lemma_pos_in_range();
    }
    let mut last_scale = 8i32;
    let mut next_scale = 8i32;
    let mut j: u32 = 0;
    while j < size
        invariant
            r.wf(),
            r.data() == d,
            d == old(r).data(),
            j <= size,
            r.pos() >= 0,
            -256 < last_scale < 256,
            -256 < next_scale < 256,
            scaling_list(d, old(r).pos(), size as nat, 8, 8).1 == scaling_list(
                d,
                r.pos(),
                (size - j) as nat,
                last_scale as int,
                next_scale as int,
            ).1,
            scaling_list(d, old(r).pos(), size as nat, 8, 8).0 == scaling_list(
                d,
                r.pos(),
                (size - j) as nat,
                last_scale as int,
                next_scale as int,
            ).0,
        decreases size - j,
    {
        if next_scale != 0 {
            let delta_scale = r.read_se_checked()?;
            let sum = last_scale as i64 + delta_scale as i64;
            if sum < i32::MIN as i64 || sum > i32::MAX as i64 - 256 {
                return Err("value out of range");
            }
            next_scale = (last_scale + delta_scale + 256) % 256;
        }
        if next_scale != 0 {
            last_scale = next_scale;
        }
        j += 1;
    }
    Ok(())
}

fn skip_scaling_matrix(r: &mut GolombBitReader) -> (res: Result<(), &'static str>)
    requires
        old(r).wf(),
    ensures
        final(r).wf(),
        final(r).data() == old(r).data(),
        scaling_matrix(old(r).data(), old(r).pos(), 0).1 ==> res == Err::<(), &'static str>("value out of range"),
        !scaling_matrix(old(r).data(), old(r).pos(), 0).1 ==> ({
            let (p, _) = scaling_matrix(old(r).data(), old(r).pos(), 0);
            match res {
                Ok(_) => p != failed_pos() && final(r).pos() == p,
                Err(e) => p == failed_pos() && e == "EOF",
            }
        }),
{
    let ghost d = r.data();
    proof {
        r.lemma_pos_in_range();
    }
    let mut i: u32 = 0;
    while i < 8
        invariant
            r.wf(),
            r.data() == d,
            d == old(r).data(),
            i <= 8,
            r.pos() >= 0,
            scaling_matrix(d, old(r).pos(), 0).1 == scaling_matrix(d, r.pos(), i as nat).1,
            scaling_matrix(d, old(r).pos(), 0).0 == scaling_matrix(d, r.pos(), i as nat).0,
        decreases 8 - i,
    {
        proof {
            assert(scaling_matrix(d, failed_pos(), (i + 1) as nat) == (failed_pos(), false));
        }
        let seq_scaling_list_present_flag = r.read_bit()?;
        if seq_scaling_list_present_flag != 0 {
            let size_of_scaling_list = if i < 6 {
                16
            } else {
                64
            };
            skip_scaling_list(r, size_of_scaling_list)?;
        }
        proof {
            r.lemma_pos_in_range();
        }
        i += 1;
    }
    Ok(())
}

fn skip_chroma_info(r: &mut GolombBitReader, profile_idc: u32) -> (res: Result<(), &'static str>)
    requires
        old(r).wf(),
    ensures
        final(r).wf(),
        final(r).data() == old(r).data(),
        sps_chroma(old(r).data(), old(r).pos(), profile_idc).1 ==> res == Err::<(), &'static str>("value out of range"),
        !sps_chroma(old(r).data(), old(r).pos(), profile_idc).1 ==> ({
            let (p, _) = sps_chroma(old(r).data(), old(r).pos(), profile_idc);
            match res {
                Ok(_) => p != failed_pos() && final(r).pos() == p,
                Err(e) => p == failed_pos() && e == "EOF",
            }
        }),
{
    proof {
        r.lemma_pos_in_range();
    }
    if profile_idc == 100 || profile_idc == 110 || profile_idc == 122 || profile_idc == 244
        || profile_idc == 44 || profile_idc == 83 || profile_idc == 86 || profile_idc == 118 {
        let chroma_format_idc = r.read_exponential_golomb_checked()?;
        if chroma_format_idc == 3 {
            r.read_bit()?;  // residual_colour_transform_flag
        }
        r.read_exponential_golomb_checked()?;  // bit_depth_luma_minus8
        r.read_exponential_golomb_checked()?;  // bit_depth_chroma_minus8
        r.read_bit()?;  // qpprime_y_zero_transform_bypass_flag
        let seq_scaling_matrix_present_flag = r.read_bit()?;
        proof {
            assert(scaling_matrix(old(r).data(), failed_pos(), 0) == (failed_pos(), false));
        }
        if seq_scaling_matrix_present_flag != 0 {
            skip_scaling_matrix(r)?;
        }
    }
    Ok(())
}

fn skip_se_codes(r: &mut GolombBitReader, n: u32) -> (res: Result<(), &'static str>)
    requires
        old(r).wf(),
    ensures
        final(r).wf(),
        final(r).data() == old(r).data(),
        se_repeat(old(r).data(), old(r).pos(), n as nat).1 ==> res == Err::<(), &'static str>("value out of range"),
        !se_repeat(old(r).data(), old(r).pos(), n as nat).1 ==> ({
            let (p, _) = se_repeat(old(r).data(), old(r).pos(), n as nat);
            match res {
                Ok(_) => p != failed_pos() && final(r).pos() == p,
                Err(e) => p == failed_pos() && e == "EOF",
            }
        }),
{
    let ghost d = r.data();
    proof {
        r.lemma_pos_in_range();
    }
    let mut j: u32 = 0;
    while j < n
        invariant
            r.wf(),
            r.data() == d,
            d == old(r).data(),
            j <= n,
            r.pos() >= 0,
            se_repeat(d, old(r).pos(), n as nat).1 == se_repeat(d, r.pos(), (n - j) as nat).1,
            se_repeat(d, old(r).pos(), n as nat).0 == se_repeat(d, r.pos(), (n - j) as nat).0,
        decreases n - j,
    {
        proof {
            assert(se_repeat(d, failed_pos(), (n - j - 1) as nat) == (failed_pos(), false));
        }
        r.read_se_checked()?;
        proof {
            r.lemma_pos_in_range();
        }
        j += 1;
    }
    Ok(())
}

fn skip_pic_order_info(r: &mut GolombBitReader) -> (res: Result<(), &'static str>)
    requires
        old(r).wf(),
    ensures
        final(r).wf(),
        final(r).data() == old(r).data(),
        sps_poc(old(r).data(), old(r).pos()).1 ==> res == Err::<(), &'static str>("value out of range"),
        !sps_poc(old(r).data(), old(r).pos()).1 ==> ({
            let (p, _) = sps_poc(old(r).data(), old(r).pos());
            match res {
                Ok(_) => p != failed_pos() && final(r).pos() == p,
                Err(e) => p == failed_pos() && e == "EOF",
            }
        }),
{
    r.read_exponential_golomb_checked()?;  // log2_max_frame_num_minus4
    let pic_order_cnt_type = r.read_exponential_golomb_checked()?;
    if pic_order_cnt_type == 0 {
        r.read_exponential_golomb_checked()?;  // log2_max_pic_order_cnt_lsb_minus4
    } else if pic_order_cnt_type == 1 {
        r.read_bit()?;  // delta_pic_order_always_zero_flag
        r.read_se_checked()?;  // offset_for_non_ref_pic
        r.read_se_checked()?;  // offset_for_top_to_bottom_field
        let num_ref_frames_in_pic_order_cnt_cycle = r.read_exponential_golomb_checked()?;
        skip_se_codes(r, num_ref_frames_in_pic_order_cnt_cycle)?;
    }
    Ok(())
}

fn read_frame_info(r: &mut GolombBitReader, s: &mut SPSInfo) -> (res: Result<u32, &'static str>)
    requires
        old(r).wf(),
    ensures
        final(r).wf(),
        final(r).data() == old(r).data(),
        sps_frame(old(r).data(), old(r).pos(), *old(s)).3 ==> res == Err::<u32, &'static str>("value out of range"),
        !sps_frame(old(r).data(), old(r).pos(), *old(s)).3 ==> ({
            let (s2, fmo, p, _) = sps_frame(old(r).data(), old(r).pos(), *old(s));
            match res {
                Ok(f) => p != failed_pos() && final(r).pos() == p && f == fmo && f <= 1 && *final(s)
                    == s2,
                Err(e) => p == failed_pos() && e == "EOF",
            }
        }),
{
    r.read_exponential_golomb_checked()?;  // max_num_ref_frames
    r.read_bit()?;  // gaps_in_frame_num_value_allowed_flag
    s.mb_width = r.read_exponential_golomb_checked()? + 1;
    s.mb_height = r.read_exponential_golomb_checked()? + 1;
    let frame_mbs_only_flag = r.read_bit()?;
    if frame_mbs_only_flag == 0 {
        r.read_bit()?;  // mb_adaptive_frame_field_flag
    }
    r.read_bit()?;  // direct_8x8_inference_flag
    let frame_cropping_flag = r.read_bit()?;
    if frame_cropping_flag != 0 {
        s.crop_left = r.read_exponential_golomb_checked()?;
        s.crop_right = r.read_exponential_golomb_checked()?;
        s.crop_top = r.read_exponential_golomb_checked()?;
        s.crop_bottom = r.read_exponential_golomb_checked()?;
    }
    Ok(frame_mbs_only_flag)
}

proof fn lemma_join16(hi: u32, lo: u32)
    requires
        hi < 65536,
        lo < 65536,
    ensures
        (hi << 16u32) | lo == hi * 65536 + lo,
{
    assert((hi << 16u32) | lo == hi * 65536 + lo) by (bit_vector)
        requires
            hi < 65536,
            lo < 65536,
    ;
}

fn read_u32_halves(r: &mut GolombBitReader) -> (res: Result<u32, &'static str>)
    requires
        old(r).wf(),
    ensures
        final(r).wf(),
        final(r).data() == old(r).data(),
        ({
            let (a, p) = spec_read_bits(old(r).data(), old(r).pos(), 16);
            let (b, p) = spec_read_bits(old(r).data(), p, 16);
            match res {
                Ok(x) => p != failed_pos() && final(r).pos() == p && x == a * 65536 + b,
                Err(e) => p == failed_pos() && e == "EOF",
            }
        }),
{
    let hi = r.read_bits(16)?;
    let lo = r.read_bits(16)?;
    proof {
        vstd::arithmetic::power2::lemma2_to64();
        crate::utils::bits::lemma_bits_value_bound(old(r).data(), old(r).pos(), 16);
        crate::utils::bits::lemma_bits_value_bound(old(r).data(), old(r).pos() + 16, 16);
        lemma_join16(hi, lo);
    }
    Ok(hi << 16 | lo)
}

fn skip_vui_aspect(r: &mut GolombBitReader) -> (res: Result<(), &'static str>)
    requires
        old(r).wf(),
    ensures
        final(r).wf(),
        final(r).data() == old(r).data(),
        ({
            let p = vui_aspect(old(r).data(), old(r).pos());
            match res {
                Ok(_) => p != failed_pos() && final(r).pos() == p,
                Err(e) => p == failed_pos() && e == "EOF",
            }
        }),
{
    let aspect_ratio_info_present_flag = r.read_bit()?;
    if aspect_ratio_info_present_flag != 0 {
        let aspect_ratio_idc = r.read_bits(8)?;
        if aspect_ratio_idc == 255 {
            r.read_bits(16)?;  // sar_width
            r.read_bits(16)?;  // sar_height
        }
    }
    Ok(())
}

fn skip_vui_signal(r: &mut GolombBitReader) -> (res: Result<(), &'static str>)
    requires
        old(r).wf(),
    ensures
        final(r).wf(),
        final(r).data() == old(r).data(),
        ({
            let p = vui_signal(old(r).data(), old(r).pos());
            match res {
                Ok(_) => p != failed_pos() && final(r).pos() == p,
                Err(e) => p == failed_pos() && e == "EOF",
            }
        }),
{
    let overscan_info_present_flag = r.read_bit()?;
    if overscan_info_present_flag != 0 {
        r.read_bit()?;  // overscan_appropriate_flag
    }
    let video_signal_type_present_flag = r.read_bit()?;
    if video_signal_type_present_flag != 0 {
        r.read_bits(3)?;  // video_format
        r.read_bit()?;  // video_full_range_flag
        let colour_description_present_flag = r.read_bit()?;
        if colour_description_present_flag != 0 {
            r.read_bits(8)?;  // colour_primaries
            r.read_bits(8)?;  // transfer_characteristics
            r.read_bits(8)?;  // matrix_coefficients
        }
    }
    Ok(())
}

fn skip_vui_chroma_loc(r: &mut GolombBitReader) -> (res: Result<(), &'static str>)
    requires
        old(r).wf(),
    ensures
        final(r).wf(),
        final(r).data() == old(r).data(),
        vui_chroma_loc(old(r).data(), old(r).pos()).1 ==> res == Err::<(), &'static str>("value out of range"),
        !vui_chroma_loc(old(r).data(), old(r).pos()).1 ==> ({
            let (p, _) = vui_chroma_loc(old(r).data(), old(r).pos());
            match res {
                Ok(_) => p != failed_pos() && final(r).pos() == p,
                Err(e) => p == failed_pos() && e == "EOF",
            }
        }),
{
    let chroma_loc_info_present_flag = r.read_bit()?;
    if chroma_loc_info_present_flag != 0 {
        r.read_exponential_golomb_checked()?;  // chroma_sample_loc_type_top_field
        r.read_exponential_golomb_checked()?;  // chroma_sample_loc_type_bottom_field
    }
    Ok(())
}

fn read_vui_timing(r: &mut GolombBitReader) -> (res: Result<u32, &'static str>)
    requires
        old(r).wf(),
    ensures
        final(r).wf(),
        final(r).data() == old(r).data(),
        ({
            let (fps, p) = vui_timing(old(r).data(), old(r).pos());
            match res {
                Ok(f) => p != failed_pos() && final(r).pos() == p && f == fps,
                Err(e) => p == failed_pos() && e == "EOF",
            }
        }),
{
    let mut fps: u32 = 0;
    let timing_info_present_flag = r.read_bit()?;
    if timing_info_present_flag != 0 {
        let num_units_in_tick = read_u32_halves(r)?;
        let time_scale = read_u32_halves(r)?;
        if num_units_in_tick != 0 {
            fps = time_scale / num_units_in_tick / 2;
            proof {
                vstd::arithmetic::div_mod::lemma_div_denominator(
                    time_scale as int,
                    num_units_in_tick as int,
                    2,
                );
            }
        }
    }
    Ok(fps)
}

fn read_vui_fps(r: &mut GolombBitReader) -> (res: Result<u32, &'static str>)
    requires
        old(r).wf(),
    ensures
        final(r).wf(),
        final(r).data() == old(r).data(),
        sps_vui(old(r).data(), old(r).pos()).2 ==> res == Err::<u32, &'static str>("value out of range"),
        !sps_vui(old(r).data(), old(r).pos()).2 ==> ({
            let (fps, p, _) = sps_vui(old(r).data(), old(r).pos());
            match res {
                Ok(f) => p != failed_pos() && final(r).pos() == p && f == fps,
                Err(e) => p == failed_pos() && e == "EOF",
            }
        }),
{
    let vui_parameter_present_flag = r.read_bit()?;
    if vui_parameter_present_flag != 0 {
        skip_vui_aspect(r)?;
        skip_vui_signal(r)?;
        skip_vui_chroma_loc(r)?;
        read_vui_timing(r)
    } else {
        Ok(0)
    }
}

/// Parses an H.264 sequence parameter set NAL unit (header byte included).
pub fn parse_sps(data: &[u8]) -> (res: Result<SPSInfo, &'static str>)
    requires
        !h264_sps_overflows(data@),
    ensures
        ({
            let (s, p, _) = spec_h264_sps(spec_remove_emulation(data@));
            match res {
                Ok(v) => p != failed_pos() && v == s,
                Err(e) => p == failed_pos() && e == "EOF",
            }
        }),
{
    parse_sps_checked(data)
}

/// Whether a step of the `u32` arithmetic of the picture size overflows.
fn dims_overflow(s: &SPSInfo, fmo: u32) -> (b: bool)
    requires
        fmo <= 1,
    ensures
        b == sps_dims_overflow(*s, fmo),
{
    let m: i128 = u32::MAX as i128;
    let w16 = s.mb_width as i128 * 16;
    let h: i128 = if fmo == 0 {
        2 * (s.mb_height as i128)
    } else {
        s.mb_height as i128
    };
    proof {
        let mh = s.mb_height as int;
        if fmo == 0 {
            assert(h == (2 - fmo) * s.mb_height);
        } else {
            assert(fmo == 1);
            assert((2 - fmo) * mh == mh) by (nonlinear_arith)
                requires
                    fmo == 1,
            ;
        }
        assert(h * 16 == (2 - fmo) * s.mb_height * 16);
    }
    let cl = s.crop_left as i128 * 2;
    let cr = s.crop_right as i128 * 2;
    let ct = s.crop_top as i128 * 2;
    let cb = s.crop_bottom as i128 * 2;
    w16 > m || cl > m || w16 - cl < 0 || cr > m || w16 - cl - cr < 0 || h > m || h * 16 > m
        || ct > m || h * 16 - ct < 0 || cb > m || h * 16 - ct - cb < 0
}

/// `parse_sps`, for every input: where the SPS holds an Exp-Golomb code too
/// long to read, a scaling list whose arithmetic leaves `i32`, or a picture
/// size whose arithmetic leaves `u32`, fails with `"value out of range"`.
pub fn parse_sps_checked(data: &[u8]) -> (res: Result<SPSInfo, &'static str>)
    ensures
        h264_sps_overflows(data@) ==> res == Err::<SPSInfo, &'static str>("value out of range"),
        !h264_sps_overflows(data@) ==> ({
            let (s, p, _) = spec_h264_sps(spec_remove_emulation(data@));
            match res {
                Ok(v) => p != failed_pos() && v == s,
                Err(e) => p == failed_pos() && e == "EOF",
            }
        }),
{
    let raw_data = remove_h264_or_h265_emulation_bytes(data);
    let ghost d = raw_data@;
    let mut r = GolombBitReader::new(raw_data.as_slice());
    let mut s = read_sps_head(&mut r)?;
    skip_chroma_info(&mut r, s.profile_idc)?;
    skip_pic_order_info(&mut r)?;
    let frame_mbs_only_flag = read_frame_info(&mut r, &mut s)?;
    if dims_overflow(&s, frame_mbs_only_flag) {
        return Err("value out of range");
    }
    s.width = (s.mb_width * 16) - s.crop_left * 2 - s.crop_right * 2;
    s.height = ((2 - frame_mbs_only_flag) * s.mb_height * 16) - s.crop_top * 2 - s.crop_bottom * 2;
    s.fps = read_vui_fps(&mut r)?;
    Ok(s)
}

// ---------------------------------------------------------------------------
// Slice header
// ---------------------------------------------------------------------------
/// The coding type of a slice.
#[derive(Debug, Clone, Copy, PartialEq, Eq, Structural)]
pub enum SliceType {
    P,
    B,
    I,
}

/// The slice type that a `slice_type` code stands for (codes 5 to 9 repeat
/// 0 to 4), or `None` for codes above 9.
pub open spec fn slice_type_of(t: u32) -> Option<SliceType> {
    if t == 0 || t == 3 || t == 5 || t == 8 {
        Some(SliceType::P)
    } else if t == 1 || t == 6 {
        Some(SliceType::B)
    } else if t == 2 || t == 4 || t == 7 || t == 9 {
        Some(SliceType::I)
    } else {
        None
    }
}

fn slice_type_from_code(t: u32) -> (r: Option<SliceType>)
    ensures
        r == slice_type_of(t),
{
    match t {
        0 | 3 | 5 | 8 => Some(SliceType::P),
        1 | 6 => Some(SliceType::B),
        2 | 4 | 7 | 9 => Some(SliceType::I),
        _ => None,
    }
}

/// Whether an H.264 NAL unit type carries a slice header.
pub open spec fn h264_has_slice_header(nal_unit_type: u8) -> bool {
    nal_unit_type == 1 || nal_unit_type == 2 || nal_unit_type == 5 || nal_unit_type == 19
}

/// The slice type of an H.264 slice NAL unit: after the 1-byte NAL header,
/// `first_mb_in_slice` and then `slice_type`, both `ue(v)`.
pub open spec fn spec_h264_slice_type(packet: Seq<u8>) -> Result<SliceType, &'static str> {
    if packet.len() <= 1 {
        Err("packet too short to parse slice header")
    } else if !h264_has_slice_header(packet[0] & 0x1f) {
        Err("nal_unit_type has no slice header")
    } else {
        let d = packet.skip(1);
        let p = spec_read_ue(d, 0).1;
        let (t, p) = spec_read_ue(d, p);
        if p == failed_pos() {
            Err("EOF")
        } else {
            match slice_type_of(t) {
                Some(st) => Ok(st),
                None => Err("slice_type invalid"),
            }
        }
    }
}

/// Whether one of the two codes `spec_h264_slice_type` reads overflows.
pub open spec fn h264_slice_overflows(packet: Seq<u8>) -> bool {
    &&& packet.len() > 1
    &&& h264_has_slice_header(packet[0] & 0x1f)
    &&& {
        let d = packet.skip(1);
        ue_overflows(d, 0) || ue_overflows(d, spec_read_ue(d, 0).1)
    }
}

/// Reads the slice type from the header of an H.264 slice NAL unit.
pub fn parse_slice_header_from_nalu(packet: &[u8]) -> (r: Result<SliceType, &'static str>)
    requires
        !h264_slice_overflows(packet@),
    ensures
        r == spec_h264_slice_type(packet@),
{
    if packet.len() <= 1 {
        return Err("packet too short to parse slice header");
    }
    let nal_unit_type = packet[0] & 0x1f;
    match nal_unit_type {
        1 | 2 | 5 | 19 => {},
        _ => return Err("nal_unit_type has no slice header"),
    }
    let body = vstd::slice::slice_subrange(packet, 1, packet.len());
    assert(body@ == packet@.skip(1));
    let mut r = GolombBitReader::new(body);
    r.read_exponential_golomb()?;  // first_mb_in_slice
    let slice_type = r.read_exponential_golomb()?;
    match slice_type_from_code(slice_type) {
        Some(st) => Ok(st),
        None => Err("slice_type invalid"),
    }
}

/// `parse_slice_header_from_nalu`, for every input: where one of the two
/// codes it reads is too long to read, fails with
/// `"value out of range"`.
pub fn parse_slice_header_from_nalu_checked(packet: &[u8]) -> (r: Result<SliceType, &'static str>)
    ensures
        h264_slice_overflows(packet@) ==> r == Err::<SliceType, &'static str>("value out of range"),
        !h264_slice_overflows(packet@) ==> r == spec_h264_slice_type(packet@),
{
    let has_header = packet.len() > 1 && {
        let t = packet[0] & 0x1f;
        t == 1 || t == 2 || t == 5 || t == 19
    };
    if has_header {
        let body = vstd::slice::slice_subrange(packet, 1, packet.len());
        assert(body@ == packet@.skip(1));
        let mut r = GolombBitReader::new(body);
        if r.ue_overflows_here() {
            return Err("value out of range");
        }
        if r.read_exponential_golomb().is_ok() && r.ue_overflows_here() {
            return Err("value out of range");
        }
    }
    parse_slice_header_from_nalu(packet)
}

// ---------------------------------------------------------------------------
// NAL unit framing
// ---------------------------------------------------------------------------
/// The contents of a list of byte vectors.
pub open spec fn units_view(v: Seq<Vec<u8>>) -> Seq<Seq<u8>> {
    v.map_values(|u: Vec<u8>| u@)
}

/// The big-endian number held by the four bytes of `b` at `i`.
pub open spec fn be32_at(b: Seq<u8>, i: int) -> int {
    b[i] * 0x100_0000 + b[i + 1] * 0x1_0000 + b[i + 2] * 0x100 + b[i + 3]
}

/// The big-endian number held by the three bytes of `b` at `i`.
pub open spec fn be24_at(b: Seq<u8>, i: int) -> int {
    b[i] * 0x1_0000 + b[i + 1] * 0x100 + b[i + 2]
}

/// Walking length-prefixed units: `rest` follows a length field that holds
/// `len`. Returns the units and whether the walk used up `rest` exactly. The
/// walk stops at a length larger than what is left, and when fewer than 4
/// bytes follow a unit.
pub open spec fn avcc_walk(rest: Seq<u8>, len: int) -> (Seq<Seq<u8>>, bool)
    decreases rest.len(),
{
    if len < 0 || len > rest.len() {
        (seq![], rest.len() == 0)
    } else {
        let unit = rest.take(len);
        let r2 = rest.skip(len);
        if r2.len() < 4 {
            (seq![unit], r2.len() == 0)
        } else {
            let (us, ok) = avcc_walk(r2.skip(4), be32_at(r2, 0));
            (seq![unit] + us, ok)
        }
    }
}

/// A 3-byte start code `00 00 01` at `pos`.
pub open spec fn is_start_code3(b: Seq<u8>, pos: int) -> bool {
    0 <= pos && pos + 2 < b.len() && b[pos] == 0 && b[pos + 1] == 0 && b[pos + 2] == 1
}

/// A 4-byte start code `00 00 00 01` at `pos`.
pub open spec fn is_start_code4(b: Seq<u8>, pos: int) -> bool {
    0 <= pos && pos + 3 < b.len() && b[pos] == 0 && b[pos + 1] == 0 && b[pos + 2] == 0 && b[pos
        + 3] == 1
}

/// The first start code at or after `pos`: its position and length, or
/// `(b.len(), 0)` when there is none.
pub open spec fn next_start_code(b: Seq<u8>, pos: int) -> (int, nat)
    decreases b.len() - pos,
{
    if pos >= b.len() {
        (b.len() as int, 0)
    } else if is_start_code4(b, pos) {
        (pos, 4)
    } else if is_start_code3(b, pos) {
        (pos, 3)
    } else {
        next_start_code(b, pos + 1)
    }
}

/// The units that follow a start code of length `kind` at `sc`: each runs
/// up to the next start code, and empty ones are left out.
pub open spec fn annexb_units(b: Seq<u8>, sc: int, kind: nat) -> Seq<Seq<u8>>
    decreases b.len() - sc,
{
    let start = sc + kind;
    if kind == 0 || start >= b.len() || sc < 0 {
        seq![]
    } else {
        proof {
            lemma_next_start_code_kind(b, start);
        }
        let (nx, k2) = next_start_code(b, start);
        (if nx > start {
            seq![b.subrange(start, nx)]
        } else {
            seq![]
        }) + annexb_units(b, nx, k2)
    }
}

/// Splitting a buffer into NAL units: length-prefixed (AVCC) when the
/// lengths walk the buffer exactly, else start-code separated (Annex B) when
/// the buffer begins with a start code, else the whole buffer as one unit.
pub open spec fn spec_split_nalus(b: Seq<u8>) -> (Seq<Seq<u8>>, NaluType) {
    if b.len() < 4 {
        (seq![b], NaluType::Raw)
    } else {
        let val4 = be32_at(b, 0);
        let walk = avcc_walk(b.skip(4), val4);
        if val4 <= (b.len() as u32) && walk.1 {
            (walk.0, NaluType::Avcc)
        } else if be24_at(b, 0) == 1 {
            (annexb_units(b, 0, 3), NaluType::AnnexB)
        } else if val4 == 1 {
            (annexb_units(b, 0, 4), NaluType::AnnexB)
        } else {
            (seq![b], NaluType::Raw)
        }
    }
}

proof fn lemma_be_bytes(a: u8, b: u8, c: u8, d: u8)
    ensures
        ((a as u32) << 24u32) | ((b as u32) << 16u32) | ((c as u32) << 8u32) | (d as u32) == a
            * 0x100_0000 + b * 0x1_0000 + c * 0x100 + d,
        ((a as u32) << 16u32) | ((b as u32) << 8u32) | (c as u32) == a * 0x1_0000 + b * 0x100
            + c,
{
    assert(((a as u32) << 24u32) | ((b as u32) << 16u32) | ((c as u32) << 8u32) | (d as u32) == a
        * 0x100_0000 + b * 0x1_0000 + c * 0x100 + d) by (bit_vector);
    assert(((a as u32) << 16u32) | ((b as u32) << 8u32) | (c as u32) == a * 0x1_0000 + b * 0x100
        + c) by (bit_vector);
}

fn be32_of(s: &[u8]) -> (r: u32)
    requires
        s.len() >= 4,
    ensures
        r == be32_at(s@, 0),
{
    proof {
        lemma_be_bytes(s[0], s[1], s[2], s[3]);
    }
    ((s[0] as u32) << 24) | ((s[1] as u32) << 16) | ((s[2] as u32) << 8) | (s[3] as u32)
}

fn push_unit(nalus: &mut Vec<Vec<u8>>, unit: &[u8])
    ensures
        units_view(final(nalus)@) == units_view(old(nalus)@).push(unit@),
{
    nalus.push(vstd::slice::slice_to_vec(unit));
    assert(units_view(nalus@) =~= units_view(old(nalus)@).push(unit@));
}

/// Walks length-prefixed units; `Some` when the walk uses up `b` exactly.
fn split_avcc(b: &[u8], val4: u32) -> (r: Option<Vec<Vec<u8>>>)
    requires
        b.len() >= 4,
        val4 == be32_at(b@, 0),
    ensures
        match r {
            Some(v) => avcc_walk(b@.skip(4), val4 as int).1 && units_view(v@) == avcc_walk(
                b@.skip(4),
                val4 as int,
            ).0,
            None => !avcc_walk(b@.skip(4), val4 as int).1,
        },
{
    let ghost w = avcc_walk(b@.skip(4), val4 as int);
    let mut nalus: Vec<Vec<u8>> = Vec::new();
    let mut cur: usize = val4 as usize;
    let mut rest: &[u8] = vstd::slice::slice_subrange(b, 4, b.len());
    assert(units_view(nalus@) =~= Seq::<Seq<u8>>::empty());
    assert(w.0 =~= units_view(nalus@) + avcc_walk(rest@, cur as int).0);
    loop
        invariant_except_break
            w.0 == units_view(nalus@) + avcc_walk(rest@, cur as int).0,
            w.1 == avcc_walk(rest@, cur as int).1,
        ensures
            w.0 == units_view(nalus@),
            w.1 == (rest@.len() == 0),
        decreases rest@.len(),
    {
        if cur > rest.len() {
            assert(w.0 =~= units_view(nalus@));
            break ;
        }
        let ghost old_rest = rest@;
        let ghost old_units = units_view(nalus@);
        let unit = vstd::slice::slice_subrange(rest, 0, cur);
        push_unit(&mut nalus, unit);
        rest = vstd::slice::slice_subrange(rest, cur, rest.len());
        assert(unit@ == old_rest.take(cur as int));
        assert(rest@ == old_rest.skip(cur as int));
        if rest.len() < 4 {
            assert(w.0 =~= units_view(nalus@));
            break ;
        }
        cur = be32_of(rest) as usize;
        let ghost r2 = rest@;
        rest = vstd::slice::slice_subrange(rest, 4, rest.len());
        assert(rest@ == r2.skip(4));
        assert(w.0 =~= units_view(nalus@) + avcc_walk(rest@, cur as int).0);
    }
    if rest.len() == 0 {
        Some(nalus)
    } else {
        None
    }
}

/// The position and length of the first start code at or after `from`.
fn find_start_code(b: &[u8], from: usize) -> (r: (usize, u8))
    requires
        from <= b.len(),
    ensures
        next_start_code(b@, from as int) == (r.0 as int, r.1 as nat),
        from <= r.0 <= b.len(),
{
    let mut pos = from;
    while pos < b.len()
        invariant
            from <= pos <= b.len(),
            next_start_code(b@, from as int) == next_start_code(b@, pos as int),
        decreases b.len() - pos,
    {
        if b.len() - pos > 2 && b[pos] == 0 {
            proof {
                lemma_be_bytes(b[pos as int], b[pos + 1], b[pos + 2], 0);
            }
            let v3 = ((b[pos] as u32) << 16) | ((b[pos + 1] as u32) << 8) | (b[pos + 2] as u32);
            if v3 == 0 {
                if b.len() - pos > 3 {
                    let v4 = b[pos + 3] as u32;
                    if v4 == 1 {
                        return (pos, 4);
                    }
                }
            } else if v3 == 1 {
                return (pos, 3);
            }
            pos += 1;
        } else {
            pos += 1;
        }
    }
    (pos, 0)
}

/// Splits start-code separated units; `first` is the length of the start
/// code at the beginning of `b`.
fn split_annexb(b: &[u8], first: u8) -> (r: Vec<Vec<u8>>)
    requires
        first == 3 ==> is_start_code3(b@, 0),
        first == 4 ==> is_start_code4(b@, 0),
        first == 3 || first == 4,
    ensures
        units_view(r@) == annexb_units(b@, 0, first as nat),
{
    let ghost total = annexb_units(b@, 0, first as nat);
    let mut nalus: Vec<Vec<u8>> = Vec::new();
    let mut pos: usize = 0;
    let mut kind: u8 = first;
    assert(units_view(nalus@) =~= Seq::<Seq<u8>>::empty());
    assert(total =~= units_view(nalus@) + annexb_units(b@, pos as int, kind as nat));
    loop
        invariant_except_break
            pos <= b.len(),
            kind == 0 || kind == 3 || kind == 4,
            kind == 0 ==> pos == b.len(),
            kind == 3 ==> is_start_code3(b@, pos as int),
            kind == 4 ==> is_start_code4(b@, pos as int),
            total == units_view(nalus@) + annexb_units(b@, pos as int, kind as nat),
        ensures
            total == units_view(nalus@),
        decreases b.len() - pos,
    {
        let start = pos + kind as usize;
        if start == b.len() || kind == 0 {
            assert(total =~= units_view(nalus@));
            break ;
        }
        let (nx, k2) = find_start_code(b, start);
        let ghost old_units = units_view(nalus@);
        if nx != start {
            push_unit(&mut nalus, vstd::slice::slice_subrange(b, start, nx));
            assert(total =~= units_view(nalus@) + annexb_units(b@, nx as int, k2 as nat));
        } else {
            assert(total =~= units_view(nalus@) + annexb_units(b@, nx as int, k2 as nat));
        }
        proof {
            lemma_next_start_code_kind(b@, start as int);
        }
        pos = nx;
        kind = k2;
    }
    nalus
}

/// The start code search ends inside the buffer, on a start code of the
/// length it reports, or at the end with length 0.
pub proof fn lemma_next_start_code_kind(b: Seq<u8>, pos: int)
    requires
        0 <= pos <= b.len(),
    ensures
        ({
            let (nx, k) = next_start_code(b, pos);
            &&& pos <= nx <= b.len()
            &&& k == 0 || k == 3 || k == 4
            &&& k == 0 ==> nx == b.len()
            &&& k == 3 ==> is_start_code3(b, nx)
            &&& k == 4 ==> is_start_code4(b, nx)
        }),
    decreases b.len() - pos,
{
    if pos < b.len() && !is_start_code4(b, pos) && !is_start_code3(b, pos) {
        lemma_next_start_code_kind(b, pos + 1);
    }
}

/// Splits a buffer into NAL units, length-prefixed (AVCC) or start-code
/// separated (Annex B), or returns it whole as `Raw`.
pub fn split_nalus(b: &[u8]) -> (r: (Vec<Vec<u8>>, NaluType))
    ensures
        units_view(r.0@) == spec_split_nalus(b@).0,
        r.1 == spec_split_nalus(b@).1,
{
    if b.len() < 4 {
        let mut whole: Vec<Vec<u8>> = Vec::new();
        push_unit(&mut whole, b);
        assert(units_view(whole@) =~= seq![b@]);
        return (whole, NaluType::Raw);
    }
    proof {
        lemma_be_bytes(b[0], b[1], b[2], b[3]);
    }
    let val3 = ((b[0] as u32) << 16) | ((b[1] as u32) << 8) | (b[2] as u32);
    let val4 = be32_of(b);
    if val4 <= b.len() as u32 {
        if let Some(nalus) = split_avcc(b, val4) {
            return (nalus, NaluType::Avcc);
        }
    }
    if val3 == 1 || val4 == 1 {
        let first: u8 = if val3 == 1 {
            3
        } else {
            4
        };
        return (split_annexb(b, first), NaluType::AnnexB);
    }
    let mut whole: Vec<Vec<u8>> = Vec::new();
    push_unit(&mut whole, b);
    assert(units_view(whole@) =~= seq![b@]);
    (whole, NaluType::Raw)
}

// ---------------------------------------------------------------------------
// Laws
// ---------------------------------------------------------------------------
/// Whether `b` holds an emulation prevention sequence `00 00 03`.
pub open spec fn has_emulation_prevention(b: Seq<u8>) -> bool {
    exists|i: int| 0 <= i && i + 2 < b.len() && #[trigger] b[i] == 0 && b[i + 1] == 0 && b[i + 2] == 3
}

/// Removing emulation prevention never makes a payload longer.
pub proof fn law_remove_emulation_shrinks(b: Seq<u8>)
    ensures
        spec_remove_emulation(b).len() <= b.len(),
    decreases b.len(),
{
    if b.len() > 0 {
        if b.len() >= 3 && b[0] == 0 && b[1] == 0 && b[2] == 3 {
            law_remove_emulation_shrinks(b.skip(3));
        } else {
            law_remove_emulation_shrinks(b.skip(1));
        }
    }
}

/// A payload without any `00 00 03` comes out of emulation prevention
/// removal unchanged.
pub proof fn law_remove_emulation_identity(b: Seq<u8>)
    requires
        !has_emulation_prevention(b),
    ensures
        spec_remove_emulation(b) == b,
    decreases b.len(),
{
    if b.len() > 0 {
        assert(!(b.len() >= 3 && b[0] == 0 && b[1] == 0 && b[2] == 3)) by {
            if b.len() >= 3 && b[0] == 0 && b[1] == 0 && b[2] == 3 {
                assert(b[0] == 0);
            }
        }
        let t = b.skip(1);
        assert(!has_emulation_prevention(t)) by {
            if has_emulation_prevention(t) {
                let i = choose|i: int| 0 <= i && i + 2 < t.len() && #[trigger] t[i] == 0 && t[i + 1] == 0 && t[i + 2] == 3;
                assert(b[i + 1] == 0);
            }
        }
        law_remove_emulation_identity(t);
        assert(seq![b[0]] + t =~= b);
    }
}

/// Each unit behind its 4-byte big-endian length.
pub open spec fn avcc_frame(units: Seq<Seq<u8>>) -> Seq<u8>
    decreases units.len(),
{
    if units.len() == 0 {
        seq![]
    } else {
        be32(units[0].len() as u32) + units[0] + avcc_frame(units.drop_first())
    }
}

proof fn lemma_be32_roundtrip(x: u32)
    ensures
        be32_at(be32(x), 0) == x,
{
    let b0 = (x >> 24u32) as u8;
    let b1 = (x >> 16u32) as u8;
    let b2 = (x >> 8u32) as u8;
    let b3 = x as u8;
    assert(b0 * 0x100_0000 + b1 * 0x1_0000 + b2 * 0x100 + b3 == x) by (bit_vector)
        requires
            b0 == (x >> 24u32) as u8,
            b1 == (x >> 16u32) as u8,
            b2 == (x >> 8u32) as u8,
            b3 == x as u8,
    ;
}

proof fn lemma_avcc_frame_len(units: Seq<Seq<u8>>)
    ensures
        avcc_frame(units).len() >= 4 * units.len(),
        units.len() > 0 ==> avcc_frame(units).len() >= 4 + units[0].len(),
    decreases units.len(),
{
    if units.len() > 0 {
        lemma_avcc_frame_len(units.drop_first());
    }
}

proof fn lemma_avcc_walk_frame(units: Seq<Seq<u8>>)
    requires
        units.len() > 0,
        forall|i: int| 0 <= i < units.len() ==> (#[trigger] units[i]).len() <= u32::MAX,
    ensures
        avcc_walk(avcc_frame(units).skip(4), units[0].len() as int) == (units, true),
    decreases units.len(),
{
    let b = avcc_frame(units);
    let rest = b.skip(4);
    let u0 = units[0];
    let tail = units.drop_first();
    lemma_avcc_frame_len(tail);
    assert(rest =~= u0 + avcc_frame(tail));
    assert(rest.take(u0.len() as int) =~= u0);
    assert(rest.skip(u0.len() as int) =~= avcc_frame(tail));
    if tail.len() == 0 {
        assert(seq![u0] =~= units);
    } else {
        let r2 = avcc_frame(tail);
        lemma_be32_roundtrip(tail[0].len() as u32);
        assert(r2.take(4) =~= be32(tail[0].len() as u32));
        assert(be32_at(r2, 0) == be32_at(be32(tail[0].len() as u32), 0));
        lemma_avcc_walk_frame(tail);
        assert(seq![u0] + tail =~= units);
    }
}

/// Length-prefixed framing is undone by `split_nalus`: framing a non-empty
/// list of units, each behind its 4-byte big-endian length, and splitting
/// the result gives the units back, as AVCC.
pub proof fn law_split_avcc_roundtrip(units: Seq<Seq<u8>>)
    requires
        units.len() > 0,
        forall|i: int| 0 <= i < units.len() ==> (#[trigger] units[i]).len() <= u32::MAX,
        avcc_frame(units).len() <= u32::MAX,
    ensures
        spec_split_nalus(avcc_frame(units)) == (units, NaluType::Avcc),
{
    let b = avcc_frame(units);
    lemma_avcc_frame_len(units);
    lemma_be32_roundtrip(units[0].len() as u32);
    assert(b.take(4) =~= be32(units[0].len() as u32));
    assert(be32_at(b, 0) == be32_at(be32(units[0].len() as u32), 0));
    lemma_avcc_walk_frame(units);
}

/// Every unit of a start-code separated buffer is non-empty and lies
/// between two start codes, or between a start code and the end.
pub proof fn law_annexb_units_nonempty(b: Seq<u8>, sc: int, kind: nat)
    ensures
        forall|i: int| 0 <= i < annexb_units(b, sc, kind).len() ==> #[trigger] annexb_units(b, sc, kind)[i].len() > 0,
    decreases b.len() - sc,
{
    let start = sc + kind;
    if !(kind == 0 || start >= b.len() || sc < 0) {
        lemma_next_start_code_kind(b, start);
        let (nx, k2) = next_start_code(b, start);
        law_annexb_units_nonempty(b, nx, k2);
        let head = if nx > start {
            seq![b.subrange(start, nx)]
        } else {
            seq![]
        };
        let rest = annexb_units(b, nx, k2);
        assert(annexb_units(b, sc, kind) == head + rest);
        assert forall|i: int| 0 <= i < annexb_units(b, sc, kind).len() implies #[trigger] annexb_units(b, sc, kind)[i].len() > 0 by {
            if i < head.len() {
            } else {
                assert(annexb_units(b, sc, kind)[i] == rest[i - head.len()]);
            }
        }
    }
}


/// The type of a slice that parses follows its `slice_type` code modulo 5
/// (codes 5 to 9 repeat 0 to 4): 0 and 3 give P, 1 gives B, 2 and 4 give I;
/// codes above 9 are refused.
pub proof fn law_h264_slice_type_mod5(packet: Seq<u8>)
    ensures
        ({
            let d = packet.skip(1);
            let (t, q) = spec_read_ue(d, spec_read_ue(d, 0).1);
            packet.len() > 1 && h264_has_slice_header(packet[0] & 0x1f) && q != failed_pos() ==> {
                &&& t > 9 ==> spec_h264_slice_type(packet) == Err::<SliceType, &'static str>(
                    "slice_type invalid",
                )
                &&& t <= 9 ==> spec_h264_slice_type(packet) == Ok::<SliceType, &'static str>(
                    if t % 5 == 1 {
                        SliceType::B
                    } else if t % 5 == 2 || t % 5 == 4 {
                        SliceType::I
                    } else {
                        SliceType::P
                    },
                )
            }
        }),
{
}

} // verus!

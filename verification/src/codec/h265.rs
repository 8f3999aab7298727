use crate::codec::h264::spec_remove_emulation;
use crate::utils::bits::{
    bit_len, bits_value, failed_pos, spec_read_bits, spec_read_ue, ue_overflows, GolombBitReader,
};
use vstd::prelude::*;

verus! {

broadcast use crate::utils::bits::group_reads;

/// The fields of an H.265 sequence parameter set that the muxers use.
#[derive(Debug, Default, Clone)]
pub struct SPSInfo {
    pub profile_idc: u32,
    pub level_idc: u32,
    pub mb_width: u32,
    pub mb_height: u32,
    pub crop_left: u32,
    pub crop_right: u32,
    pub crop_top: u32,
    pub crop_bottom: u32,
    pub width: u32,
    pub height: u32,
    pub num_temporal_layers: u32,
    pub temporal_id_nested: u32,
    pub chroma_format: u32,
    pub pic_width_in_luma_samples: u32,
    pub pic_height_in_luma_samples: u32,
    pub bit_depth_luma_minus8: u32,
    pub bit_depth_chroma_minus8: u32,
    pub general_profile_space: u32,
    pub general_tier_flag: u32,
    pub general_profile_idc: u32,
    pub general_profile_compatibility_flags: u32,
    pub general_constraint_indicator_flags: u64,
    pub general_level_idc: u32,
    pub fps: u32,
}

/// An `SPSInfo` with every field zero.
pub open spec fn sps_zero() -> SPSInfo {
    SPSInfo {
        profile_idc: 0,
        level_idc: 0,
        mb_width: 0,
        mb_height: 0,
        crop_left: 0,
        crop_right: 0,
        crop_top: 0,
        crop_bottom: 0,
        width: 0,
        height: 0,
        num_temporal_layers: 0,
        temporal_id_nested: 0,
        chroma_format: 0,
        pic_width_in_luma_samples: 0,
        pic_height_in_luma_samples: 0,
        bit_depth_luma_minus8: 0,
        bit_depth_chroma_minus8: 0,
        general_profile_space: 0,
        general_tier_flag: 0,
        general_profile_idc: 0,
        general_profile_compatibility_flags: 0,
        general_constraint_indicator_flags: 0,
        general_level_idc: 0,
        fps: 0,
    }
}

fn new_sps() -> (s: SPSInfo)
    ensures
        s == sps_zero(),
{
    SPSInfo {
        profile_idc: 0,
        level_idc: 0,
        mb_width: 0,
        mb_height: 0,
        crop_left: 0,
        crop_right: 0,
        crop_top: 0,
        crop_bottom: 0,
        width: 0,
        height: 0,
        num_temporal_layers: 0,
        temporal_id_nested: 0,
        chroma_format: 0,
        pic_width_in_luma_samples: 0,
        pic_height_in_luma_samples: 0,
        bit_depth_luma_minus8: 0,
        bit_depth_chroma_minus8: 0,
        general_profile_space: 0,
        general_tier_flag: 0,
        general_profile_idc: 0,
        general_profile_compatibility_flags: 0,
        general_constraint_indicator_flags: 0,
        general_level_idc: 0,
        fps: 0,
    }
}

/// Removes the emulation prevention bytes of an H.265 NAL unit.
pub fn remove_emulation_bytes(nal: &[u8]) -> (r: Vec<u8>)
    ensures
        r@ == spec_remove_emulation(nal@),
{
    let mut r = Vec::with_capacity(nal.len());
    let mut i: usize = 0;
    assert(nal@.skip(0) =~= nal@);
    while i < nal.len()
        invariant
            i <= nal.len(),
            spec_remove_emulation(nal@) == r@ + spec_remove_emulation(nal@.skip(i as int)),
        decreases nal.len() - i,
    {
        let ghost s = nal@.skip(i as int);
        let ghost r0 = r@;
        if nal.len() - i > 2 && nal[i] == 0 && nal[i + 1] == 0 && nal[i + 2] == 3 {
            r.push(0);
            r.push(0);
            i += 3;
            proof {
                assert(s.skip(3) =~= nal@.skip(i as int));
                assert(r@ =~= r0 + seq![0u8, 0u8]);
            }
        } else {
            r.push(nal[i]);
            i += 1;
            proof {
                assert(s.skip(1) =~= nal@.skip(i as int));
                assert(r@ =~= r0 + seq![s[0]]);
            }
        }
    }
    proof {
        assert(nal@.skip(i as int) =~= Seq::<u8>::empty());
        assert(r@ + Seq::<u8>::empty() =~= r@);
    }
    r
}

// ---------------------------------------------------------------------------
// Profile, tier and level
// ---------------------------------------------------------------------------
/// Merging the general profile, tier and level of `ptl` into `ctx`: the
/// profile space is taken; a higher tier brings its level, else a higher
/// level is taken; a higher profile is taken; the compatibility and
/// constraint flags are intersected.
pub open spec fn spec_update_ptl(ctx: SPSInfo, ptl: SPSInfo) -> SPSInfo {
    let (tier, level) = if ptl.general_tier_flag > ctx.general_tier_flag {
        (ptl.general_tier_flag, ptl.general_level_idc)
    } else if ptl.general_level_idc > ctx.general_level_idc {
        (ctx.general_tier_flag, ptl.general_level_idc)
    } else {
        (ctx.general_tier_flag, ctx.general_level_idc)
    };
    SPSInfo {
        general_profile_space: ptl.general_profile_space,
        general_tier_flag: tier,
        general_level_idc: level,
        general_profile_idc: if ptl.general_profile_idc > ctx.general_profile_idc {
            ptl.general_profile_idc
        } else {
            ctx.general_profile_idc
        },
        general_profile_compatibility_flags: ctx.general_profile_compatibility_flags
            & ptl.general_profile_compatibility_flags,
        general_constraint_indicator_flags: ctx.general_constraint_indicator_flags
            & ptl.general_constraint_indicator_flags,
        ..ctx
    }
}

fn update_ptl(ctx: &mut SPSInfo, ptl: &SPSInfo)
    ensures
        *final(ctx) == spec_update_ptl(*old(ctx), *ptl),
{
    ctx.general_profile_space = ptl.general_profile_space;
    if ptl.general_tier_flag > ctx.general_tier_flag {
        ctx.general_level_idc = ptl.general_level_idc;
        ctx.general_tier_flag = ptl.general_tier_flag;
    } else if ptl.general_level_idc > ctx.general_level_idc {
        ctx.general_level_idc = ptl.general_level_idc;
    }
    if ptl.general_profile_idc > ctx.general_profile_idc {
        ctx.general_profile_idc = ptl.general_profile_idc;
    }
    ctx.general_profile_compatibility_flags &= ptl.general_profile_compatibility_flags;
    ctx.general_constraint_indicator_flags &= ptl.general_constraint_indicator_flags;
}

/// The general profile, tier and level fields: profile space (2 bits),
/// tier (1), profile (5), 32 compatibility flags, 48 constraint flags and
/// the level (8).
pub open spec fn ptl_general(d: Seq<u8>, p: int) -> (SPSInfo, int) {
    let (space, p) = spec_read_bits(d, p, 2);
    let (tier, p) = spec_read_bits(d, p, 1);
    let (profile, p) = spec_read_bits(d, p, 5);
    let (a, p) = spec_read_bits(d, p, 16);
    let (b, p) = spec_read_bits(d, p, 16);
    let (c1, p) = spec_read_bits(d, p, 16);
    let (c2, p) = spec_read_bits(d, p, 16);
    let (c3, p) = spec_read_bits(d, p, 16);
    let (level, p) = spec_read_bits(d, p, 8);
    (
        SPSInfo {
            general_profile_space: space,
            general_tier_flag: tier,
            general_profile_idc: profile,
            general_profile_compatibility_flags: (a * 65536 + b) as u32,
            general_constraint_indicator_flags: (c1 * 0x1_0000_0000 + c2 * 0x1_0000 + c3) as u64,
            general_level_idc: level,
            ..sps_zero()
        },
        p,
    )
}

/// The sub-layer presence flags from sub-layer `i` on: a profile flag and a
/// level flag for each.
pub open spec fn sub_layer_flags(d: Seq<u8>, p: int, i: nat, n: nat) -> (Seq<(u32, u32)>, int)
    decreases n - i,
{
    if i >= n {
        (seq![], p)
    } else {
        let (pf, p) = spec_read_bits(d, p, 1);
        let (lf, p) = spec_read_bits(d, p, 1);
        let (rest, p) = sub_layer_flags(d, p, i + 1, n);
        (seq![(pf, lf)] + rest, p)
    }
}

/// `n` reads of `k` bits each.
pub open spec fn skip_reads(d: Seq<u8>, p: int, n: nat, k: nat) -> int
    decreases n,
{
    if n == 0 {
        p
    } else {
        skip_reads(d, spec_read_bits(d, p, k).1, (n - 1) as nat, k)
    }
}

/// The sub-layer profile (88 bits) and level (8 bits) fields that the flags
/// from sub-layer `i` on announce.
pub open spec fn sub_layer_info(d: Seq<u8>, p: int, flags: Seq<(u32, u32)>, i: nat) -> int
    decreases flags.len() - i,
{
    if i >= flags.len() {
        p
    } else {
        let p = if flags[i as int].0 != 0 {
            spec_read_bits(d, skip_reads(d, p, 5, 16), 8).1
        } else {
            p
        };
        let p = if flags[i as int].1 != 0 {
            spec_read_bits(d, p, 8).1
        } else {
            p
        };
        sub_layer_info(d, p, flags, i + 1)
    }
}

/// The profile, tier and level structure for `max_sub_layers_minus1`
/// sub-layers, merged into `ctx`.
pub open spec fn spec_ptl(d: Seq<u8>, p: int, ctx: SPSInfo, max_sub_layers_minus1: u32) -> (SPSInfo, int) {
    let (ptl, p) = ptl_general(d, p);
    let ctx = spec_update_ptl(ctx, ptl);
    if max_sub_layers_minus1 == 0 {
        (ctx, p)
    } else {
        let (flags, p) = sub_layer_flags(d, p, 0, max_sub_layers_minus1 as nat);
        let p = skip_reads(d, p, (8 - max_sub_layers_minus1) as nat, 2);
        (ctx, sub_layer_info(d, p, flags, 0))
    }
}

fn read_ptl_general(br: &mut GolombBitReader) -> (res: Result<SPSInfo, &'static str>)
    requires
        old(br).wf(),
    ensures
        final(br).wf(),
        final(br).data() == old(br).data(),
        ({
            let (ptl, p) = ptl_general(old(br).data(), old(br).pos());
            match res {
                Ok(v) => p != failed_pos() && final(br).pos() == p && v == ptl,
                Err(e) => p == failed_pos() && e == "EOF",
            }
        }),
{
    let general_profile_space = br.read_bits(2)?;
    let general_tier_flag = br.read_bit()?;
    let general_profile_idc = br.read_bits(5)?;
    let hi = br.read_bits(16)?;
    let lo = br.read_bits(16)?;
    let c1 = br.read_bits(16)?;
    let c2 = br.read_bits(16)?;
    let c3 = br.read_bits(16)?;
    let general_level_idc = br.read_bits(8)?;
    proof {
        vstd::arithmetic::power2::lemma2_to64();
        let d = old(br).data();
        let p = old(br).pos();
        crate::utils::bits::lemma_bits_value_bound(d, p + 8, 16);
        crate::utils::bits::lemma_bits_value_bound(d, p + 24, 16);
        crate::utils::bits::lemma_bits_value_bound(d, p + 40, 16);
        crate::utils::bits::lemma_bits_value_bound(d, p + 56, 16);
        crate::utils::bits::lemma_bits_value_bound(d, p + 72, 16);
        lemma_join_halves(hi, lo, c1, c2, c3);
    }
    let general_profile_compatibility_flags = hi << 16 | lo;
    let general_constraint_indicator_flags = ((c1 as u64) << 32) | ((c2 as u64) << 16) | (c3 as u64);
    let mut ptl = new_sps();
    ptl.general_profile_space = general_profile_space;
    ptl.general_tier_flag = general_tier_flag;
    ptl.general_profile_idc = general_profile_idc;
    ptl.general_profile_compatibility_flags = general_profile_compatibility_flags;
    ptl.general_constraint_indicator_flags = general_constraint_indicator_flags;
    ptl.general_level_idc = general_level_idc;
    Ok(ptl)
}

proof fn lemma_join_halves(hi: u32, lo: u32, c1: u32, c2: u32, c3: u32)
    requires
        hi < 65536,
        lo < 65536,
        c1 < 65536,
        c2 < 65536,
        c3 < 65536,
    ensures
        (hi << 16u32) | lo == hi * 65536 + lo,
        ((c1 as u64) << 32u64) | ((c2 as u64) << 16u64) | (c3 as u64) == c1 * 0x1_0000_0000 + c2
            * 0x1_0000 + c3,
{
    assert((hi << 16u32) | lo == hi * 65536 + lo) by (bit_vector)
        requires
            hi < 65536,
            lo < 65536,
    ;
    assert(((c1 as u64) << 32u64) | ((c2 as u64) << 16u64) | (c3 as u64) == c1 * 0x1_0000_0000
        + c2 * 0x1_0000 + c3) by (bit_vector)
        requires
            c1 < 65536,
            c2 < 65536,
            c3 < 65536,
    ;
}

fn parse_ptl(br: &mut GolombBitReader, ctx: &mut SPSInfo, max_sub_layers_minus1: u32) -> (res: Result<(), &'static str>)
    requires
        old(br).wf(),
        max_sub_layers_minus1 < 8,
    ensures
        final(br).wf(),
        final(br).data() == old(br).data(),
        ({
            let (c2, p) = spec_ptl(old(br).data(), old(br).pos(), *old(ctx), max_sub_layers_minus1);
            match res {
                Ok(_) => p != failed_pos() && final(br).pos() == p && *final(ctx) == c2,
                Err(e) => p == failed_pos() && e == "EOF",
            }
        }),
{
    let ghost d = br.data();
    let ghost n0 = max_sub_layers_minus1 as nat;
    let ghost p1 = ptl_general(d, br.pos()).1;
    let ghost ff = sub_layer_flags(d, p1, 0, n0);
    let ghost p3 = skip_reads(d, ff.1, (8 - n0) as nat, 2);
    proof {
        lemma_sub_layer_flags_failed(d, 0, n0);
        lemma_skip_reads_failed(d, (8 - n0) as nat, 2);
        lemma_sub_layer_info_failed(d, ff.0, 0);
    }
    let ptl = read_ptl_general(br)?;
    update_ptl(ctx, &ptl);
    if max_sub_layers_minus1 == 0 {
        return Ok(());
    }
    let n = max_sub_layers_minus1 as usize;
    let ghost total = spec_ptl(old(br).data(), old(br).pos(), *old(ctx), max_sub_layers_minus1);
    assert(total.1 == sub_layer_info(d, p3, ff.0, 0));
    assert(total.0 == *ctx);
    // Presence flags of each sub-layer.
    let mut sub_layer_profile_present_flag: Vec<u32> = Vec::new();
    let mut sub_layer_level_present_flag: Vec<u32> = Vec::new();
    let ghost mut flags: Seq<(u32, u32)> = Seq::empty();
    let mut i: usize = 0;
    proof {
        br.lemma_pos_in_range();
        assert(flags + ff.0 =~= ff.0);
    }
    while i < n
        invariant
            br.wf(),
            br.data() == d,
            d == old(br).data(),
            i <= n,
            n == n0,
            n < 8,
            br.pos() >= 0,
            total.1 == sub_layer_info(d, p3, ff.0, 0),
            total.0 == *ctx,
            total == spec_ptl(old(br).data(), old(br).pos(), *old(ctx), max_sub_layers_minus1),
            sub_layer_profile_present_flag@.len() == i,
            sub_layer_level_present_flag@.len() == i,
            flags.len() == i,
            forall|j: int|
                0 <= j < i ==> #[trigger] flags[j] == (
                    sub_layer_profile_present_flag@[j],
                    sub_layer_level_present_flag@[j],
                ),
            ff.1 == sub_layer_flags(d, br.pos(), i as nat, n0).1,
            ff.0 == flags + sub_layer_flags(d, br.pos(), i as nat, n0).0,
            p3 == skip_reads(d, ff.1, (8 - n0) as nat, 2),
            p3 == failed_pos() ==> sub_layer_info(d, p3, ff.0, 0) == failed_pos(),
            ff.1 == failed_pos() ==> p3 == failed_pos(),
        decreases n - i,
    {
        proof {
            lemma_sub_layer_flags_failed(d, (i + 1) as nat, n0);
        }
        let pf = br.read_bit()?;
        let lf = br.read_bit()?;
        sub_layer_profile_present_flag.push(pf);
        sub_layer_level_present_flag.push(lf);
        proof {
            let rest = sub_layer_flags(d, br.pos(), (i + 1) as nat, n0).0;
            assert(flags.push((pf, lf)) + rest =~= flags + (seq![(pf, lf)] + rest));
            flags = flags.push((pf, lf));
            br.lemma_pos_in_range();
        }
        i += 1;
    }
    proof {
        assert(flags + Seq::<(u32, u32)>::empty() =~= flags);
    }
    // Reserved bits up to 8 sub-layers.
    let mut k: usize = n;
    while k < 8
        invariant
            br.wf(),
            br.data() == d,
            d == old(br).data(),
            n <= k <= 8,
            n == n0,
            br.pos() >= 0,
            total.1 == sub_layer_info(d, p3, ff.0, 0),
            total.0 == *ctx,
            total == spec_ptl(old(br).data(), old(br).pos(), *old(ctx), max_sub_layers_minus1),
            p3 == skip_reads(d, br.pos(), (8 - k) as nat, 2),
            p3 == failed_pos() ==> sub_layer_info(d, p3, ff.0, 0) == failed_pos(),
        decreases 8 - k,
    {
        proof {
            lemma_skip_reads_failed(d, (8 - k - 1) as nat, 2);
        }
        br.read_bits(2)?;  // reserved_zero_2bits
        proof {
            br.lemma_pos_in_range();
        }
        k += 1;
    }
    // Sub-layer profile and level fields.
    let mut j: usize = 0;
    while j < n
        invariant
            br.wf(),
            br.data() == d,
            d == old(br).data(),
            j <= n,
            n == n0,
            br.pos() >= 0,
            total.1 == sub_layer_info(d, p3, ff.0, 0),
            total.0 == *ctx,
            total == spec_ptl(old(br).data(), old(br).pos(), *old(ctx), max_sub_layers_minus1),
            sub_layer_profile_present_flag@.len() == n,
            sub_layer_level_present_flag@.len() == n,
            flags == ff.0,
            flags.len() == n,
            forall|q: int|
                0 <= q < n ==> #[trigger] flags[q] == (
                    sub_layer_profile_present_flag@[q],
                    sub_layer_level_present_flag@[q],
                ),
            sub_layer_info(d, p3, ff.0, 0) == sub_layer_info(d, br.pos(), flags, j as nat),
        decreases n - j,
    {
        proof {
            lemma_sub_layer_info_failed(d, flags, (j + 1) as nat);
            lemma_skip_reads_failed(d, 5, 16);
            let _ = flags[j as int];
            reveal_with_fuel(skip_reads, 6);
        }
        if sub_layer_profile_present_flag[j] != 0 {
            // profile space, tier, profile, compatibility and constraint flags
            br.read_bits(16)?;
            br.read_bits(16)?;
            br.read_bits(16)?;
            br.read_bits(16)?;
            br.read_bits(16)?;
            br.read_bits(8)?;
        }
        if sub_layer_level_present_flag[j] != 0 {
            br.read_bits(8)?;  // sub_layer_level_idc
        }
        proof {
            br.lemma_pos_in_range();
        }
        j += 1;
    }
    Ok(())
}

proof fn lemma_ptl_failed(d: Seq<u8>, m: u32)
    requires
        m < 8,
    ensures
        forall|ctx: SPSInfo| #[trigger] spec_ptl(d, failed_pos(), ctx, m).1 == failed_pos(),
{
    lemma_sub_layer_flags_failed(d, 0, m as nat);
    lemma_skip_reads_failed(d, (8 - m) as nat, 2);
    let ff = sub_layer_flags(d, failed_pos(), 0, m as nat);
    lemma_sub_layer_info_failed(d, ff.0, 0);
}

proof fn lemma_sub_layer_flags_failed(d: Seq<u8>, i: nat, n: nat)
    ensures
        sub_layer_flags(d, failed_pos(), i, n).1 == failed_pos(),
    decreases n - i,
{
    if i < n {
        lemma_sub_layer_flags_failed(d, i + 1, n);
    }
}

proof fn lemma_skip_reads_failed(d: Seq<u8>, n: nat, k: nat)
    ensures
        skip_reads(d, failed_pos(), n, k) == failed_pos(),
    decreases n,
{
    if n > 0 {
        lemma_skip_reads_failed(d, (n - 1) as nat, k);
    }
}

proof fn lemma_sub_layer_info_failed(d: Seq<u8>, flags: Seq<(u32, u32)>, i: nat)
    ensures
        sub_layer_info(d, failed_pos(), flags, i) == failed_pos(),
    decreases flags.len() - i,
{
    lemma_skip_reads_failed(d, 5, 16);
    if i < flags.len() {
        lemma_sub_layer_info_failed(d, flags, i + 1);
    }
}

// ---------------------------------------------------------------------------
// Sequence parameter set
// ---------------------------------------------------------------------------
/// The start of an H.265 SPS RBSP: `sps_video_parameter_set_id` (4 bits),
/// `sps_max_sub_layers_minus1` (3) and `sps_temporal_id_nesting_flag` (1).
/// Returns the fields set so far, `sps_max_sub_layers_minus1` and the
/// position.
pub open spec fn h265_head(d: Seq<u8>) -> (SPSInfo, u32, int) {
    let p = spec_read_bits(d, 0, 4).1;
    let (m, p) = spec_read_bits(d, p, 3);
    let (tid, p) = spec_read_bits(d, p, 1);
    (SPSInfo { num_temporal_layers: (m + 1) as u32, temporal_id_nested: tid, ..sps_zero() }, m, p)
}

/// `n` unsigned codes in a row: the position after them and whether one of
/// them overflows.
pub open spec fn ue_repeat(d: Seq<u8>, p: int, n: nat) -> (int, bool)
    decreases n,
{
    if p < 0 || n == 0 {
        (p, false)
    } else {
        let o = ue_overflows(d, p);
        let (r, o2) = ue_repeat(d, spec_read_ue(d, p).1, (n - 1) as nat);
        (r, o || o2)
    }
}

/// The picture format fields: parameter set id, chroma format, picture
/// size, conformance window, bit depths.
pub open spec fn h265_picture(d: Seq<u8>, p: int, ctx: SPSInfo) -> (SPSInfo, int, bool) {
    let o1 = ue_overflows(d, p);
    let p = spec_read_ue(d, p).1;
    let o2 = ue_overflows(d, p);
    let (chroma, p) = spec_read_ue(d, p);
    let p = if chroma == 3 {
        spec_read_bits(d, p, 1).1
    } else {
        p
    };
    let o3 = ue_overflows(d, p);
    let (w, p) = spec_read_ue(d, p);
    let o4 = ue_overflows(d, p);
    let (h, p) = spec_read_ue(d, p);
    let (cw, p) = spec_read_bits(d, p, 1);
    let (p, o5) = if cw != 0 {
        ue_repeat(d, p, 4)
    } else {
        (p, false)
    };
    let o6 = ue_overflows(d, p);
    let (bdl, p) = spec_read_ue(d, p);
    let o7 = ue_overflows(d, p);
    let (bdc, p) = spec_read_ue(d, p);
    (
        SPSInfo {
            chroma_format: chroma,
            pic_width_in_luma_samples: w,
            width: w,
            pic_height_in_luma_samples: h,
            height: h,
            bit_depth_luma_minus8: bdl,
            bit_depth_chroma_minus8: bdc,
            ..ctx
        },
        p,
        o1 || o2 || o3 || o4 || o5 || o6 || o7,
    )
}

/// The picture order count size, the sub-layer ordering information (for
/// every sub-layer, or the highest only) and the coding block sizes.
pub open spec fn h265_tail(d: Seq<u8>, p: int, m: u32) -> (int, bool) {
    let o1 = ue_overflows(d, p);
    let p = spec_read_ue(d, p).1;
    let (flag, p) = spec_read_bits(d, p, 1);
    let start: u32 = if flag != 0 {
        0
    } else {
        m
    };
    let (p, o2) = ue_repeat(d, p, (3 * (m - start + 1)) as nat);
    let (p, o3) = ue_repeat(d, p, 6);
    (p, o1 || o2 || o3)
}

/// Parsing an H.265 SPS RBSP (after the 2-byte NAL header, emulation
/// prevention removed): the fields, the final position (`failed_pos()` when
/// the data ends early) and whether an Exp-Golomb code overflows.
pub open spec fn spec_h265_sps(d: Seq<u8>) -> (SPSInfo, int, bool) {
    let (ctx, m, p) = h265_head(d);
    let (ctx, p) = spec_ptl(d, p, ctx, m);
    let (ctx, p, o1) = h265_picture(d, p, ctx);
    let (p, o2) = h265_tail(d, p, m);
    (ctx, p, o1 || o2)
}

/// Whether parsing the SPS NAL unit `data` overflows.
pub open spec fn h265_sps_overflows(data: Seq<u8>) -> bool {
    data.len() >= 2 && spec_h265_sps(spec_remove_emulation(data.skip(2))).2
}

/// The result of parsing the SPS NAL unit `data`.
pub open spec fn spec_parse_h265_sps(data: Seq<u8>) -> Result<SPSInfo, &'static str> {
    if data.len() < 2 {
        Err("Incorrect Unit Size")
    } else {
        let (s, p, _) = spec_h265_sps(spec_remove_emulation(data.skip(2)));
        if p == failed_pos() {
            Err("EOF")
        } else {
            Ok(s)
        }
    }
}

fn skip_ue(r: &mut GolombBitReader, n: u32) -> (res: Result<(), &'static str>)
    requires
        old(r).wf(),
    ensures
        final(r).wf(),
        final(r).data() == old(r).data(),
        ue_repeat(old(r).data(), old(r).pos(), n as nat).1 ==> res == Err::<(), &'static str>(
            "value out of range",
        ),
        !ue_repeat(old(r).data(), old(r).pos(), n as nat).1 ==> ({
            let (p, _) = ue_repeat(old(r).data(), old(r).pos(), n as nat);
            match res {
                Ok(_) => p != failed_pos() && final(r).pos() == p,
                Err(e) => p == failed_pos() && e == "EOF",
            }
        }),
{
    let ghost d = r.data();
    proof {
        r.lemma_pos_in_range();
    }
    let mut j: u32 = 0;
    while j < n
        invariant
            r.wf(),
            r.data() == d,
            d == old(r).data(),
            j <= n,
            r.pos() >= 0,
            ue_repeat(d, old(r).pos(), n as nat).1 == ue_repeat(d, r.pos(), (n - j) as nat).1,
            ue_repeat(d, old(r).pos(), n as nat).0 == ue_repeat(d, r.pos(), (n - j) as nat).0,
        decreases n - j,
    {
        proof {
            assert(ue_repeat(d, failed_pos(), (n - j - 1) as nat) == (failed_pos(), false));
        }
        r.read_exponential_golomb_checked()?;
        proof {
            r.lemma_pos_in_range();
        }
        j += 1;
    }
    Ok(())
}

fn read_picture(br: &mut GolombBitReader, ctx: &mut SPSInfo) -> (res: Result<(), &'static str>)
    requires
        old(br).wf(),
    ensures
        final(br).wf(),
        final(br).data() == old(br).data(),
        h265_picture(old(br).data(), old(br).pos(), *old(ctx)).2 ==> res == Err::<(), &'static str>(
            "value out of range",
        ),
        !h265_picture(old(br).data(), old(br).pos(), *old(ctx)).2 ==> ({
            let (c2, p, _) = h265_picture(old(br).data(), old(br).pos(), *old(ctx));
            match res {
                Ok(_) => p != failed_pos() && final(br).pos() == p && *final(ctx) == c2,
                Err(e) => p == failed_pos() && e == "EOF",
            }
        }),
{
    br.read_exponential_golomb_checked()?;  // sps_seq_parameter_set_id
    ctx.chroma_format = br.read_exponential_golomb_checked()?;
    if ctx.chroma_format == 3 {
        br.read_bit()?;  // separate_colour_plane_flag
    }
    ctx.pic_width_in_luma_samples = br.read_exponential_golomb_checked()?;
    ctx.width = ctx.pic_width_in_luma_samples;
    ctx.pic_height_in_luma_samples = br.read_exponential_golomb_checked()?;
    ctx.height = ctx.pic_height_in_luma_samples;
    let conformance_window_flag = br.read_bit()?;
    proof {
        assert(ue_repeat(old(br).data(), failed_pos(), 4) == (failed_pos(), false));
    }
    if conformance_window_flag != 0 {
        // left, right, top and bottom offsets
        skip_ue(br, 4)?;
    }
    ctx.bit_depth_luma_minus8 = br.read_exponential_golomb_checked()?;
    ctx.bit_depth_chroma_minus8 = br.read_exponential_golomb_checked()?;
    Ok(())
}

fn skip_tail(br: &mut GolombBitReader, sps_max_sub_layers_minus1: u32) -> (res: Result<(), &'static str>)
    requires
        old(br).wf(),
        sps_max_sub_layers_minus1 < 8,
    ensures
        final(br).wf(),
        final(br).data() == old(br).data(),
        h265_tail(old(br).data(), old(br).pos(), sps_max_sub_layers_minus1).1 ==> res == Err::<
            (),
            &'static str,
        >("value out of range"),
        !h265_tail(old(br).data(), old(br).pos(), sps_max_sub_layers_minus1).1 ==> ({
            let (p, _) = h265_tail(old(br).data(), old(br).pos(), sps_max_sub_layers_minus1);
            match res {
                Ok(_) => p != failed_pos() && final(br).pos() == p,
                Err(e) => p == failed_pos() && e == "EOF",
            }
        }),
{
    proof {
        assert(ue_repeat(old(br).data(), failed_pos(), 6) == (failed_pos(), false));
        assert forall|k: nat| ue_repeat(old(br).data(), failed_pos(), k) == (failed_pos(), false) by {}
    }
    br.read_exponential_golomb_checked()?;  // log2_max_pic_order_cnt_lsb_minus4
    let sps_sub_layer_ordering_info_present_flag = br.read_bit()?;
    let start_idx = if sps_sub_layer_ordering_info_present_flag != 0 {
        0
    } else {
        sps_max_sub_layers_minus1
    };
    // max_dec_pic_buffering_minus1, max_num_reorder_pics and
    // max_latency_increase_plus1 of each sub-layer from start_idx on
    skip_ue(br, 3 * (sps_max_sub_layers_minus1 - start_idx + 1))?;
    // log2_min_luma_coding_block_size_minus3, log2_diff_max_min_luma_coding_block_size,
    // log2_min_luma_transform_block_size_minus2, log2_diff_max_min_luma_transform_block_size,
    // max_transform_hierarchy_depth_inter, max_transform_hierarchy_depth_intra
    skip_ue(br, 6)?;
    Ok(())
}

/// Parses an H.265 sequence parameter set NAL unit (2-byte header included).
pub fn parse_sps(sps: &[u8]) -> (res: Result<SPSInfo, &'static str>)
    requires
        !h265_sps_overflows(sps@),
    ensures
        res == spec_parse_h265_sps(sps@),
{
    parse_sps_checked(sps)
}

/// `parse_sps`, for every input: where an Exp-Golomb code of the SPS is too
/// long to read, fails with `"value out of range"`.
pub fn parse_sps_checked(sps: &[u8]) -> (res: Result<SPSInfo, &'static str>)
    ensures
        h265_sps_overflows(sps@) ==> res == Err::<SPSInfo, &'static str>("value out of range"),
        !h265_sps_overflows(sps@) ==> res == spec_parse_h265_sps(sps@),
{
    if sps.len() < 2 {
        return Err("Incorrect Unit Size");
    }
    let body = vstd::slice::slice_subrange(sps, 2, sps.len());
    assert(body@ == sps@.skip(2));
    let rbsp = remove_emulation_bytes(body);
    let ghost d = rbsp@;
    let mut br = GolombBitReader::new(rbsp.as_slice());
    proof {
        lemma_ptl_failed(d, 0);
    }
    br.read_bits(4)?;  // sps_video_parameter_set_id
    let sps_max_sub_layers_minus1 = br.read_bits(3)?;
    proof {
        vstd::arithmetic::power2::lemma2_to64();
        crate::utils::bits::lemma_bits_value_bound(d, 4, 3);
    }
    let mut ctx = new_sps();
    ctx.num_temporal_layers = sps_max_sub_layers_minus1 + 1;
    proof {
        lemma_ptl_failed(d, sps_max_sub_layers_minus1);
    }
    ctx.temporal_id_nested = br.read_bit()?;
    parse_ptl(&mut br, &mut ctx, sps_max_sub_layers_minus1)?;
    read_picture(&mut br, &mut ctx)?;
    skip_tail(&mut br, sps_max_sub_layers_minus1)?;
    Ok(ctx)
}


proof fn lemma_ue_repeat_failed(d: Seq<u8>, n: nat)
    ensures
        ue_repeat(d, failed_pos(), n).0 == failed_pos(),
{
}

/// Picture format and tail fields read from a failed position stay failed.
proof fn lemma_picture_tail_failed(d: Seq<u8>, ctx: SPSInfo, m: u32)
    ensures
        h265_picture(d, failed_pos(), ctx).1 == failed_pos(),
        h265_tail(d, failed_pos(), m).0 == failed_pos(),
{
    lemma_ue_repeat_failed(d, 4);
    lemma_ue_repeat_failed(d, 6);
    assert forall|k: nat| #[trigger] ue_repeat(d, failed_pos(), k).0 == failed_pos() by {
        lemma_ue_repeat_failed(d, k);
    }
}

/// An SPS that parses reports the general profile space, tier, profile and
/// level exactly as its profile_tier_level structure holds them (the 2, 1,
/// 5 and 8 bits at RBSP bits 8, 10, 11 and 96), whatever the tier, and the
/// sub-layer count and temporal nesting flag of its first byte.
#[verifier::spinoff_prover]
pub proof fn law_h265_sps_ptl_fields(data: Seq<u8>)
    ensures
        spec_parse_h265_sps(data) is Ok ==> ({
            let d = spec_remove_emulation(data.skip(2));
            let v = spec_parse_h265_sps(data)->Ok_0;
            &&& v.general_profile_space == bits_value(d, 8, 2)
            &&& v.general_tier_flag == bits_value(d, 10, 1)
            &&& v.general_profile_idc == bits_value(d, 11, 5)
            &&& v.general_level_idc == bits_value(d, 96, 8)
            &&& v.num_temporal_layers == bits_value(d, 4, 3) + 1
            &&& v.temporal_id_nested == bits_value(d, 7, 1)
        }),
{
    if data.len() >= 2 {
        let d = spec_remove_emulation(data.skip(2));
        reveal(spec_read_bits);
        vstd::arithmetic::power2::lemma2_to64();
        crate::utils::bits::lemma_bits_value_bound(d, 4, 3);
        crate::utils::bits::lemma_bits_value_bound(d, 8, 2);
        crate::utils::bits::lemma_bits_value_bound(d, 10, 1);
        crate::utils::bits::lemma_bits_value_bound(d, 11, 5);
        crate::utils::bits::lemma_bits_value_bound(d, 96, 8);
        crate::utils::bits::lemma_bits_value_bound(d, 7, 1);
        let (ctx, m, p) = h265_head(d);
        let (ptl, p1) = ptl_general(d, p);
        lemma_ptl_failed(d, m);
        lemma_sub_layer_flags_failed(d, 0, m as nat);
        lemma_skip_reads_failed(d, (8 - m) as nat, 2);
        let ff = sub_layer_flags(d, failed_pos(), 0, m as nat);
        lemma_sub_layer_info_failed(d, ff.0, 0);
        let (ctx2, p2) = spec_ptl(d, p, ctx, m);
        lemma_picture_tail_failed(d, spec_update_ptl(ctx, ptl), m);
        if p1 == failed_pos() {
            assert(p2 == failed_pos());
            lemma_picture_tail_failed(d, ctx2, m);
            assert(spec_parse_h265_sps(data) is Err);
        } else {
            assert(bit_len(d) >= 104);
            assert(ctx2 == spec_update_ptl(ctx, ptl));
        }
    }
}

// ---------------------------------------------------------------------------
// Slice header
// ---------------------------------------------------------------------------
/// The coding type of a slice.
#[derive(Debug, Clone, Copy, PartialEq, Eq, Structural)]
pub enum SliceType {
    P,
    B,
    I,
}

/// The slice type that a `slice_type` code stands for, or `None` for codes
/// above 9.
pub open spec fn slice_type_of(t: u32) -> Option<SliceType> {
    if t == 0 || t == 3 || t == 5 || t == 8 {
        Some(SliceType::P)
    } else if t == 1 || t == 6 {
        Some(SliceType::B)
    } else if t == 2 || t == 4 || t == 7 || t == 9 {
        Some(SliceType::I)
    } else {
        None
    }
}

fn slice_type_from_code(t: u32) -> (r: Option<SliceType>)
    ensures
        r == slice_type_of(t),
{
    match t {
        0 | 3 | 5 | 8 => Some(SliceType::P),
        1 | 6 => Some(SliceType::B),
        2 | 4 | 7 | 9 => Some(SliceType::I),
        _ => None,
    }
}

/// Whether an H.265 NAL unit type is a slice (trailing, TSA, STSA, RADL,
/// RASL, BLA, IDR or CRA).
pub open spec fn h265_has_slice_header(nal_unit_type: u8) -> bool {
    nal_unit_type <= 9 || (16 <= nal_unit_type <= 21)
}

/// The slice type of an H.265 slice NAL unit: after the 2-byte NAL header,
/// two `ue(v)` codes, the second read as the slice type.
pub open spec fn spec_h265_slice_type(packet: Seq<u8>) -> Result<SliceType, &'static str> {
    if packet.len() <= 2 {
        Err("packet too short to parse slice header")
    } else if !h265_has_slice_header((packet[0] >> 1u8) & 0x3f) {
        Err("nal_unit_type has no slice header")
    } else {
        let d = packet.skip(2);
        let p = spec_read_ue(d, 0).1;
        let (t, p) = spec_read_ue(d, p);
        if p == failed_pos() {
            Err("EOF")
        } else {
            match slice_type_of(t) {
                Some(st) => Ok(st),
                None => Err("slice_type invalid"),
            }
        }
    }
}

/// Whether one of the two codes `spec_h265_slice_type` reads overflows.
pub open spec fn h265_slice_overflows(packet: Seq<u8>) -> bool {
    &&& packet.len() > 2
    &&& h265_has_slice_header((packet[0] >> 1u8) & 0x3f)
    &&& {
        let d = packet.skip(2);
        ue_overflows(d, 0) || ue_overflows(d, spec_read_ue(d, 0).1)
    }
}

/// Reads the slice type from the header of an H.265 slice NAL unit.
pub fn parse_slice_header_from_nalu(packet: &[u8]) -> (r: Result<SliceType, &'static str>)
    requires
        !h265_slice_overflows(packet@),
    ensures
        r == spec_h265_slice_type(packet@),
{
    if packet.len() <= 2 {
        return Err("packet too short to parse slice header");
    }
    let nal_unit_type = (packet[0] >> 1) & 0x3f;
    if !(nal_unit_type <= 9 || (16 <= nal_unit_type && nal_unit_type <= 21)) {
        return Err("nal_unit_type has no slice header");
    }
    let body = vstd::slice::slice_subrange(packet, 2, packet.len());
    assert(body@ == packet@.skip(2));
    let mut r = GolombBitReader::new(body);
    r.read_exponential_golomb()?;  // slice_pic_parameter_set_id
    let slice_type = r.read_exponential_golomb()?;
    match slice_type_from_code(slice_type) {
        Some(st) => Ok(st),
        None => Err("slice_type invalid"),
    }
}

/// `parse_slice_header_from_nalu`, for every input: where one of the two
/// codes it reads is too long to read, fails with
/// `"value out of range"`.
pub fn parse_slice_header_from_nalu_checked(packet: &[u8]) -> (r: Result<SliceType, &'static str>)
    ensures
        h265_slice_overflows(packet@) ==> r == Err::<SliceType, &'static str>("value out of range"),
        !h265_slice_overflows(packet@) ==> r == spec_h265_slice_type(packet@),
{
    let has_header = packet.len() > 2 && {
        let t = (packet[0] >> 1) & 0x3f;
        t <= 9 || (16 <= t && t <= 21)
    };
    if has_header {
        let body = vstd::slice::slice_subrange(packet, 2, packet.len());
        assert(body@ == packet@.skip(2));
        let mut r = GolombBitReader::new(body);
        if r.ue_overflows_here() {
            return Err("value out of range");
        }
        if r.read_exponential_golomb().is_ok() && r.ue_overflows_here() {
            return Err("value out of range");
        }
    }
    parse_slice_header_from_nalu(packet)
}


/// The type of a slice that parses follows its `slice_type` code modulo 5
/// (codes 5 to 9 repeat 0 to 4): 0 and 3 give P, 1 gives B, 2 and 4 give I;
/// codes above 9 are refused.
pub proof fn law_h265_slice_type_mod5(packet: Seq<u8>)
    ensures
        ({
            let d = packet.skip(2);
            let (t, q) = spec_read_ue(d, spec_read_ue(d, 0).1);
            packet.len() > 2 && h265_has_slice_header((packet[0] >> 1u8) & 0x3f) && q != failed_pos() ==> {
                &&& t > 9 ==> spec_h265_slice_type(packet) == Err::<SliceType, &'static str>(
                    "slice_type invalid",
                )
                &&& t <= 9 ==> spec_h265_slice_type(packet) == Ok::<SliceType, &'static str>(
                    if t % 5 == 1 {
                        SliceType::B
                    } else if t % 5 == 2 || t % 5 == 4 {
                        SliceType::I
                    } else {
                        SliceType::P
                    },
                )
            }
        }),
{
}

} // verus!

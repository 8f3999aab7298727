use vstd::arithmetic::power2::*;
use vstd::prelude::*;

verus! {

/// The position that every reading specification returns once a read has
/// run past the end of the data. Reading from it fails again, so a chain of
/// reads that failed once stays failed.
pub open spec fn failed_pos() -> int {
    -1
}

/// The number of bits held by `data`.
pub open spec fn bit_len(data: Seq<u8>) -> int {
    (data.len() * 8) as int
}

/// Bit `p` of `data`, counting from the most significant bit of `data[0]`.
pub open spec fn bit_at(data: Seq<u8>, p: int) -> u32 {
    ((data[p / 8] >> ((7 - p % 8) as u8)) & 1u8) as u32
}

/// The big-endian value of the `n` bits of `data` that start at bit `p`.
pub open spec fn bits_value(data: Seq<u8>, p: int, n: nat) -> nat
    decreases n,
{
    if n == 0 {
        0
    } else {
        (2 * bits_value(data, p, (n - 1) as nat) + bit_at(data, p + n - 1)) as nat
    }
}

/// Reading `n` bits at position `p`: their value and the position after
/// them, or `(0, failed_pos())` when fewer than `n` bits remain.
#[verifier::opaque]
pub open spec fn spec_read_bits(data: Seq<u8>, p: int, n: nat) -> (u32, int) {
    if p < 0 || p + n > bit_len(data) {
        (0, failed_pos())
    } else {
        (bits_value(data, p, n) as u32, p + n)
    }
}

/// The leading zero bits of an Exp-Golomb code at `p`, counted from the
/// `k`-th bit on: the scan stops at the first one bit, or at a zero bit
/// read once 32 zeros have been counted. `None` when the data ends first.
pub open spec fn ue_prefix(data: Seq<u8>, p: int, k: nat) -> Option<nat>
    decreases 32 - k,
{
    if p + k >= bit_len(data) {
        None
    } else if bit_at(data, p + k) != 0 || k >= 32 {
        Some(k)
    } else {
        ue_prefix(data, p, k + 1)
    }
}

/// Reading an unsigned Exp-Golomb code `ue(v)` at `p`: `2^z - 1` plus the
/// `z`-bit suffix that follows the `z` leading zeros and the one bit.
#[verifier::opaque]
pub open spec fn spec_read_ue(data: Seq<u8>, p: int) -> (u32, int) {
    if p < 0 {
        (0, failed_pos())
    } else {
        match ue_prefix(data, p, 0) {
            None => (0, failed_pos()),
            Some(z) => {
                let q = p + z + 1;
                if q + z > bit_len(data) {
                    (0, failed_pos())
                } else {
                    ((bits_value(data, q, z) + pow2(z) - 1) as u32, q + z)
                }
            },
        }
    }
}

/// A code with 32 leading zeros whose 32-bit suffix is present: its value,
/// `2^32 - 1` plus the suffix, does not fit the reader's `u32` and the shift
/// `1 << 32` that computes it is out of range.
pub open spec fn ue_overflows(data: Seq<u8>, p: int) -> bool {
    &&& p >= 0
    &&& ue_prefix(data, p, 0) == Some(32nat)
    &&& p + 65 <= bit_len(data)
}

/// The signed value `se(v)` that an unsigned code value `ue` stands for:
/// 1, 2, 3, 4, ... map to 1, -1, 2, -2, ...
pub open spec fn se_value(ue: u32) -> int {
    if ue % 2 != 0 {
        (ue + 1) / 2
    } else {
        -(ue / 2)
    }
}

/// Reading a signed Exp-Golomb code `se(v)` at `p`.
pub open spec fn spec_read_se(data: Seq<u8>, p: int) -> (int, int) {
    let (u, q) = spec_read_ue(data, p);
    (se_value(u), q)
}

/// The bits of `bits_value` never exceed `n` bits.
pub proof fn lemma_bits_value_bound(data: Seq<u8>, p: int, n: nat)
    ensures
        bits_value(data, p, n) < pow2(n),
    decreases n,
{
    lemma2_to64();
    if n > 0 {
        lemma_bits_value_bound(data, p, (n - 1) as nat);
        lemma_pow2_unfold(n);
        lemma_bit_at_le_1(data, p + n - 1);
    }
}

/// A bit is 0 or 1.
pub proof fn lemma_bit_at_le_1(data: Seq<u8>, p: int)
    ensures
        bit_at(data, p) <= 1,
{
    lemma_masked_bit(data[p / 8], (7 - p % 8) as u8);
}

/// Every read from a failed position fails.
pub broadcast proof fn lemma_read_bits_failed(data: Seq<u8>, p: int, n: nat)
    requires
        p < 0,
    ensures
        #[trigger] spec_read_bits(data, p, n) == (0u32, failed_pos()),
{
    reveal(spec_read_bits);
}

/// Every read from a failed position fails.
pub broadcast proof fn lemma_read_ue_failed(data: Seq<u8>, p: int)
    requires
        p < 0,
    ensures
        #[trigger] spec_read_ue(data, p) == (0u32, failed_pos()),
{
    reveal(spec_read_ue);
}

/// A read that succeeds moves forward; one that fails reads 0.
pub broadcast proof fn lemma_read_bits_forward(data: Seq<u8>, p: int, n: nat)
    ensures
        #[trigger] spec_read_bits(data, p, n).1 == failed_pos() || spec_read_bits(data, p, n).1
            == p + n,
        spec_read_bits(data, p, n).1 == failed_pos() ==> spec_read_bits(data, p, n).0 == 0,
{
    reveal(spec_read_bits);
}

/// A read that succeeds moves forward; one that fails reads 0.
pub broadcast proof fn lemma_read_ue_forward(data: Seq<u8>, p: int)
    ensures
        #[trigger] spec_read_ue(data, p).1 == failed_pos() || spec_read_ue(data, p).1 > p,
        spec_read_ue(data, p).1 == failed_pos() ==> spec_read_ue(data, p).0 == 0,
{
    reveal(spec_read_ue);
}

pub broadcast group group_reads {
    lemma_read_bits_failed,
    lemma_read_ue_failed,
    lemma_read_bits_forward,
    lemma_read_ue_forward,
}

/// One bit masked out of a byte is 0 or 1.
pub proof fn lemma_masked_bit(b: u8, s: u8)
    ensures
        (((b >> s) & 1u8) as u32) <= 1,
{
    assert((((b >> s) & 1u8) as u32) <= 1) by (bit_vector);
}

/// A decoded `ue(v)` value is at most `2^32 - 2` when the code is not one of
/// those that `ue_overflows` describes.
pub proof fn lemma_ue_bound(data: Seq<u8>, p: int)
    requires
        !ue_overflows(data, p),
        spec_read_ue(data, p).1 != failed_pos(),
    ensures
        spec_read_ue(data, p).0 as int == ({
            let z = ue_prefix(data, p, 0).unwrap();
            bits_value(data, p + z + 1, z) + pow2(z) - 1
        }),
        spec_read_ue(data, p).0 < u32::MAX,
        ue_prefix(data, p, 0).unwrap() < 32,
{
    reveal(spec_read_ue);
    let z = ue_prefix(data, p, 0).unwrap();
    lemma_ue_prefix_bound(data, p, 0);
    lemma_bits_value_bound(data, p + z + 1, z);
    vstd::bits::lemma_u32_pow2_no_overflow(z);
    lemma_pow2_strictly_increases(z, 32);
    lemma2_to64();
}

/// The zero count of `ue_prefix` never passes 32.
pub proof fn lemma_ue_prefix_bound(data: Seq<u8>, p: int, k: nat)
    requires
        k <= 32,
    ensures
        ue_prefix(data, p, k) matches Some(z) ==> k <= z <= 32,
    decreases 32 - k,
{
    if p + k < bit_len(data) && !(bit_at(data, p + k) != 0 || k >= 32) {
        lemma_ue_prefix_bound(data, p, k + 1);
    }
}

/// Reading `n + m` bits gives the first `n` bits followed by the next `m`:
/// the value is the first part shifted left by `m` plus the second part.
pub proof fn law_bits_value_split(data: Seq<u8>, p: int, n: nat, m: nat)
    ensures
        bits_value(data, p, n + m) == bits_value(data, p, n) * pow2(m) + bits_value(data, p + n, m),
    decreases m,
{
    lemma2_to64();
    if m > 0 {
        law_bits_value_split(data, p, n, (m - 1) as nat);
        lemma_pow2_unfold(m);
        assert(bits_value(data, p, n + m) == 2 * bits_value(data, p, (n + m - 1) as nat) + bit_at(
            data,
            p + n + m - 1,
        ));
        assert(bits_value(data, p + n, m) == 2 * bits_value(data, p + n, (m - 1) as nat) + bit_at(
            data,
            p + n + m - 1,
        ));
        let a = bits_value(data, p, n);
        let b = bits_value(data, p + n, (m - 1) as nat);
        let q = pow2((m - 1) as nat);
        assert((n + m - 1) as nat == n + (m - 1) as nat);
        assert(bits_value(data, p, (n + m - 1) as nat) == a * q + b);
        assert(pow2(m) == 2 * q);
        assert(2 * (a * q + b) == a * (2 * q) + 2 * b) by (nonlinear_arith);
    } else {
        assert(pow2(0) == 1);
        assert(n + m == n);
    }
}

/// A reader of single bits and of Exp-Golomb codes over a byte slice, most
/// significant bit first.
pub struct GolombBitReader<'a> {
    data: &'a [u8],
    byte_offset: usize,
    bit_offset: u8,
}

impl<'a> GolombBitReader<'a> {
    /// The bytes being read.
    pub closed spec fn data(&self) -> Seq<u8> {
        self.data@
    }

    /// The number of bits read so far.
    pub closed spec fn pos(&self) -> int {
        self.byte_offset * 8 + 8 - self.bit_offset
    }

    /// The offsets describe a position inside the data, or its very end.
    pub closed spec fn wf(&self) -> bool {
        &&& self.bit_offset <= 8
        &&& self.byte_offset < self.data@.len() || (self.byte_offset == self.data@.len()
            && self.bit_offset == 8)
    }

    /// A well-formed reader stands inside its data or at its end.
    pub proof fn lemma_pos_in_range(&self)
        requires
            self.wf(),
        ensures
            0 <= self.pos() <= bit_len(self.data()),
    {
    }

    /// A reader at the first bit of `data`.
    pub fn new(data: &'a [u8]) -> (r: Self)
        ensures
            r.wf(),
            r.data() == data@,
            r.pos() == 0,
    {
        Self { data, byte_offset: 0, bit_offset: 8 }
    }

    /// Reads one bit; fails with `"EOF"` at the end of the data, which
    /// leaves the position unchanged there.
    pub fn read_bit(&mut self) -> (r: Result<u32, &'static str>)
        requires
            old(self).wf(),
        ensures
            final(self).wf(),
            final(self).data() == old(self).data(),
            0 <= old(self).pos() <= bit_len(old(self).data()),
            ({
                let (v, q) = spec_read_bits(old(self).data(), old(self).pos(), 1);
                match r {
                    Ok(b) => q != failed_pos() && b == v && b <= 1 && b == bit_at(
                        old(self).data(),
                        old(self).pos(),
                    ) && final(self).pos() == q,
                    Err(e) => q == failed_pos() && e == "EOF" && final(self).pos() == bit_len(
                        old(self).data(),
                    ),
                }
            }),
    {
        let ghost p = self.pos();
        let ghost d = self.data();
        proof {
            reveal(spec_read_bits);
        }
        if self.byte_offset >= self.data.len() {
            return Err("EOF");
        }
        if self.bit_offset == 0 {
            self.byte_offset += 1;
            self.bit_offset = 8;
            if self.byte_offset >= self.data.len() {
                return Err("EOF");
            }
        }
        self.bit_offset -= 1;
        let res = (self.data[self.byte_offset] >> self.bit_offset) & 1;
        proof {
            assert(p / 8 == self.byte_offset);
            assert(7 - p % 8 == self.bit_offset);
            reveal_with_fuel(bits_value, 2);
            lemma_masked_bit(self.data@[self.byte_offset as int], self.bit_offset);
        }
        Ok(res as u32)
    }

    /// Reads `n` bits as a big-endian number; on `"EOF"` every remaining
    /// bit has been consumed. More than 32 bits can only be asked for at
    /// the end of the data, where the read fails.
    pub fn read_bits(&mut self, n: u8) -> (r: Result<u32, &'static str>)
        requires
            old(self).wf(),
            n <= 32 || old(self).pos() == bit_len(old(self).data()),
        ensures
            final(self).wf(),
            final(self).data() == old(self).data(),
            ({
                let (v, q) = spec_read_bits(old(self).data(), old(self).pos(), n as nat);
                match r {
                    Ok(x) => q != failed_pos() && x == v && x == bits_value(
                        old(self).data(),
                        old(self).pos(),
                        n as nat,
                    ) && final(self).pos() == q,
                    Err(e) => q == failed_pos() && e == "EOF" && final(self).pos() == bit_len(
                        old(self).data(),
                    ),
                }
            }),
    {
        let ghost p0 = self.pos();
        let ghost d = self.data();
        proof {
            lemma2_to64();
            reveal(spec_read_bits);
        }
        let mut res: u32 = 0;
        let mut i: u8 = 0;
        while i < n
            invariant
                self.wf(),
                self.data() == d,
                d == old(self).data(),
                p0 == old(self).pos(),
                i <= n,
                n <= 32 || (i == 0 && p0 == bit_len(d)),
                0 <= p0,
                self.pos() == p0 + i,
                p0 + i <= bit_len(d),
                res == bits_value(d, p0, i as nat),
                pow2(32) == 0x1_0000_0000,
            decreases n - i,
        {
            proof {
                reveal(spec_read_bits);
            }
            let bit = self.read_bit()?;
            proof {
                lemma_bits_value_bound(d, p0, i as nat);
                lemma2_to64();
                if i < 31 {
                    lemma_pow2_strictly_increases(i as nat, 31);
                }
                lemma_pow2_unfold((i + 1) as nat);
                lemma_bit_at_le_1(d, p0 + i);
            }
            res = res * 2 + bit;
            i += 1;
        }
        proof {
            lemma_bits_value_bound(d, p0, n as nat);
        }
        Ok(res)
    }

    /// Reads an unsigned Exp-Golomb code `ue(v)`.
    pub fn read_exponential_golomb(&mut self) -> (r: Result<u32, &'static str>)
        requires
            old(self).wf(),
            !ue_overflows(old(self).data(), old(self).pos()),
        ensures
            final(self).wf(),
            final(self).data() == old(self).data(),
            ({
                let (v, q) = spec_read_ue(old(self).data(), old(self).pos());
                match r {
                    Ok(x) => q != failed_pos() && x == v && x < u32::MAX && final(self).pos()
                        == q,
                    Err(e) => q == failed_pos() && e == "EOF" && final(self).pos() == bit_len(
                        old(self).data(),
                    ),
                }
            }),
    {
        let ghost p0 = self.pos();
        let ghost d = self.data();
        proof {
            reveal(spec_read_ue);
            reveal(spec_read_bits);
        }
        let mut zero_bits: u8 = 0;
        loop
            invariant_except_break
                self.wf(),
                self.data() == d,
                d == old(self).data(),
                p0 == old(self).pos(),
                0 <= p0,
                zero_bits <= 32,
                self.pos() == p0 + zero_bits,
                ue_prefix(d, p0, 0) == ue_prefix(d, p0, zero_bits as nat),
                !ue_overflows(d, p0),
            ensures
                self.wf(),
                self.data() == d,
                zero_bits <= 32,
                self.pos() == p0 + zero_bits + 1,
                ue_prefix(d, p0, 0) == Some(zero_bits as nat),
            decreases 32 - zero_bits,
        {
            proof {
                reveal(spec_read_ue);
                reveal(spec_read_bits);
            }
            let bit = self.read_bit()?;
            if bit != 0 || zero_bits >= 32 {
                break ;
            }
            zero_bits += 1;
        }
        proof {
            reveal(spec_read_ue);
            reveal(spec_read_bits);
        }
        let val = self.read_bits(zero_bits)?;
        proof {
            lemma_ue_bound(d, p0);
            vstd::bits::lemma_u32_pow2_no_overflow(zero_bits as nat);
            vstd::bits::lemma_u32_shl_is_mul(1, zero_bits as u32);
        }
        Ok(val + (1u32 << (zero_bits as u32)) - 1)
    }

    /// Reads a signed Exp-Golomb code `se(v)`.
    pub fn read_se(&mut self) -> (r: Result<i32, &'static str>)
        requires
            old(self).wf(),
            !ue_overflows(old(self).data(), old(self).pos()),
        ensures
            final(self).wf(),
            final(self).data() == old(self).data(),
            ({
                let (v, q) = spec_read_se(old(self).data(), old(self).pos());
                match r {
                    Ok(x) => q != failed_pos() && x == v && final(self).pos() == q,
                    Err(e) => q == failed_pos() && e == "EOF" && final(self).pos() == bit_len(
                        old(self).data(),
                    ),
                }
            }),
    {
        let ue = self.read_exponential_golomb()?;
        if ue % 2 != 0 {
            Ok(((ue + 1) / 2) as i32)
        } else {
            Ok(-((ue / 2) as i32))
        }
    }

    /// Whether the Exp-Golomb code at the reader's position is one that
    /// `read_exponential_golomb` cannot read: 32 leading zeros with the
    /// whole 32-bit suffix present. The reader does not move.
    pub fn ue_overflows_here(&self) -> (b: bool)
        requires
            self.wf(),
        ensures
            b == ue_overflows(self.data(), self.pos()),
    {
        let ghost d = self.data();
        let ghost p = self.pos();
        let mut probe = GolombBitReader {
            data: self.data,
            byte_offset: self.byte_offset,
            bit_offset: self.bit_offset,
        };
        proof {
            reveal(spec_read_bits);
        }
        let mut zeros: u8 = 0;
        while zeros < 32
            invariant
                probe.wf(),
                probe.data() == d,
                d == self.data(),
                p == self.pos(),
                0 <= p,
                zeros <= 32,
                probe.pos() == p + zeros,
                p + zeros <= bit_len(d),
                ue_prefix(d, p, 0) == ue_prefix(d, p, zeros as nat),
            decreases 32 - zeros,
        {
            proof {
                reveal(spec_read_bits);
            }
            match probe.read_bit() {
                Ok(b) => {
                    if b != 0 {
                        return false;
                    }
                },
                Err(_) => {
                    return false;
                },
            }
            zeros += 1;
        }
        proof {
            reveal(spec_read_bits);
        }
        // The one bit (or the zero read after 32 zeros) and the suffix.
        if probe.read_bit().is_err() {
            return false;
        }
        probe.read_bits(32).is_ok()
    }

    /// `read_exponential_golomb`, for every input: where that code is one it
    /// cannot read, fails with `"value out of range"` and leaves the
    /// reader where it was.
    pub fn read_exponential_golomb_checked(&mut self) -> (r: Result<u32, &'static str>)
        requires
            old(self).wf(),
        ensures
            final(self).wf(),
            final(self).data() == old(self).data(),
            ue_overflows(old(self).data(), old(self).pos()) ==> r == Err::<u32, &'static str>(
                "value out of range",
            ) && final(self).pos() == old(self).pos(),
            !ue_overflows(old(self).data(), old(self).pos()) ==> ({
                let (v, q) = spec_read_ue(old(self).data(), old(self).pos());
                match r {
                    Ok(x) => q != failed_pos() && x == v && x < u32::MAX && final(self).pos() == q,
                    Err(e) => q == failed_pos() && e == "EOF" && final(self).pos() == bit_len(
                        old(self).data(),
                    ),
                }
            }),
    {
        if self.ue_overflows_here() {
            return Err("value out of range");
        }
        self.read_exponential_golomb()
    }

    /// `read_se`, for every input: where the code is one it cannot read,
    /// fails with `"value out of range"` and leaves the reader where
    /// it was.
    pub fn read_se_checked(&mut self) -> (r: Result<i32, &'static str>)
        requires
            old(self).wf(),
        ensures
            final(self).wf(),
            final(self).data() == old(self).data(),
            ue_overflows(old(self).data(), old(self).pos()) ==> r == Err::<i32, &'static str>(
                "value out of range",
            ) && final(self).pos() == old(self).pos(),
            !ue_overflows(old(self).data(), old(self).pos()) ==> ({
                let (v, q) = spec_read_se(old(self).data(), old(self).pos());
                match r {
                    Ok(x) => q != failed_pos() && x == v && final(self).pos() == q,
                    Err(e) => q == failed_pos() && e == "EOF" && final(self).pos() == bit_len(
                        old(self).data(),
                    ),
                }
            }),
    {
        if self.ue_overflows_here() {
            return Err("value out of range");
        }
        self.read_se()
    }
}

} // verus!

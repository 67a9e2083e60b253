//! A reader of the bits of a byte string, most significant bit of each
//! byte first (Section 7.2).
use vstd::prelude::*;

verus! {

/// Bit `i` of `data`, counting from the most significant bit of byte 0.
pub open spec fn stream_bit(data: Seq<u8>, i: int) -> u8 {
    (data[i / 8] >> ((7 - i % 8) as u8)) & 1u8
}

/// The `n` bits of `data` from bit `pos` on, read as an unsigned integer
/// with the first bit most significant.
pub open spec fn bits_value(data: Seq<u8>, pos: int, n: nat) -> nat
    decreases n,
{
    if n == 0 {
        0
    } else {
        bits_value(data, pos, (n - 1) as nat) * 2 + stream_bit(data, pos + n - 1) as nat
    }
}

/// The number of bits of `data`.
pub open spec fn total_bits(data: Seq<u8>) -> int {
    data.len() as int * 8
}

/// Reads the bits of a byte string in order.
pub struct BitReader<'a> {
    data: &'a [u8],
    pos: usize,
}

impl<'a> BitReader<'a> {
    /// The bytes read.
    pub closed spec fn data(&self) -> Seq<u8> {
        self.data@
    }

    /// The number of bits read so far.
    pub closed spec fn pos(&self) -> int {
        self.pos as int
    }

    /// The position lies in the data, and every bit index fits in a
    /// `usize`.
    pub open spec fn wf(&self) -> bool {
        &&& 0 <= self.pos() <= total_bits(self.data())
        &&& total_bits(self.data()) <= usize::MAX
    }

    /// A reader at the first bit of `data`.
    pub fn new(data: &'a [u8]) -> (r: Self)
        requires
            data@.len() * 8 <= usize::MAX,
        ensures
            r.wf(),
            r.data() == data@,
            r.pos() == 0,
    {
        BitReader { data, pos: 0 }
    }

    /// The number of bits left.
    pub fn remaining(&self) -> (n: usize)
        requires
            self.wf(),
        ensures
            n == total_bits(self.data()) - self.pos(),
    {
        self.data.len() * 8 - self.pos
    }

    /// The number of bits read so far.
    pub fn position(&self) -> (p: usize)
        ensures
            p == self.pos(),
    {
        self.pos
    }

    /// Whether the next bit starts a byte.
    pub fn is_aligned(&self) -> (b: bool)
        ensures
            b == (self.pos() % 8 == 0),
    {
        self.pos % 8 == 0
    }

    /// Skips to the start of the next byte, unless at one already.
    pub fn align(&mut self)
        requires
            old(self).wf(),
        ensures
            final(self).wf(),
            final(self).data() == old(self).data(),
            final(self).pos() == if old(self).pos() % 8 == 0 {
                old(self).pos()
            } else {
                old(self).pos() - old(self).pos() % 8 + 8
            },
    {
        if self.pos % 8 != 0 {
            self.pos = self.pos - self.pos % 8 + 8;
        }
    }

    /// The next bit.
    pub fn read_bit(&mut self) -> (r: Result<u32, String>)
        requires
            old(self).wf(),
        ensures
            final(self).wf(),
            final(self).data() == old(self).data(),
            match r {
                Ok(b) => old(self).pos() < total_bits(old(self).data()) && b <= 1 && b == stream_bit(
                    old(self).data(),
                    old(self).pos(),
                ) && final(self).pos() == old(self).pos() + 1,
                Err(_) => old(self).pos() == total_bits(old(self).data()) && final(self).pos()
                    == old(self).pos(),
            },
    {
        if self.pos >= self.data.len() * 8 {
            return Err("bit reader: no bits left".to_owned());
        }
        let byte = self.data[self.pos / 8];
        let sh = (7 - self.pos % 8) as u8;
        let b = (byte >> sh) & 1u8;
        assert(b <= 1) by (bit_vector)
            requires
                b == (byte >> sh) & 1u8,
        ;
        self.pos = self.pos + 1;
        Ok(b as u32)
    }

    /// The next `n` bits (`n <= 32`) as an unsigned integer, first bit most
    /// significant. Reads nothing when fewer than `n` bits are left.
    pub fn u(&mut self, n: u32) -> (r: Result<u32, String>)
        requires
            old(self).wf(),
            n <= 32,
        ensures
            final(self).wf(),
            final(self).data() == old(self).data(),
            match r {
                Ok(v) => old(self).pos() + n <= total_bits(old(self).data()) && v == bits_value(
                    old(self).data(),
                    old(self).pos(),
                    n as nat,
                ) && final(self).pos() == old(self).pos() + n,
                Err(_) => old(self).pos() + n > total_bits(old(self).data()) && final(self).pos()
                    == old(self).pos(),
            },
    {
        if self.data.len() * 8 - self.pos < n as usize {
            return Err("bit reader: not enough bits left".to_owned());
        }
        let ghost start = self.pos as int;
        let ghost d0 = self.data();
        let mut v: u64 = 0;
        let mut k: u32 = 0;
        proof {
            vstd::arithmetic::power2::lemma2_to64();
        }
        while k < n
            invariant
                self.wf(),
                self.data() == d0,
                k <= n <= 32,
                start + n <= total_bits(self.data()),
                self.pos() == start + k,
                v == bits_value(self.data(), start, k as nat),
                v < vstd::arithmetic::power2::pow2(k as nat),
            decreases n - k,
        {
            let b = self.read_bit();
            match b {
                Ok(bit) => {
                    proof {
                        vstd::arithmetic::power2::lemma_pow2_unfold((k + 1) as nat);
                        vstd::arithmetic::power2::lemma2_to64();
                        if k < 31 {
                            vstd::arithmetic::power2::lemma_pow2_strictly_increases(k as nat, 31);
                        }
                    }
                    v = v * 2 + bit as u64;
                },
                Err(_) => {
                    return Err("bit reader: not enough bits left".to_owned());
                },
            }
            k = k + 1;
        }
        proof {
            vstd::arithmetic::power2::lemma2_to64();
            if n < 32 {
                vstd::arithmetic::power2::lemma_pow2_strictly_increases(n as nat, 32);
            }
        }
        Ok(v as u32)
    }
}

/// A bit of the stream is 0 or 1.
pub proof fn lemma_stream_bit_bound(data: Seq<u8>, i: int)
    ensures
        stream_bit(data, i) <= 1,
{
    let b = data[i / 8];
    let s = (7 - i % 8) as u8;
    assert((b >> s) & 1u8 <= 1) by (bit_vector);
}

/// `n` bits read as an unsigned integer are less than `2^n`.
pub proof fn lemma_bits_value_bound(data: Seq<u8>, pos: int, n: nat)
    ensures
        bits_value(data, pos, n) < vstd::arithmetic::power2::pow2(n),
    decreases n,
{
    if n > 0 {
        vstd::arithmetic::power2::lemma_pow2_unfold(n);
        lemma_bits_value_bound(data, pos, (n - 1) as nat);
        lemma_stream_bit_bound(data, pos + n - 1);
    } else {
        vstd::arithmetic::power2::lemma2_to64();
    }
}

/// Bit `i` of `data`, or 0 past its end.
pub open spec fn padded_bit(data: Seq<u8>, i: int) -> u8 {
    if i < total_bits(data) {
        stream_bit(data, i)
    } else {
        0
    }
}

/// The `n` bits of `data` from bit `pos` on, with 0 past its end, read as
/// an unsigned integer with the first bit most significant.
pub open spec fn padded_value(data: Seq<u8>, pos: int, n: nat) -> nat
    decreases n,
{
    if n == 0 {
        0
    } else {
        padded_value(data, pos, (n - 1) as nat) * 2 + padded_bit(data, pos + n - 1) as nat
    }
}

/// The number of 0 bits of `data` from bit `pos` on before the first 1
/// bit, or `None` when no 1 bit follows or more than `u32::MAX` zeros come
/// first.
pub open spec fn zeros_before_one(data: Seq<u8>, pos: int, k: int) -> Option<u32>
    decreases total_bits(data) - pos - k,
{
    if pos + k >= total_bits(data) || k > u32::MAX || pos < 0 || k < 0 {
        None
    } else if stream_bit(data, pos + k) == 1 {
        Some(k as u32)
    } else {
        zeros_before_one(data, pos, k + 1)
    }
}

impl<'a> BitReader<'a> {
    fn bit_at(&self, i: usize) -> (b: u8)
        requires
            self.wf(),
            i < total_bits(self.data()),
        ensures
            b == stream_bit(self.data(), i as int),
            b <= 1,
    {
        let byte = self.data[i / 8];
        let sh = (7 - i % 8) as u8;
        let b = (byte >> sh) & 1u8;
        assert(b <= 1) by (bit_vector)
            requires
                b == (byte >> sh) & 1u8,
        ;
        b
    }

    /// The next 16 bits, with 0 for those past the end; an error when no
    /// bit is left.
    pub fn peek_or_pad16(&self) -> (r: Result<u16, String>)
        requires
            self.wf(),
        ensures
            match r {
                Ok(v) => self.pos() < total_bits(self.data()) && v == padded_value(self.data(), self.pos(), 16),
                Err(_) => self.pos() == total_bits(self.data()),
            },
    {
        let total = self.data.len() * 8;
        if self.pos >= total {
            return Err("bit reader: no bits left".to_owned());
        }
        let mut v: u32 = 0;
        let mut k: usize = 0;
        proof {
            vstd::arithmetic::power2::lemma2_to64();
        }
        while k < 16
            invariant
                self.wf(),
                total == total_bits(self.data()),
                self.pos() < total,
                k <= 16,
                v == padded_value(self.data(), self.pos(), k as nat),
                v < vstd::arithmetic::power2::pow2(k as nat),
            decreases 16 - k,
        {
            let b: u32 = if k < total - self.pos {
                self.bit_at(self.pos + k) as u32
            } else {
                0
            };
            proof {
                vstd::arithmetic::power2::lemma_pow2_unfold((k + 1) as nat);
                vstd::arithmetic::power2::lemma2_to64();
                vstd::arithmetic::power2::lemma_pow2_strictly_increases(k as nat, 16);
            }
            v = v * 2 + b;
            k = k + 1;
        }
        Ok(v as u16)
    }

    /// Skips `n` bits; an error, reading nothing, when fewer are left.
    pub fn skip(&mut self, n: u32) -> (r: Result<(), String>)
        requires
            old(self).wf(),
        ensures
            final(self).wf(),
            final(self).data() == old(self).data(),
            match r {
                Ok(_) => old(self).pos() + n <= total_bits(old(self).data()) && final(self).pos()
                    == old(self).pos() + n,
                Err(_) => old(self).pos() + n > total_bits(old(self).data()) && final(self).pos()
                    == old(self).pos(),
            },
    {
        if self.data.len() * 8 - self.pos < n as usize {
            return Err("bit reader: not enough bits left".to_owned());
        }
        self.pos = self.pos + n as usize;
        Ok(())
    }

    /// Reads 0 bits up to and including the next 1 bit, and returns how
    /// many 0 bits came first (`zeros_before_one`); an error when no 1 bit
    /// follows within reach.
    pub fn read_till_one(&mut self) -> (r: Result<u32, String>)
        requires
            old(self).wf(),
        ensures
            final(self).wf(),
            final(self).data() == old(self).data(),
            match r {
                Ok(k) => zeros_before_one(old(self).data(), old(self).pos(), 0) == Some(k)
                    && final(self).pos() == old(self).pos() + k + 1,
                Err(_) => zeros_before_one(old(self).data(), old(self).pos(), 0) is None,
            },
    {
        let total = self.data.len() * 8;
        let start = self.pos;
        let mut k: usize = 0;
        while start + k < total
            invariant
                self.wf(),
                self.data() == old(self).data(),
                self.pos() == old(self).pos(),
                start == self.pos(),
                total == total_bits(self.data()),
                start + k <= total,
                k <= u32::MAX,
                zeros_before_one(self.data(), start as int, 0) == zeros_before_one(self.data(), start as int, k as int),
            decreases total - start - k,
        {
            if self.bit_at(start + k) == 1 {
                self.pos = start + k + 1;
                return Ok(k as u32);
            }
            if k == u32::MAX as usize {
                assert(zeros_before_one(self.data(), start as int, k + 1) is None);
                return Err("bit reader: too many leading zero bits".to_owned());
            }
            k = k + 1;
        }
        Err("bit reader: no 1 bit left".to_owned())
    }
}

/// Section 9.1: an `ue(v)` Exp-Golomb code from bit `pos`: `k` zero bits,
/// a 1 bit, then `k` bits `b`; the value `2^k - 1 + b` and the position
/// after it. `None` when the stream ends first or `k` exceeds 31 (the
/// value would not fit 32 bits).
pub open spec fn ue_spec(data: Seq<u8>, pos: int) -> Option<(int, int)> {
    match zeros_before_one(data, pos, 0) {
        None => None,
        Some(k) => {
            let p = pos + k + 1;
            if k > 31 || p + k > total_bits(data) {
                None
            } else {
                Some((vstd::arithmetic::power2::pow2(k as nat) - 1 + bits_value(data, p, k as nat), p + k))
            }
        },
    }
}

/// Section 9.1.1: the `se(v)` value of `ue(v)` code number `k`: `(k + 1) / 2`
/// for odd `k`, `-(k / 2)` for even `k`.
pub open spec fn se_of(k: int) -> int {
    if k % 2 == 1 {
        (k + 1) / 2
    } else {
        -(k / 2)
    }
}

impl<'a> BitReader<'a> {
    /// Reads an `ue(v)` Exp-Golomb code (see `ue_spec`).
    pub fn ue(&mut self) -> (r: Result<u32, String>)
        requires
            old(self).wf(),
        ensures
            final(self).wf(),
            final(self).data() == old(self).data(),
            match r {
                Ok(v) => ue_spec(old(self).data(), old(self).pos()) == Some((v as int, final(self).pos()))
                    && v < u32::MAX,
                Err(_) => ue_spec(old(self).data(), old(self).pos()) is None,
            },
    {
        let k = match self.read_till_one() {
            Ok(k) => k,
            Err(e) => return Err(e),
        };
        if k > 31 {
            return Err("bit reader: Exp-Golomb code longer than 32 bits".to_owned());
        }
        let b = match self.u(k) {
            Ok(b) => b,
            Err(e) => return Err(e),
        };
        proof {
            lemma_bits_value_bound(old(self).data(), old(self).pos() + k + 1, k as nat);
            vstd::arithmetic::power2::lemma2_to64();
            vstd::arithmetic::power2::lemma_pow2_pos(k as nat);
            if k < 32 {
                vstd::arithmetic::power2::lemma_pow2_strictly_increases(k as nat, 32);
            }
            vstd::bits::lemma_u64_shl_is_mul(1u64, k as u64);
        }
        let v = (1u64 << k) - 1 + b as u64;
        Ok(v as u32)
    }

    /// Reads an `se(v)` Exp-Golomb code: the `ue(v)` code number mapped by
    /// `se_of`.
    pub fn se(&mut self) -> (r: Result<i32, String>)
        requires
            old(self).wf(),
        ensures
            final(self).wf(),
            final(self).data() == old(self).data(),
            match r {
                Ok(v) => match ue_spec(old(self).data(), old(self).pos()) {
                    Some((k, p)) => p == final(self).pos() && v as int == se_of(k),
                    None => false,
                },
                Err(_) => ue_spec(old(self).data(), old(self).pos()) is None,
            },
    {
        let k = match self.ue() {
            Ok(k) => k,
            Err(e) => return Err(e),
        };
        let v = if k % 2 == 1 {
            assert((k as u64 + 1) / 2 <= 0x7fff_ffff);
            ((k as u64 + 1) / 2) as i32
        } else {
            -((k / 2) as i32)
        };
        assert(v as int == se_of(k as int));
        Ok(v)
    }
}

/// Section 7.2 `more_rbsp_data()` at bit `pos`: a 1 bit lies after bit
/// `pos`, so that the stop bit of the trailing bits is still ahead.
pub open spec fn more_rbsp_spec(data: Seq<u8>, pos: int) -> bool {
    exists|i: int| pos < i < total_bits(data) && #[trigger] stream_bit(data, i) == 1
}

impl<'a> BitReader<'a> {
    /// Whether more data follows before the trailing bits (see
    /// `more_rbsp_spec`).
    pub fn more_rbsp_data(&self) -> (b: bool)
        requires
            self.wf(),
        ensures
            b == more_rbsp_spec(self.data(), self.pos()),
    {
        let total = self.data.len() * 8;
        let mut i = total;
        while i > self.pos + 1
            invariant
                self.wf(),
                total == total_bits(self.data()),
                i <= total,
                forall|j: int| i <= j < total ==> #[trigger] stream_bit(self.data(), j) == 0,
            decreases i,
        {
            i = i - 1;
            let byte = self.data[i / 8];
            let sh = (7 - i % 8) as u8;
            let bit = (byte >> sh) & 1u8;
            assert(bit <= 1) by (bit_vector)
                requires
                    bit == (byte >> sh) & 1u8,
            ;
            assert(bit == stream_bit(self.data(), i as int));
            if bit == 1 {
                return true;
            }
        }
        assert(!more_rbsp_spec(self.data(), self.pos())) by {
            assert forall|j: int| self.pos() < j < total_bits(self.data()) implies #[trigger] stream_bit(
                self.data(),
                j,
            ) != 1 by {}
        }
        false
    }
}

} // verus!

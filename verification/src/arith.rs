//! Integer helpers shared by the sample-processing stages: clamping, and the
//! arithmetic meaning of the shifts that the standard's equations use.
use vstd::arithmetic::power2::{lemma_pow2_pos, lemma_pow2_unfold, pow2};
use vstd::prelude::*;

verus! {

/// `v` clamped into `lo..=hi`.
pub open spec fn clamp(v: int, lo: int, hi: int) -> int {
    if v < lo {
        lo
    } else if v > hi {
        hi
    } else {
        v
    }
}

/// Clip1 of Section 5.7 for 8-bit samples: `v` clamped into `0..=255`.
pub open spec fn clip_u8(v: int) -> u8 {
    clamp(v, 0, 255) as u8
}

/// `v >> k` of the standard (an arithmetic right shift): the floor of
/// `v / 2^k`.
pub open spec fn shr(v: int, k: nat) -> int {
    v / (pow2(k) as int)
}

proof fn lemma_floor_div_twice(x: int, a: int)
    requires
        a > 0,
    ensures
        (x / a) / 2 == x / (2 * a),
{
    let q = x / a;
    let r = x % a;
    assert(x == a * q + r && 0 <= r < a) by {
        vstd::arithmetic::div_mod::lemma_fundamental_div_mod(x, a);
    }
    let q2 = q / 2;
    let r2 = q % 2;
    assert(q == 2 * q2 + r2 && 0 <= r2 < 2) by {
        vstd::arithmetic::div_mod::lemma_fundamental_div_mod(q, 2);
    }
    assert(x == (2 * a) * q2 + (a * r2 + r)) by (nonlinear_arith)
        requires
            x == a * q + r,
            q == 2 * q2 + r2,
    ;
    assert(0 <= a * r2 + r < 2 * a) by (nonlinear_arith)
        requires
            0 <= r2 < 2,
            0 <= r < a,
    ;
    vstd::arithmetic::div_mod::lemma_fundamental_div_mod_converse(x, 2 * a, q2, a * r2 + r);
}

/// An arithmetic right shift of an `i32` by `k < 32` is the floor of the
/// division by `2^k`.
pub proof fn lemma_i32_shr(v: i32, k: u32)
    requires
        k < 32,
    ensures
        (v >> k) as int == shr(v as int, k as nat),
    decreases k,
{
    lemma_pow2_pos(k as nat);
    if k == 0 {
        assert(v >> 0u32 == v) by (bit_vector);
        assert(pow2(0) == 1) by {
            vstd::arithmetic::power2::lemma2_to64();
        }
    } else {
        let km1: u32 = (k - 1) as u32;
        lemma_i32_shr(v, km1);
        let w = v >> km1;
        assert(v >> k == (v >> km1) >> 1u32 && w >> 1u32 == w / 2) by (bit_vector)
            requires
                1 <= k < 32,
                km1 == k - 1,
                w == v >> km1,
        ;
        lemma_pow2_unfold(k as nat);
        lemma_pow2_pos(km1 as nat);
        lemma_floor_div_twice(v as int, pow2(km1 as nat) as int);
    }
}

/// `1 << k` as an `i32`, for `k <= 30`, is `2^k`.
pub proof fn lemma_i32_shl_one(k: u32)
    requires
        k <= 30,
    ensures
        (1i32 << k) as int == pow2(k as nat),
        pow2(k as nat) <= 0x4000_0000,
    decreases k,
{
    if k == 0 {
        assert(1i32 << 0u32 == 1) by (bit_vector);
        assert(pow2(0) == 1) by {
            vstd::arithmetic::power2::lemma2_to64();
        }
    } else {
        let km1: u32 = (k - 1) as u32;
        lemma_i32_shl_one(km1);
        assert(1i32 << k == (1i32 << km1) * 2 && 1i32 << k <= 0x4000_0000) by (bit_vector)
            requires
                1 <= k <= 30,
                km1 == k - 1,
        ;
        lemma_pow2_unfold(k as nat);
    }
}

/// Clip1 for 8-bit samples (Section 5.7): `value` clamped into `0..=255`.
pub fn clip1(value: i32) -> (r: u8)
    ensures
        r == clip_u8(value as int),
{
    if value < 0 {
        0
    } else if value > 255 {
        255
    } else {
        value as u8
    }
}

} // verus!

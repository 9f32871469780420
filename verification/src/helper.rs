//! Fixed-point rounding and saturation helpers.

use vstd::prelude::*;

use vstd::arithmetic::power2::pow2;

verus! {

/// Saturation of a mathematical integer to the signed 16-bit range.
pub open spec fn spec_saturating_i16(v: int) -> i16 {
    if v > 0x7FFF {
        0x7FFF as i16
    } else if v < -0x8000 {
        -0x8000 as i16
    } else {
        v as i16
    }
}

/// `x / 2^r` rounded to the nearest integer, ties toward zero: values with
/// a fractional part under one half round down in magnitude, over one half
/// round up in magnitude, and exact halves round toward zero.
pub open spec fn spec_round64(x: i64, r: usize) -> i64
    recommends
        r < 64,
{
    if r == 0 {
        x
    } else {
        let d = pow2(r as nat) as int;
        if x >= 0 {
            ((x + d / 2 - 1) / d) as i64
        } else {
            ((x + d / 2) / d) as i64
        }
    }
}

/// `x / 2^r` rounded to the nearest integer, ties toward zero, on 32 bits.
pub open spec fn spec_round32(x: i32, r: usize) -> i32
    recommends
        r < 32,
{
    if r == 0 {
        x
    } else {
        let d = pow2(r as nat) as int;
        if x >= 0 {
            ((x + d / 2 - 1) / d) as i32
        } else {
            ((x + d / 2) / d) as i32
        }
    }
}

proof fn lemma_round64_add_in_range(x: i64, k: usize, m: usize)
    by (bit_vector)
    requires
        k < 63,
        m == 63 - k,
    ensures
        ((x >> 63) & 1) == 1 || ((x >> 63) & 1) == 0,
        ((x >> 63) & 1) == 1 ==> (x >> k) <= -1,
        ((x >> 63) & 1) == 0 ==> (x >> k) >= 0,
        ((x << m) as u64 > (1u64 << 63)) ==> (x >> k) < i64::MAX,
{
}

proof fn lemma_round32_add_in_range(x: i32, k: usize, m: usize)
    by (bit_vector)
    requires
        k < 31,
        m == 31 - k,
    ensures
        ((x >> 31) & 1) == 1 || ((x >> 31) & 1) == 0,
        ((x >> 31) & 1) == 1 ==> (x >> k) <= -1,
        ((x >> 31) & 1) == 0 ==> (x >> k) >= 0,
        ((x << m) as u32 > (1u32 << 31)) ==> (x >> k) < i32::MAX,
{
}

/// The two's-complement decomposition behind an arithmetic right shift by
/// `rr`: the shifted value and the masked-off low bits reassemble `x`, and
/// the bits a matching left shift pushes out compare against the half-way
/// point exactly as the low bits compare against `2^(rr-1)`.
proof fn lemma_sar64_decompose(x: i64, rr: usize)
    by (bit_vector)
    requires
        1 <= rr <= 63,
    ensures
        x == (x >> rr) * 2 * (1i64 << ((rr - 1) as usize)) + (((x as u64) & (((1u64 << rr) - 1) as u64)) as i64),
        0 <= (((x as u64) & (((1u64 << rr) - 1) as u64)) as i64),
        (((x as u64) & (((1u64 << rr) - 1) as u64)) as i64) < 2 * (1i64 << ((rr - 1) as usize)),
        (1i64 << ((rr - 1) as usize)) == ((1u64 << ((rr - 1) as usize)) as i64),
        (((x << ((64 - rr) as usize)) as u64) == (1u64 << 63)) <==> ((((x as u64) & (((1u64 << rr) - 1) as u64)) as i64) == (1i64 << ((rr - 1) as usize))),
        (((x << ((64 - rr) as usize)) as u64) > (1u64 << 63)) <==> ((((x as u64) & (((1u64 << rr) - 1) as u64)) as i64) > (1i64 << ((rr - 1) as usize))),
        (((x >> 63) & 1) == 1) <==> (x < 0),
{
}

proof fn lemma_sar32_decompose(x: i32, rr: usize)
    by (bit_vector)
    requires
        1 <= rr <= 31,
    ensures
        x == (x >> rr) * 2 * (1i32 << ((rr - 1) as usize)) + (((x as u32) & (((1u32 << rr) - 1) as u32)) as i32),
        0 <= (((x as u32) & (((1u32 << rr) - 1) as u32)) as i32),
        (((x as u32) & (((1u32 << rr) - 1) as u32)) as i32) < 2 * (1i32 << ((rr - 1) as usize)),
        (1i32 << ((rr - 1) as usize)) == ((1u32 << ((rr - 1) as usize)) as i32),
        (((x << ((32 - rr) as usize)) as u32) == (1u32 << 31)) <==> ((((x as u32) & (((1u32 << rr) - 1) as u32)) as i32) == (1i32 << ((rr - 1) as usize))),
        (((x << ((32 - rr) as usize)) as u32) > (1u32 << 31)) <==> ((((x as u32) & (((1u32 << rr) - 1) as u32)) as i32) > (1i32 << ((rr - 1) as usize))),
        (((x >> 31) & 1) == 1) <==> (x < 0),
{
}

/// An arithmetic right shift by `rr` is the floor division by `2^rr`, and
/// the masked low bits are the remainder.
proof fn lemma_sar64_floor_div(x: i64, rr: usize)
    requires
        1 <= rr <= 63,
    ensures
        (x >> rr) == x as int / (pow2(rr as nat) as int),
        (((x as u64) & (((1u64 << rr) - 1) as u64)) as i64) == x as int % (pow2(rr as nat) as int),
        pow2(rr as nat) == 2 * pow2((rr - 1) as nat),
        (1i64 << ((rr - 1) as usize)) == pow2((rr - 1) as nat),
{
    lemma_sar64_decompose(x, rr);
    vstd::arithmetic::power2::lemma_pow2_adds(1, (rr - 1) as nat);
    vstd::arithmetic::power2::lemma_pow2_pos((rr - 1) as nat);
    assert(pow2(1) == 2) by {
        vstd::arithmetic::power2::lemma2_to64();
    }
    vstd::bits::lemma_u64_pow2_no_overflow((rr - 1) as nat);
    vstd::bits::lemma_u64_shl_is_mul(1u64, (rr - 1) as u64);
    assert((1u64 << ((rr - 1) as usize)) == (1u64 << ((rr - 1) as u64)));
    assert((1u64 << ((rr - 1) as usize)) == pow2((rr - 1) as nat));
    assert(pow2((rr - 1) as nat) < pow2(63)) by {
        if rr - 1 < 63 {
            vstd::arithmetic::power2::lemma_pow2_strictly_increases((rr - 1) as nat, 63);
        }
    }
    assert(pow2(63) == 0x8000000000000000) by {
        vstd::arithmetic::power2::lemma2_to64_rest();
    }
    assert((1i64 << ((rr - 1) as usize)) == pow2((rr - 1) as nat));
    let q = (x >> rr) as int;
    let j = (((x as u64) & (((1u64 << rr) - 1) as u64)) as i64) as int;
    let d = pow2(rr as nat) as int;
    assert(x as int == q * 2 * (pow2((rr - 1) as nat) as int) + j);
    assert(0 <= j < d);
    assert(q * 2 * (pow2((rr - 1) as nat) as int) == q * d) by (nonlinear_arith)
        requires
            d == 2 * pow2((rr - 1) as nat),
    ;
    assert(x as int == q * d + j);
    vstd::arithmetic::div_mod::lemma_fundamental_div_mod_converse(x as int, d, q, j);
}

/// The 32-bit form of the shift-as-floor-division fact.
proof fn lemma_sar32_floor_div(x: i32, rr: usize)
    requires
        1 <= rr <= 31,
    ensures
        (x >> rr) == x as int / (pow2(rr as nat) as int),
        (((x as u32) & (((1u32 << rr) - 1) as u32)) as i32) == x as int % (pow2(rr as nat) as int),
        pow2(rr as nat) == 2 * pow2((rr - 1) as nat),
        (1i32 << ((rr - 1) as usize)) == pow2((rr - 1) as nat),
{
    lemma_sar32_decompose(x, rr);
    vstd::arithmetic::power2::lemma_pow2_adds(1, (rr - 1) as nat);
    vstd::arithmetic::power2::lemma_pow2_pos((rr - 1) as nat);
    assert(pow2(1) == 2) by {
        vstd::arithmetic::power2::lemma2_to64();
    }
    vstd::bits::lemma_u32_pow2_no_overflow((rr - 1) as nat);
    vstd::bits::lemma_u32_shl_is_mul(1u32, (rr - 1) as u32);
    assert((1u32 << ((rr - 1) as usize)) == (1u32 << ((rr - 1) as u32)));
    assert((1u32 << ((rr - 1) as usize)) == pow2((rr - 1) as nat));
    assert(pow2((rr - 1) as nat) < pow2(31)) by {
        if rr - 1 < 31 {
            vstd::arithmetic::power2::lemma_pow2_strictly_increases((rr - 1) as nat, 31);
        }
    }
    assert(pow2(31) == 0x80000000) by {
        vstd::arithmetic::power2::lemma2_to64();
    }
    assert((1i32 << ((rr - 1) as usize)) == pow2((rr - 1) as nat));
    let q = (x >> rr) as int;
    let j = (((x as u32) & (((1u32 << rr) - 1) as u32)) as i32) as int;
    let d = pow2(rr as nat) as int;
    assert(x as int == q * 2 * (pow2((rr - 1) as nat) as int) + j);
    assert(0 <= j < d);
    assert(q * 2 * (pow2((rr - 1) as nat) as int) == q * d) by (nonlinear_arith)
        requires
            d == 2 * pow2((rr - 1) as nat),
    ;
    assert(x as int == q * d + j);
    vstd::arithmetic::div_mod::lemma_fundamental_div_mod_converse(x as int, d, q, j);
}

/// Rounded right shift by `r` of a 64-bit fixed-point value: nearest, ties toward zero.
pub fn round64(x: i64, r: usize) -> (result: i64)
    requires
        r < 64,
    ensures
        result == spec_round64(x, r),
{
    if r == 0 {
        return x;
    }
    let k = r - 1;
    let m = 64 - r;
    proof {
        lemma_round64_add_in_range(x, k, m);
        lemma_round64_correct(x, r);
    }
    let s = #[verifier::truncate] ((x << m) as u64);
    if s == 1u64 << 63 {
        ((x >> k) + ((x >> 63) & 1)) >> 1
    } else if s >= 1u64 << 63 {
        ((x >> k) + 1) >> 1
    } else {
        x >> r
    }
}

proof fn lemma_div_mod64(x: i64, d: int)
    requires
        d > 0,
    ensures
        x as int == (x as int / d) * d + x as int % d,
        0 <= x as int % d < d,
{
    vstd::arithmetic::div_mod::lemma_fundamental_div_mod(x as int, d);
    vstd::arithmetic::div_mod::lemma_mod_bound(x as int, d);
    vstd::arithmetic::mul::lemma_mul_is_commutative(d, x as int / d);
}

proof fn lemma_div_mod32(x: i32, d: int)
    requires
        d > 0,
    ensures
        x as int == (x as int / d) * d + x as int % d,
        0 <= x as int % d < d,
{
    vstd::arithmetic::div_mod::lemma_fundamental_div_mod(x as int, d);
    vstd::arithmetic::div_mod::lemma_mod_bound(x as int, d);
    vstd::arithmetic::mul::lemma_mul_is_commutative(d, x as int / d);
}

/// The executable shift steps compute the rounded division the
/// specification states, branch by branch.
proof fn lemma_round64_correct(x: i64, r: usize)
    requires
        1 <= r <= 63,
    ensures
        ((x << ((64 - r) as usize)) as u64) == (1u64 << 63) ==> (((x >> ((r - 1) as usize)) + ((x
            >> 63) & 1)) as i64) >> 1usize == spec_round64(x, r),
        ((x << ((64 - r) as usize)) as u64) > (1u64 << 63) ==> (((x >> ((r - 1) as usize))
            + 1) as i64) >> 1usize == spec_round64(x, r),
        ((x << ((64 - r) as usize)) as u64) < (1u64 << 63) ==> (x >> r) == spec_round64(x, r),
{
    lemma_sar64_decompose(x, r);
    lemma_sar64_floor_div(x, r);
    lemma_round64_add_in_range(x, (r - 1) as usize, (64 - r) as usize);
    let d = pow2(r as nat) as int;
    let d2 = pow2((r - 1) as nat) as int;
    let q = (x >> r) as int;
    let j = x as int % d;
    lemma_div_mod64(x, d);
    assert(d / 2 == d2) by {
        vstd::arithmetic::div_mod::lemma_div_multiples_vanish(d2, 2);
    }
    assert((q + 1) * d == q * d + d) by (nonlinear_arith);
    let h: i64 = if r == 1 {
        assert(x >> 0usize == x) by (bit_vector);
        x
    } else {
        lemma_sar64_floor_div(x, (r - 1) as usize);
        x >> ((r - 1) as usize)
    };
    // The shift by one less splits off the bit that decides the rounding
    // direction: h is 2q plus that bit.
    let b: int = if j >= d2 {
        1
    } else {
        0
    };
    let j2 = j - b * d2;
    assert(x as int == (2 * q + b) * d2 + j2) by (nonlinear_arith)
        requires
            x as int == q * d + j,
            d == 2 * d2,
            j2 == j - b * d2,
    ;
    assert(0 <= j2 < d2) by (nonlinear_arith)
        requires
            j2 == j - b * d2,
            b == (if j >= d2 {
                1int
            } else {
                0int
            }),
            0 <= j < 2 * d2,
            d2 > 0,
    ;
    vstd::arithmetic::div_mod::lemma_fundamental_div_mod_converse(x as int, d2, 2 * q + b, j2);
    assert(h as int == 2 * q + b) by {
        if r == 1 {
            assert(d2 == 1) by {
                vstd::arithmetic::power2::lemma2_to64();
            }
            vstd::arithmetic::div_mod::lemma_fundamental_div_mod(x as int, 1);
        }
    }
    if ((x << ((64 - r) as usize)) as u64) == (1u64 << 63) {
        // Exactly half: j == d2, so h is odd; the carry-in is the sign bit,
        // rounding the tie toward zero.
        assert(j == d2);
        assert(b == 1);
        if x >= 0 {
            let y: i64 = (h + 0) as i64;
            lemma_sar64_floor_div(y, 1);
            assert(pow2(1) == 2) by {
                vstd::arithmetic::power2::lemma2_to64();
            }
            vstd::arithmetic::div_mod::lemma_fundamental_div_mod_converse(y as int, 2, q, 1);
            vstd::arithmetic::div_mod::lemma_fundamental_div_mod_converse(
                x as int + d / 2 - 1,
                d,
                q,
                d - 1,
            );
        } else {
            let y: i64 = (h + 1) as i64;
            lemma_sar64_floor_div(y, 1);
            assert(pow2(1) == 2) by {
                vstd::arithmetic::power2::lemma2_to64();
            }
            vstd::arithmetic::div_mod::lemma_fundamental_div_mod_converse(y as int, 2, q + 1, 0);
            vstd::arithmetic::div_mod::lemma_fundamental_div_mod_converse(
                x as int + d / 2,
                d,
                q + 1,
                0,
            );
        }
    } else if ((x << ((64 - r) as usize)) as u64) > (1u64 << 63) {
        // Over half: j > d2, so h is odd and the constant carry rounds up.
        assert(j > d2);
        assert(b == 1);
        let y: i64 = (h + 1) as i64;
        lemma_sar64_floor_div(y, 1);
            assert(pow2(1) == 2) by {
                vstd::arithmetic::power2::lemma2_to64();
            }
        vstd::arithmetic::div_mod::lemma_fundamental_div_mod_converse(y as int, 2, q + 1, 0);
        if x >= 0 {
            vstd::arithmetic::div_mod::lemma_fundamental_div_mod_converse(
                x as int + d / 2 - 1,
                d,
                q + 1,
                j + d2 - 1 - d,
            );
        } else {
            vstd::arithmetic::div_mod::lemma_fundamental_div_mod_converse(
                x as int + d / 2,
                d,
                q + 1,
                j + d2 - d,
            );
        }
    } else {
        // Under half: the plain shift already is the rounded value.
        assert(j < d2);
        if x >= 0 {
            vstd::arithmetic::div_mod::lemma_fundamental_div_mod_converse(
                x as int + d / 2 - 1,
                d,
                q,
                j + d2 - 1,
            );
        } else {
            vstd::arithmetic::div_mod::lemma_fundamental_div_mod_converse(
                x as int + d / 2,
                d,
                q,
                j + d2,
            );
        }
    }
}

/// Rounded right shift by `r` of a 32-bit fixed-point value: nearest, ties toward zero.
pub fn round32(x: i32, r: usize) -> (result: i32)
    requires
        r < 32,
    ensures
        result == spec_round32(x, r),
{
    if r == 0 {
        return x;
    }
    let k = r - 1;
    let m = 32 - r;
    proof {
        lemma_round32_add_in_range(x, k, m);
        lemma_round32_correct(x, r);
    }
    let s = #[verifier::truncate] ((x << m) as u32);
    if s == 1u32 << 31 {
        ((x >> k) + ((x >> 31) & 1)) >> 1
    } else if s >= 1u32 << 31 {
        ((x >> k) + 1) >> 1
    } else {
        x >> r
    }
}

/// The 32-bit form of the branch-by-branch rounding argument.
proof fn lemma_round32_correct(x: i32, r: usize)
    requires
        1 <= r <= 31,
    ensures
        ((x << ((32 - r) as usize)) as u32) == (1u32 << 31) ==> (((x >> ((r - 1) as usize)) + ((x
            >> 31) & 1)) as i32) >> 1usize == spec_round32(x, r),
        ((x << ((32 - r) as usize)) as u32) > (1u32 << 31) ==> (((x >> ((r - 1) as usize))
            + 1) as i32) >> 1usize == spec_round32(x, r),
        ((x << ((32 - r) as usize)) as u32) < (1u32 << 31) ==> (x >> r) == spec_round32(x, r),
{
    lemma_sar32_decompose(x, r);
    lemma_sar32_floor_div(x, r);
    lemma_round32_add_in_range(x, (r - 1) as usize, (32 - r) as usize);
    let d = pow2(r as nat) as int;
    let d2 = pow2((r - 1) as nat) as int;
    let q = (x >> r) as int;
    let j = x as int % d;
    lemma_div_mod32(x, d);
    assert(d / 2 == d2) by {
        vstd::arithmetic::div_mod::lemma_div_multiples_vanish(d2, 2);
    }
    assert((q + 1) * d == q * d + d) by (nonlinear_arith);
    let h: i32 = if r == 1 {
        assert(x >> 0usize == x) by (bit_vector);
        x
    } else {
        lemma_sar32_floor_div(x, (r - 1) as usize);
        x >> ((r - 1) as usize)
    };
    let b: int = if j >= d2 {
        1
    } else {
        0
    };
    let j2 = j - b * d2;
    assert(x as int == (2 * q + b) * d2 + j2) by (nonlinear_arith)
        requires
            x as int == q * d + j,
            d == 2 * d2,
            j2 == j - b * d2,
    ;
    assert(0 <= j2 < d2) by (nonlinear_arith)
        requires
            j2 == j - b * d2,
            b == (if j >= d2 {
                1int
            } else {
                0int
            }),
            0 <= j < 2 * d2,
            d2 > 0,
    ;
    vstd::arithmetic::div_mod::lemma_fundamental_div_mod_converse(x as int, d2, 2 * q + b, j2);
    assert(h as int == 2 * q + b) by {
        if r == 1 {
            assert(d2 == 1) by {
                vstd::arithmetic::power2::lemma2_to64();
            }
            vstd::arithmetic::div_mod::lemma_fundamental_div_mod(x as int, 1);
        }
    }
    if ((x << ((32 - r) as usize)) as u32) == (1u32 << 31) {
        assert(j == d2);
        assert(b == 1);
        if x >= 0 {
            let y: i32 = (h + 0) as i32;
            lemma_sar32_floor_div(y, 1);
            assert(pow2(1) == 2) by {
                vstd::arithmetic::power2::lemma2_to64();
            }
            vstd::arithmetic::div_mod::lemma_fundamental_div_mod_converse(y as int, 2, q, 1);
            vstd::arithmetic::div_mod::lemma_fundamental_div_mod_converse(
                x as int + d / 2 - 1,
                d,
                q,
                d - 1,
            );
        } else {
            let y: i32 = (h + 1) as i32;
            lemma_sar32_floor_div(y, 1);
            assert(pow2(1) == 2) by {
                vstd::arithmetic::power2::lemma2_to64();
            }
            vstd::arithmetic::div_mod::lemma_fundamental_div_mod_converse(y as int, 2, q + 1, 0);
            vstd::arithmetic::div_mod::lemma_fundamental_div_mod_converse(
                x as int + d / 2,
                d,
                q + 1,
                0,
            );
        }
    } else if ((x << ((32 - r) as usize)) as u32) > (1u32 << 31) {
        assert(j > d2);
        assert(b == 1);
        let y: i32 = (h + 1) as i32;
        lemma_sar32_floor_div(y, 1);
            assert(pow2(1) == 2) by {
                vstd::arithmetic::power2::lemma2_to64();
            }
        vstd::arithmetic::div_mod::lemma_fundamental_div_mod_converse(y as int, 2, q + 1, 0);
        if x >= 0 {
            vstd::arithmetic::div_mod::lemma_fundamental_div_mod_converse(
                x as int + d / 2 - 1,
                d,
                q + 1,
                j + d2 - 1 - d,
            );
        } else {
            vstd::arithmetic::div_mod::lemma_fundamental_div_mod_converse(
                x as int + d / 2,
                d,
                q + 1,
                j + d2 - d,
            );
        }
    } else {
        assert(j < d2);
        if x >= 0 {
            vstd::arithmetic::div_mod::lemma_fundamental_div_mod_converse(
                x as int + d / 2 - 1,
                d,
                q,
                j + d2 - 1,
            );
        } else {
            vstd::arithmetic::div_mod::lemma_fundamental_div_mod_converse(
                x as int + d / 2,
                d,
                q,
                j + d2,
            );
        }
    }
}

/// Clamp a 32-bit value to the signed 16-bit sample range.
pub fn saturating_i16(v: i32) -> (result: i16)
    ensures
        result == spec_saturating_i16(v as int),
{
    if v > 0x7FFF {
        0x7FFF
    } else if v < -0x8000 {
        -0x8000
    } else {
        v as i16
    }
}

/// Clamp a 64-bit accumulator to the signed 16-bit sample range.
pub fn saturating_i16_from_i64(v: i64) -> (result: i16)
    ensures
        result == spec_saturating_i16(v as int),
{
    if v > 0x7FFF {
        0x7FFF
    } else if v < -0x8000 {
        -0x8000
    } else {
        v as i16
    }
}

} // verus!

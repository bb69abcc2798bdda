//! Integer arithmetic over IEEE-754 bit patterns. The row table carries
//! 64-bit float cells as raw bit patterns, and every conversion the data
//! plane needs — truncation to the integer element types, widening of
//! 32-bit elements read back from a buffer, and encoding of integers into
//! float elements — is computed here on the bits alone, exactly.

use vstd::prelude::*;
use vstd::arithmetic::power2::{
    pow2,
    lemma_pow2_adds,
    lemma_pow2_strictly_increases,
    lemma_pow2_pos,
    lemma2_to64,
    lemma2_to64_rest,
};

verus! {

/// Sign bit of a 64-bit pattern: 0 or 1.
pub open spec fn f64_sign(b: u64) -> nat {
    (b / 0x8000000000000000) as nat
}

/// Biased exponent field of a 64-bit pattern: 11 bits.
pub open spec fn f64_exp_field(b: u64) -> nat {
    ((b / 0x10000000000000) % 0x800) as nat
}

/// Fraction field of a 64-bit pattern: 52 bits.
pub open spec fn f64_frac_field(b: u64) -> nat {
    (b % 0x10000000000000) as nat
}

/// Is the pattern a NaN: exponent all ones with a nonzero fraction.
pub open spec fn is_nan_bits(b: u64) -> bool {
    f64_exp_field(b) == 0x7ff && f64_frac_field(b) != 0
}

/// Is the pattern an infinity: exponent all ones with a zero fraction.
pub open spec fn is_inf_bits(b: u64) -> bool {
    f64_exp_field(b) == 0x7ff && f64_frac_field(b) == 0
}

pub fn f64_bits_sign(b: u64) -> (r: u64)
    ensures
        r as nat == f64_sign(b),
        r == 0 || r == 1,
{
    b / 0x8000000000000000
}

pub fn f64_bits_exp_field(b: u64) -> (r: u64)
    ensures
        r as nat == f64_exp_field(b),
        r < 0x800,
{
    (b / 0x10000000000000) % 0x800
}

pub fn f64_bits_frac_field(b: u64) -> (r: u64)
    ensures
        r as nat == f64_frac_field(b),
        r < 0x10000000000000,
{
    b % 0x10000000000000
}

/// Tests a 64-bit pattern for NaN.
pub fn f64_is_nan(b: u64) -> (r: bool)
    ensures
        r == is_nan_bits(b),
{
    let e = f64_bits_exp_field(b);
    let f = f64_bits_frac_field(b);
    e == 0x7ff && f != 0
}

/// 2 to the `k`, as a machine word.
pub fn pow2_u64(k: u64) -> (r: u64)
    requires
        k <= 63,
    ensures
        r as nat == pow2(k as nat),
        r >= 1,
{
    let mut i: u64 = 0;
    let mut r: u64 = 1;
    proof {
        lemma2_to64();
        lemma2_to64_rest();
        assert(pow2(0) == 1);
    }
    while i < k
        invariant
            i <= k,
            k <= 63,
            r as nat == pow2(i as nat),
            r >= 1,
        decreases k - i,
    {
        proof {
            lemma2_to64();
            if i as nat + 1 <= 63 {
                lemma_pow2_strictly_increases(i as nat + 1, 64);
            } else {
                assert(i as nat + 1 == 64);
            }
            lemma_pow2_adds(i as nat, 1);
            assert(pow2(1) == 2);
            assert(pow2(i as nat + 1) <= pow2(64));
            assert(pow2(64) == 0x10000000000000000) by {
                lemma2_to64_rest();
            }
        }
        r = r * 2;
        i = i + 1;
    }
    r
}

/// The magnitude of the finite value with pattern `b`, truncated toward
/// zero: the fraction field with the hidden bit restored, scaled by the
/// unbiased exponent, with the fractional part dropped.
pub open spec fn f64_floor_mag(b: u64) -> nat {
    let e = f64_exp_field(b);
    let m = if e == 0 {
        f64_frac_field(b)
    } else {
        (f64_frac_field(b) + pow2(52)) as nat
    };
    let pos = (if e == 0 {
        1int
    } else {
        e as int
    }) - 1075;
    if pos >= 0 {
        (m * pow2(pos as nat)) as nat
    } else {
        m / pow2((-pos) as nat)
    }
}

/// What casting the value with pattern `b` to an unsigned integer type
/// with maximum `hi` yields: NaN gives 0, anything negative gives 0, and
/// too large a magnitude saturates at `hi`.
pub open spec fn f64_cast_unsigned(b: u64, hi: int) -> int {
    if is_nan_bits(b) {
        0
    } else if f64_sign(b) == 1 {
        0
    } else if is_inf_bits(b) {
        hi
    } else if f64_floor_mag(b) > hi {
        hi
    } else {
        f64_floor_mag(b) as int
    }
}

/// What casting the value with pattern `b` to a signed integer type with
/// range `lo ..= hi` yields: NaN gives 0, truncation toward zero, and
/// saturation at the bounds.
pub open spec fn f64_cast_signed(b: u64, lo: int, hi: int) -> int {
    if is_nan_bits(b) {
        0
    } else if is_inf_bits(b) {
        if f64_sign(b) == 0 {
            hi
        } else {
            lo
        }
    } else if f64_sign(b) == 0 {
        if f64_floor_mag(b) > hi {
            hi
        } else {
            f64_floor_mag(b) as int
        }
    } else {
        if f64_floor_mag(b) > -lo {
            lo
        } else {
            -(f64_floor_mag(b) as int)
        }
    }
}

/// The truncated magnitude, saturated at the largest machine word.
fn f64_mag_sat(b: u64) -> (r: u64)
    requires
        f64_exp_field(b) != 0x7ff,
    ensures
        f64_floor_mag(b) > u64::MAX ==> r == u64::MAX,
        f64_floor_mag(b) <= u64::MAX ==> r as nat == f64_floor_mag(b),
{
    let e = f64_bits_exp_field(b);
    let f = f64_bits_frac_field(b);
    proof {
        lemma2_to64();
        lemma2_to64_rest();
    }
    let m: u64 = if e == 0 {
        f
    } else {
        f + 0x10000000000000
    };
    let ee: u64 = if e == 0 {
        1
    } else {
        e
    };
    if ee >= 1075 {
        let pos = ee - 1075;
        if pos >= 12 {
            proof {
                let mg = f64_floor_mag(b);
                assert(m as nat >= pow2(52));
                if pos > 12 {
                    lemma_pow2_strictly_increases(12, pos as nat);
                }
                lemma_pow2_adds(52, pos as nat);
                assert(mg == m as nat * pow2(pos as nat));
                assert(m as nat * pow2(pos as nat) >= pow2(52) * pow2(pos as nat))
                    by (nonlinear_arith)
                    requires
                        m as nat >= pow2(52),
                        pow2(pos as nat) >= pow2(12),
                        pow2(12) >= 1,
                ;
                assert(pow2(52) * pow2(pos as nat) >= pow2(52) * pow2(12)) by (nonlinear_arith)
                    requires
                        pow2(pos as nat) >= pow2(12),
                        pow2(52) >= 1,
                ;
                assert(pow2(52) * pow2(12) == pow2(64)) by {
                    lemma_pow2_adds(52, 12);
                }
                assert(mg >= pow2(64));
            }
            u64::MAX
        } else {
            let p = pow2_u64(pos);
            if m > u64::MAX / p {
                proof {
                    assert(m as nat * p as nat > u64::MAX as nat) by (nonlinear_arith)
                        requires
                            m as nat > (u64::MAX as nat) / (p as nat),
                            p >= 1,
                    ;
                }
                u64::MAX
            } else {
                proof {
                    assert(m as nat * p as nat <= u64::MAX as nat) by (nonlinear_arith)
                        requires
                            m as nat <= (u64::MAX as nat) / (p as nat),
                            p >= 1,
                    ;
                }
                m * p
            }
        }
    } else {
        let k = 1075 - ee;
        proof {
            assert(m < 0x20000000000000);
            assert((m as nat) < pow2(53));
        }
        if k >= 53 {
            proof {
                if k as nat != 53 {
                    lemma_pow2_strictly_increases(53, k as nat);
                }
                assert(pow2(k as nat) >= pow2(53));
                assert(f64_floor_mag(b) == m as nat / pow2(k as nat));
                assert(m as nat / pow2(k as nat) == 0) by (nonlinear_arith)
                    requires
                        (m as nat) < pow2(53),
                        pow2(k as nat) >= pow2(53),
                        pow2(53) >= 1,
                ;
            }
            0
        } else {
            let p = pow2_u64(k);
            m / p
        }
    }
}

/// Casts the 64-bit float pattern `b` to an unsigned integer range,
/// saturating: the result of `as` conversion to an unsigned type whose
/// maximum is `hi`.
pub fn f64_cast_to_unsigned(b: u64, hi: u64) -> (r: u64)
    ensures
        r as int == f64_cast_unsigned(b, hi as int),
        r <= hi,
{
    let e = f64_bits_exp_field(b);
    let f = f64_bits_frac_field(b);
    let s = f64_bits_sign(b);
    if e == 0x7ff {
        if f != 0 {
            0
        } else if s == 1 {
            0
        } else {
            hi
        }
    } else if s == 1 {
        0
    } else {
        let mag = f64_mag_sat(b);
        if mag > hi {
            hi
        } else {
            mag
        }
    }
}

/// Casts the 64-bit float pattern `b` to a signed integer range,
/// saturating: the result of `as` conversion to a signed type with range
/// `lo ..= hi`.
pub fn f64_cast_to_signed(b: u64, lo: i64, hi: i64) -> (r: i64)
    requires
        lo < 0,
        hi > 0,
    ensures
        r as int == f64_cast_signed(b, lo as int, hi as int),
        lo <= r <= hi,
{
    let e = f64_bits_exp_field(b);
    let f = f64_bits_frac_field(b);
    let s = f64_bits_sign(b);
    if e == 0x7ff {
        if f != 0 {
            0
        } else if s == 0 {
            hi
        } else {
            lo
        }
    } else {
        let mag = f64_mag_sat(b);
        if s == 0 {
            if mag > hi as u64 {
                hi
            } else {
                mag as i64
            }
        } else {
            let neg_limit = (-(lo as i128)) as u64;
            if mag > neg_limit {
                lo
            } else {
                (-(mag as i128)) as i64
            }
        }
    }
}

/// Floor of the base-2 logarithm: the position of the highest set bit.
pub open spec fn log2_floor(n: nat) -> nat
    decreases n,
{
    if n < 2 {
        0
    } else {
        1 + log2_floor(n / 2)
    }
}

proof fn lemma_log2_floor_bounds(n: nat)
    requires
        n >= 1,
    ensures
        pow2(log2_floor(n)) <= n < pow2(log2_floor(n) + 1),
    decreases n,
{
    lemma2_to64();
    if n < 2 {
    } else {
        lemma_log2_floor_bounds(n / 2);
        let t = log2_floor(n / 2);
        lemma_pow2_adds(t, 1);
        lemma_pow2_adds(t + 1, 1);
    }
}

fn log2_floor_u64(n: u64) -> (r: u64)
    requires
        n >= 1,
    ensures
        r as nat == log2_floor(n as nat),
        r <= 63,
{
    proof {
        lemma_log2_floor_bounds(n as nat);
        if log2_floor(n as nat) >= 64 {
            if log2_floor(n as nat) > 64 {
                lemma_pow2_strictly_increases(64, log2_floor(n as nat));
            }
            assert(pow2(64) == 0x10000000000000000) by {
                lemma2_to64_rest();
            }
            assert(false);
        }
    }
    let mut x = n;
    let mut t: u64 = 0;
    while x >= 2
        invariant
            x >= 1,
            log2_floor(n as nat) == t + log2_floor(x as nat),
            log2_floor(n as nat) <= 63,
        decreases x,
    {
        proof {
            assert(log2_floor(x as nat) == 1 + log2_floor((x / 2) as nat));
        }
        x = x / 2;
        t = t + 1;
    }
    t
}

/// Rounds the `k` low bits of `m` away: to the nearest multiple, ties to
/// even.
pub open spec fn rne_shift(m: nat, k: nat) -> nat
    recommends
        k >= 1,
{
    let q = m / pow2(k);
    let r = m % pow2(k);
    let half = pow2((k - 1) as nat);
    if r > half || (r == half && q % 2 == 1) {
        q + 1
    } else {
        q
    }
}

fn rne_shift_u64(m: u64, k: u64) -> (res: u64)
    requires
        1 <= k <= 63,
    ensures
        res as nat == rne_shift(m as nat, k as nat),
        res as nat <= (m as nat) / pow2(k as nat) + 1,
{
    let p = pow2_u64(k);
    proof {
        lemma_pow2_adds((k - 1) as nat, 1);
        lemma2_to64();
        assert(p / 2 == pow2((k - 1) as nat));
        assert(m / p <= m / 2) by (nonlinear_arith)
            requires
                p >= 2,
                m >= 0,
        ;
    }
    let q = m / p;
    let r = m % p;
    let half = p / 2;
    if r > half || (r == half && q % 2 == 1) {
        q + 1
    } else {
        q
    }
}

/// Sign bit of a 32-bit pattern.
pub open spec fn f32_sign(b: u32) -> nat {
    (b / 0x80000000) as nat
}

/// Biased exponent field of a 32-bit pattern: 8 bits.
pub open spec fn f32_exp_field(b: u32) -> nat {
    ((b / 0x800000) % 0x100) as nat
}

/// Fraction field of a 32-bit pattern: 23 bits.
pub open spec fn f32_frac_field(b: u32) -> nat {
    (b % 0x800000) as nat
}

/// The 64-bit pattern of the value the 32-bit pattern `b` holds. Widening
/// is exact: the exponent is rebiased, the fraction is shifted up, and a
/// 32-bit subnormal is renormalised. A NaN keeps its sign and its payload,
/// shifted up.
pub open spec fn f32_promote_bits(b: u32) -> nat {
    let s = f32_sign(b);
    let e = f32_exp_field(b);
    let f = f32_frac_field(b);
    let sb = s * pow2(63);
    if e == 0xff {
        sb + 0x7ff * pow2(52) + f * pow2(29)
    } else if e == 0 && f == 0 {
        sb
    } else if e == 0 {
        let t = log2_floor(f);
        (sb + (t + 874) * pow2(52) + (f - pow2(t)) * pow2((52 - t) as nat)) as nat
    } else {
        sb + (e + 896) * pow2(52) + f * pow2(29)
    }
}

/// Widens a 32-bit element pattern to the 64-bit pattern of the same
/// value.
pub fn f32_promote(b: u32) -> (r: u64)
    ensures
        r as nat == f32_promote_bits(b),
{
    proof {
        lemma2_to64();
        lemma2_to64_rest();
    }
    let s: u64 = (b / 0x80000000) as u64;
    let e: u64 = ((b / 0x800000) % 0x100) as u64;
    let f: u64 = (b % 0x800000) as u64;
    let sb: u64 = s * 0x8000000000000000;
    if e == 0xff {
        sb + 0x7ff * 0x10000000000000 + f * 0x20000000
    } else if e == 0 && f == 0 {
        sb
    } else if e == 0 {
        let t = log2_floor_u64(f);
        proof {
            lemma_log2_floor_bounds(f as nat);
            assert(t < 23) by {
                if t >= 23 {
                    lemma_pow2_strictly_increases(23, (t + 1) as nat);
                    assert(pow2((t + 1) as nat) > pow2(23));
                }
            }
            lemma_pow2_adds((t) as nat, (52 - t) as nat);
            assert((f as nat - pow2(t as nat)) * pow2((52 - t) as nat) < pow2(t as nat) * pow2(
                (52 - t) as nat,
            )) by (nonlinear_arith)
                requires
                    f as nat - pow2(t as nat) < pow2(t as nat),
                    pow2((52 - t) as nat) >= 1,
            ;
        }
        let p = pow2_u64(t);
        let q = pow2_u64(52 - t);
        sb + (t + 874) * 0x10000000000000 + (f - p) * q
    } else {
        sb + (e + 896) * 0x10000000000000 + f * 0x20000000
    }
}

/// The pattern of the float nearest the non-negative integer `mag`, with
/// `mant` mantissa bits and exponent bias `bias`: exact when `mag` needs
/// no more than `mant + 1` significant bits, and rounded to nearest, ties
/// to even, above that. Carry out of the mantissa flows into the exponent
/// field by construction.
pub open spec fn float_bits_of_mag(mag: nat, mant: nat, bias: nat) -> nat {
    if mag == 0 {
        0
    } else {
        let t = log2_floor(mag);
        let scaled = if t <= mant {
            mag * pow2((mant - t) as nat)
        } else {
            rne_shift(mag, (t - mant) as nat)
        };
        ((t + bias - 1) * pow2(mant) + scaled) as nat
    }
}

fn float_mag_encode(mag: u64, mant: u64, bias: u64) -> (r: u64)
    requires
        1 <= mant <= 52,
        1 <= bias <= 1023,
    ensures
        r as nat == float_bits_of_mag(mag as nat, mant as nat, bias as nat),
        (r as nat) <= (64 + bias) * pow2(mant as nat),
{
    proof {
        lemma_pow2_pos(mant as nat);
    }
    if mag == 0 {
        proof {
            assert((64 + bias) * pow2(mant as nat) >= 1) by (nonlinear_arith)
                requires
                    pow2(mant as nat) >= 1,
                    bias >= 1,
            ;
        }
        return 0;
    }
    let t = log2_floor_u64(mag);
    proof {
        lemma_log2_floor_bounds(mag as nat);
    }
    let scaled: u64 = if t <= mant {
        let q = pow2_u64(mant - t);
        proof {
            lemma_pow2_adds((t + 1) as nat, (mant - t) as nat);
            assert(mag as nat * pow2((mant - t) as nat) < pow2((t + 1) as nat) * pow2(
                (mant - t) as nat,
            )) by (nonlinear_arith)
                requires
                    (mag as nat) < pow2((t + 1) as nat),
                    pow2((mant - t) as nat) >= 1,
            ;
            lemma_pow2_strictly_increases((mant + 1) as nat, 64);
            assert(pow2(64) == 0x10000000000000000) by {
                lemma2_to64_rest();
            }
        }
        mag * q
    } else {
        let res = rne_shift_u64(mag, t - mant);
        proof {
            lemma_pow2_adds((mant + 1) as nat, (t - mant) as nat);
            assert((mag as nat) / pow2((t - mant) as nat) < pow2((mant + 1) as nat))
                by (nonlinear_arith)
                requires
                    (mag as nat) < pow2((t + 1) as nat),
                    pow2((t + 1) as nat) == pow2((mant + 1) as nat) * pow2((t - mant) as nat),
                    pow2((t - mant) as nat) >= 1,
            ;
        }
        res
    };
    proof {
        // scaled <= 2^(mant+1) == 2 * 2^mant
        lemma_pow2_adds(mant as nat, 1);
        lemma2_to64();
        lemma2_to64_rest();
        assert(scaled as nat <= 2 * pow2(mant as nat));
        // the packed word stays within (64 + bias) * 2^mant <= 1087 * 2^52
        assert(((t + bias - 1) as nat * pow2(mant as nat) + scaled as nat) <= ((64 + bias) as nat)
            * pow2(mant as nat)) by (nonlinear_arith)
            requires
                scaled as nat <= 2 * pow2(mant as nat),
                (t + bias - 1) as nat <= 62 + bias as nat,
                pow2(mant as nat) >= 1,
        ;
        if mant < 52 {
            lemma_pow2_strictly_increases(mant as nat, 52);
        }
        assert(((64 + bias) as nat) * pow2(mant as nat) <= 1087 * pow2(52)) by (nonlinear_arith)
            requires
                bias <= 1023,
                1 <= pow2(mant as nat) <= pow2(52),
        ;
        assert(pow2(52) == 0x10000000000000);
    }
    (t + bias - 1) * pow2_u64(mant) + scaled
}

/// The 64-bit float pattern nearest the integer `i`: sign and magnitude,
/// rounded to nearest, ties to even.
pub open spec fn f64_bits_of_i64(i: int) -> nat {
    if i < 0 {
        pow2(63) + float_bits_of_mag((-i) as nat, 52, 1023)
    } else {
        float_bits_of_mag(i as nat, 52, 1023)
    }
}

/// The 32-bit float pattern nearest the integer `i`: sign and magnitude,
/// rounded to nearest, ties to even.
pub open spec fn f32_bits_of_i64(i: int) -> nat {
    if i < 0 {
        pow2(31) + float_bits_of_mag((-i) as nat, 23, 127)
    } else {
        float_bits_of_mag(i as nat, 23, 127)
    }
}

/// Encodes an integer as the nearest 64-bit float pattern.
pub fn i64_to_f64_bits(i: i64) -> (r: u64)
    ensures
        r as nat == f64_bits_of_i64(i as int),
{
    let w = i as i128;
    let mag: u64 = if w < 0 {
        (-w) as u64
    } else {
        w as u64
    };
    let body = float_mag_encode(mag, 52, 1023);
    proof {
        assert(pow2(52) == 0x10000000000000) by {
            lemma2_to64_rest();
        }
        assert((body as nat) <= 1087 * 0x10000000000000);
        assert(pow2(63) == 0x8000000000000000) by {
            lemma2_to64_rest();
        }
    }
    if i < 0 {
        0x8000000000000000 + body
    } else {
        body
    }
}

/// Encodes an integer as the nearest 32-bit float pattern.
pub fn i64_to_f32_bits(i: i64) -> (r: u32)
    ensures
        r as nat == f32_bits_of_i64(i as int),
{
    let w = i as i128;
    let mag: u64 = if w < 0 {
        (-w) as u64
    } else {
        w as u64
    };
    let body = float_mag_encode(mag, 23, 127);
    proof {
        assert(pow2(23) == 0x800000) by {
            lemma2_to64();
        }
        assert((body as nat) <= 191 * 0x800000);
        assert(pow2(31) == 0x80000000) by {
            lemma2_to64();
        }
    }
    if i < 0 {
        0x80000000 + body as u32
    } else {
        body as u32
    }
}

/// The 32-bit pattern nearest the value of the 64-bit pattern `b`:
/// the exponent is rebiased and the significand rounded to nearest, ties
/// to even; too large a value gives an infinity, and a value below the
/// 32-bit subnormal range gives a signed zero. A NaN keeps its sign and
/// the top of its payload, with the quiet bit as fallback.
pub open spec fn f64_demote_bits(b: u64) -> nat {
    let s = f64_sign(b);
    let e = f64_exp_field(b);
    let f = f64_frac_field(b);
    let sb = s * pow2(31);
    if e == 0x7ff {
        if f == 0 {
            sb + 0xff * pow2(23)
        } else if f / pow2(29) == 0 {
            sb + 0xff * pow2(23) + pow2(22)
        } else {
            sb + 0xff * pow2(23) + f / pow2(29)
        }
    } else if e == 0 {
        sb
    } else {
        let m = (f + pow2(52)) as nat;
        if e >= 897 {
            let q = rne_shift(m, 29);
            if (e - 897) * pow2(23) + q >= 0xff * pow2(23) {
                sb + 0xff * pow2(23)
            } else {
                (sb + (e - 897) * pow2(23) + q) as nat
            }
        } else {
            let k = (926 - e) as nat;
            if k >= 54 {
                sb
            } else {
                sb + rne_shift(m, k)
            }
        }
    }
}

/// Narrows a 64-bit pattern to the nearest 32-bit pattern.
pub fn f64_demote(b: u64) -> (r: u32)
    ensures
        r as nat == f64_demote_bits(b),
{
    proof {
        lemma2_to64();
        lemma2_to64_rest();
    }
    let s = f64_bits_sign(b);
    let e = f64_bits_exp_field(b);
    let f = f64_bits_frac_field(b);
    let sb: u32 = (s as u32) * 0x80000000;
    if e == 0x7ff {
        if f == 0 {
            sb + 0xff * 0x800000
        } else if f / 0x20000000 == 0 {
            sb + 0xff * 0x800000 + 0x400000
        } else {
            proof {
                assert(f64_frac_field(b) / pow2(29) < pow2(23)) by {
                    assert(f64_frac_field(b) < pow2(52));
                    lemma_pow2_adds(23, 29);
                    assert((f as nat) / pow2(29) < pow2(23)) by (nonlinear_arith)
                        requires
                            (f as nat) < pow2(23) * pow2(29),
                            pow2(29) >= 1,
                    ;
                }
            }
            sb + 0xff * 0x800000 + (f / 0x20000000) as u32
        }
    } else if e == 0 {
        sb
    } else {
        let m: u64 = f + 0x10000000000000;
        if e >= 897 {
            let q = rne_shift_u64(m, 29);
            proof {
                assert((m as nat) / pow2(29) < pow2(25)) by {
                    lemma_pow2_adds(25, 29);
                    assert((m as nat) / pow2(29) < pow2(25)) by (nonlinear_arith)
                        requires
                            (m as nat) < pow2(25) * pow2(29),
                            pow2(29) >= 1,
                    ;
                    assert(pow2(25) * pow2(29) == pow2(54));
                    assert((m as nat) < pow2(54));
                }
                assert(q as nat <= pow2(25) + 1);
            }
            if (e - 897) * 0x800000 + q >= 0xff * 0x800000 {
                sb + 0xff * 0x800000
            } else {
                sb + ((e - 897) * 0x800000 + q) as u32
            }
        } else {
            let k = 926 - e;
            if k >= 54 {
                sb
            } else {
                let q = rne_shift_u64(m, k);
                proof {
                    assert(k >= 30);
                    assert((m as nat) / pow2(k as nat) + 1 <= pow2(23) + 1) by {
                        lemma_pow2_adds(23, 30);
                        if k > 30 {
                            lemma_pow2_strictly_increases(30, k as nat);
                        }
                        assert((m as nat) / pow2(k as nat) < pow2(23)) by (nonlinear_arith)
                            requires
                                (m as nat) < pow2(23) * pow2(30),
                                pow2(k as nat) >= pow2(30),
                                pow2(30) >= 1,
                        ;
                        assert((m as nat) < pow2(53));
                        assert(pow2(23) * pow2(30) == pow2(53));
                    }
                }
                sb + q as u32
            }
        }
    }
}

fn log2_floor_u128(n: u128) -> (r: u64)
    requires
        n >= 1,
    ensures
        r as nat == log2_floor(n as nat),
{
    let mut x = n;
    let mut t: u64 = 0;
    while x >= 2
        invariant
            x >= 1,
            t <= 127,
            log2_floor(n as nat) == t + log2_floor(x as nat),
        decreases x,
    {
        proof {
            assert(log2_floor(x as nat) == 1 + log2_floor((x / 2) as nat));
            lemma_log2_floor_bounds(x as nat);
            if t >= 127 {
                assert(pow2((t + log2_floor(x as nat)) as nat) <= n as nat) by {
                    lemma_log2_floor_bounds(n as nat);
                }
                assert(pow2(128) <= n as nat) by {
                    if (t + log2_floor(x as nat)) as nat > 128 {
                        lemma_pow2_strictly_increases(
                            128,
                            (t + log2_floor(x as nat)) as nat,
                        );
                    }
                    assert(t + log2_floor(x as nat) >= 128);
                }
                assert(pow2(128) == pow2(64) * pow2(64)) by {
                    lemma_pow2_adds(64, 64);
                }
                assert(pow2(64) == 0x10000000000000000) by {
                    lemma2_to64_rest();
                }
                assert(false);
            }
        }
        x = x / 2;
        t = t + 1;
    }
    t
}

fn rne_shift_u128(m: u128, k: u64) -> (res: u128)
    requires
        1 <= k <= 63,
    ensures
        res as nat == rne_shift(m as nat, k as nat),
        res as nat <= (m as nat) / pow2(k as nat) + 1,
{
    let p = pow2_u64(k) as u128;
    proof {
        lemma_pow2_adds((k - 1) as nat, 1);
        lemma2_to64();
        assert(p / 2 == pow2((k - 1) as nat));
        assert(m / p <= m / 2) by (nonlinear_arith)
            requires
                p >= 2,
                m >= 0,
        ;
    }
    let q = m / p;
    let r = m % p;
    let half = p / 2;
    if r > half || (r == half && q % 2 == 1) {
        q + 1
    } else {
        q
    }
}

/// The integer key of a finite 64-bit float value: the value multiplied
/// by one billion as a 64-bit float (round to nearest, ties to even) and
/// then rounded to the nearest integer, halves away from zero,
/// saturating at the signed 64-bit range. One billion is 1953125 times 2
/// to the 9th, so the significand product rounds to 53 bits and the
/// exponent shifts by nine; a product too large for the float range
/// saturates like an infinity, and a NaN gives zero.
pub open spec fn f64_billionths(b: u64) -> int {
    let e = f64_exp_field(b);
    let f = f64_frac_field(b);
    let s = f64_sign(b);
    if e == 0x7ff {
        if f != 0 {
            0
        } else if s == 0 {
            0x7fffffffffffffff
        } else {
            -0x8000000000000000
        }
    } else {
        let m = if e == 0 {
            f
        } else {
            (f + pow2(52)) as nat
        };
        let p = (m * 1953125) as nat;
        if p == 0 {
            0
        } else {
            let t = log2_floor(p);
            let k = if t > 52 {
                (t - 52) as nat
            } else {
                0
            };
            let q = if t > 52 {
                rne_shift(p, k)
            } else {
                p
            };
            let sh = (if e == 0 {
                1int
            } else {
                e as int
            }) - 1066 + k as int;
            let mag = if sh >= 0 {
                (q * pow2(sh as nat)) as nat
            } else {
                (q / pow2((-sh) as nat) + if q % pow2((-sh) as nat) >= pow2(
                    ((-sh) - 1) as nat,
                ) {
                    1nat
                } else {
                    0nat
                }) as nat
            };
            if s == 0 {
                if mag > 0x7fffffffffffffff {
                    0x7fffffffffffffff
                } else {
                    mag as int
                }
            } else {
                if mag > 0x8000000000000000 {
                    -0x8000000000000000
                } else {
                    -(mag as int)
                }
            }
        }
    }
}

/// Computes the scaled-billionths key of a 64-bit float pattern.
pub fn f64_scaled_billionths(b: u64) -> (r: i64)
    ensures
        r as int == f64_billionths(b),
{
    proof {
        lemma2_to64();
        lemma2_to64_rest();
    }
    let e = f64_bits_exp_field(b);
    let f = f64_bits_frac_field(b);
    let s = f64_bits_sign(b);
    if e == 0x7ff {
        if f != 0 {
            0
        } else if s == 0 {
            i64::MAX
        } else {
            i64::MIN
        }
    } else {
        let m: u64 = if e == 0 {
            f
        } else {
            f + 0x10000000000000
        };
        proof {
            assert((m as int) * 1953125 <= 0x20000000000000 * 1953125) by (nonlinear_arith)
                requires
                    0 <= m <= 0x20000000000000,
            ;
        }
        let p: u128 = (m as u128) * 1953125;
        if p == 0 {
            return 0;
        }
        let t = log2_floor_u128(p);
        proof {
            lemma_log2_floor_bounds(p as nat);
            assert(t <= 73) by {
                if t as nat >= 74 {
                    if t as nat > 74 {
                        lemma_pow2_strictly_increases(74, t as nat);
                    }
                    assert(pow2(74) <= p as nat);
                    assert(pow2(74) == pow2(64) * 1024) by {
                        lemma_pow2_adds(64, 10);
                    }
                    assert(false);
                }
            }
        }
        let (q, k): (u128, u64) = if t > 52 {
            let kk = t - 52;
            let qq = rne_shift_u128(p, kk);
            proof {
                // p < 2^(t+1) == 2^53 * 2^k, so the rounded 53-bit
                // significand stays within 2^53; p >= 2^t keeps it at
                // least 2^52
                lemma_pow2_adds(53, kk as nat);
                lemma_pow2_adds(52, kk as nat);
                assert((p as nat) / pow2(kk as nat) < pow2(53)) by (nonlinear_arith)
                    requires
                        (p as nat) < pow2((t + 1) as nat),
                        pow2((t + 1) as nat) == pow2(53) * pow2(kk as nat),
                        pow2(kk as nat) >= 1,
                ;
                assert((p as nat) / pow2(kk as nat) >= pow2(52)) by (nonlinear_arith)
                    requires
                        (p as nat) >= pow2(t as nat),
                        pow2(t as nat) == pow2(52) * pow2(kk as nat),
                        pow2(kk as nat) >= 1,
                ;
                assert(rne_shift(p as nat, kk as nat) >= (p as nat) / pow2(kk as nat));
                assert(qq >= 1);
            }
            (qq, kk)
        } else {
            proof {
                if ((t + 1) as nat) < 53 {
                    lemma_pow2_strictly_increases((t + 1) as nat, 53);
                }
                assert((p as nat) < pow2(53));
            }
            (p, 0)
        };
        proof {
            assert(q as nat <= pow2(53));
            assert(q >= 1);
        }
        let ee: u64 = if e == 0 {
            1
        } else {
            e
        };
        if ee + k >= 1066 {
            let sh = ee + k - 1066;
            if sh >= 64 {
                proof {
                    let mg = (q as nat * pow2(sh as nat)) as nat;
                    if sh > 64 {
                        lemma_pow2_strictly_increases(64, sh as nat);
                    }
                    assert(mg >= pow2(64)) by (nonlinear_arith)
                        requires
                            mg == q as nat * pow2(sh as nat),
                            q >= 1,
                            pow2(sh as nat) >= pow2(64),
                    ;
                }
                if s == 0 {
                    i64::MAX
                } else {
                    i64::MIN
                }
            } else {
                let pw = pow2_u64(sh);
                proof {
                    assert((q as nat) * (pw as nat) <= pow2(53) * pow2(63)) by (nonlinear_arith)
                        requires
                            q as nat <= pow2(53),
                            pw as nat <= pow2(63),
                    ;
                    assert(pow2(53) * pow2(63) == pow2(116)) by {
                        lemma_pow2_adds(53, 63);
                    }
                    assert(pow2(116) == pow2(64) * pow2(52)) by {
                        lemma_pow2_adds(64, 52);
                    }
                }
                let mag: u128 = q * (pw as u128);
                if s == 0 {
                    if mag > i64::MAX as u128 {
                        i64::MAX
                    } else {
                        mag as i64
                    }
                } else {
                    if mag > 0x8000000000000000u128 {
                        i64::MIN
                    } else {
                        (-(mag as i128)) as i64
                    }
                }
            }
        } else {
            let ks = 1066 - (ee + k);
            let mag: u128 = if ks >= 55 {
                proof {
                    if ks as nat > 55 {
                        lemma_pow2_strictly_increases(55, ks as nat);
                    }
                    lemma_pow2_strictly_increases(53, 55);
                    lemma_pow2_strictly_increases(53, 54);
                    lemma_pow2_adds((ks - 1) as nat, 1);
                    assert(pow2((ks - 1) as nat) >= pow2(54)) by (nonlinear_arith)
                        requires
                            pow2(ks as nat) == pow2((ks - 1) as nat) * 2,
                            pow2(ks as nat) >= pow2(55),
                            pow2(55) == pow2(54) * 2,
                    ;
                    assert((q as nat) / pow2(ks as nat) == 0 && (q as nat) % pow2(ks as nat)
                        == q as nat) by (nonlinear_arith)
                        requires
                            q as nat <= pow2(53),
                            pow2(ks as nat) >= pow2(55),
                            pow2(55) > pow2(53),
                            pow2(53) >= 1,
                    ;
                    assert((q as nat) < pow2((ks - 1) as nat));
                }
                0
            } else {
                let pk = pow2_u64(ks) as u128;
                proof {
                    lemma_pow2_adds((ks - 1) as nat, 1);
                    assert(pk / 2 == pow2((ks - 1) as nat));
                }
                let down = q / pk;
                if q % pk >= pk / 2 {
                    down + 1
                } else {
                    down
                }
            };
            proof {
                assert(mag as nat <= pow2(52) + 1) by (nonlinear_arith)
                    requires
                        mag as nat <= (q as nat) / pow2(ks as nat) + 1 || mag == 0,
                        q as nat <= pow2(53),
                        pow2(ks as nat) >= 2,
                        pow2(53) == pow2(52) * 2,
                ;
                assert(pow2(52) + 1 < 0x8000000000000000);
            }
            if s == 0 {
                mag as i64
            } else {
                (-(mag as i128)) as i64
            }
        }
    }
}

proof fn lemma_u32_fields_repack(c: u32)
    ensures
        c as nat == f32_sign(c) * pow2(31) + f32_exp_field(c) * pow2(23) + f32_frac_field(c),
        f32_sign(c) <= 1,
        f32_exp_field(c) < 0x100,
        f32_frac_field(c) < pow2(23),
{
    lemma2_to64();
    vstd::arithmetic::div_mod::lemma_fundamental_div_mod(c as int, 0x800000);
    vstd::arithmetic::div_mod::lemma_fundamental_div_mod((c as int) / 0x800000, 0x100);
    vstd::arithmetic::div_mod::lemma_div_denominator(c as int, 0x800000, 0x100);
    assert((c as int) / 0x80000000 <= 1) by (nonlinear_arith)
        requires
            0 <= (c as int) < 0x100000000,
    ;
    assert(0x800000 * (0x100 * ((c as int) / 0x80000000) + ((c as int) / 0x800000) % 0x100)
        == 0x80000000 * ((c as int) / 0x80000000) + 0x800000 * (((c as int) / 0x800000)
        % 0x100)) by (nonlinear_arith);
}

proof fn lemma_u64_fields_unpack(s: nat, e: nat, f: nat)
    requires
        s <= 1,
        e < 0x800,
        f < pow2(52),
    ensures
        s * pow2(63) + e * pow2(52) + f < pow2(64),
        f64_sign(((s * pow2(63) + e * pow2(52) + f) as u64)) == s,
        f64_exp_field(((s * pow2(63) + e * pow2(52) + f) as u64)) == e,
        f64_frac_field(((s * pow2(63) + e * pow2(52) + f) as u64)) == f,
{
    lemma2_to64();
    lemma2_to64_rest();
    let v = s * pow2(63) + e * pow2(52) + f;
    assert(v < pow2(64)) by (nonlinear_arith)
        requires
            v == s * 0x8000000000000000 + e * 0x10000000000000 + f,
            s <= 1,
            e < 0x800,
            f < 0x10000000000000,
            pow2(64) == 0x10000000000000000,
    ;
    let b = v as u64;
    assert(b as int == (s * 0x800 + e) as int * 0x10000000000000 + f as int) by (nonlinear_arith)
        requires
            b == s * 0x8000000000000000 + e * 0x10000000000000 + f,
    ;
    vstd::arithmetic::div_mod::lemma_fundamental_div_mod_converse(
        b as int,
        0x10000000000000,
        (s * 0x800 + e) as int,
        f as int,
    );
    assert((s * 0x800 + e) as int == s as int * 0x800 + e) by (nonlinear_arith);
    vstd::arithmetic::div_mod::lemma_fundamental_div_mod_converse(
        (b as int) / 0x10000000000000,
        0x800,
        s as int,
        e as int,
    );
    vstd::arithmetic::div_mod::lemma_div_denominator(b as int, 0x10000000000000, 0x800);
}

/// Narrowing after widening gives the 32-bit pattern back, whatever it
/// is: the round trip through a 64-bit cell is exact for every value the
/// 32-bit type represents, a NaN's sign and payload included.
pub proof fn lemma_demote_promote(c: u32)
    ensures
        f32_promote_bits(c) < pow2(64),
        f64_demote_bits((f32_promote_bits(c)) as u64) == c as nat,
{
    lemma2_to64();
    lemma2_to64_rest();
    lemma_u32_fields_repack(c);
    let s = f32_sign(c);
    let e8 = f32_exp_field(c);
    let f23 = f32_frac_field(c);
    if e8 == 0xff {
        let ff = (f23 * pow2(29)) as nat;
        assert(ff < pow2(52)) by (nonlinear_arith)
            requires
                ff == f23 * 0x20000000,
                f23 < 0x800000,
                pow2(52) == 0x10000000000000,
        ;
        lemma_u64_fields_unpack(s, 0x7ff, ff);
        let b = (s * pow2(63) + 0x7ff * pow2(52) + ff) as u64;
        vstd::arithmetic::div_mod::lemma_fundamental_div_mod_converse(
            ff as int,
            0x20000000,
            f23 as int,
            0,
        );
        if f23 == 0 {
            assert(f64_demote_bits(b) == s * pow2(31) + 0xff * pow2(23));
        } else {
            assert(ff != 0) by (nonlinear_arith)
                requires
                    ff == f23 * 0x20000000,
                    f23 >= 1,
            ;
            assert(f64_demote_bits(b) == s * pow2(31) + 0xff * pow2(23) + f23);
        }
    } else if e8 == 0 && f23 == 0 {
        lemma_u64_fields_unpack(s, 0, 0);
        let b = (s * pow2(63)) as u64;
        assert(f64_demote_bits(b) == s * pow2(31));
    } else if e8 == 0 {
        let t = log2_floor(f23);
        lemma_log2_floor_bounds(f23);
        assert(t <= 22) by {
            if t >= 23 {
                if t > 23 {
                    lemma_pow2_strictly_increases(23, t);
                }
                assert(pow2(23) <= f23);
            }
        }
        let ff = ((f23 - pow2(t)) * pow2((52 - t) as nat)) as nat;
        lemma_pow2_adds(t, (52 - t) as nat);
        assert(ff < pow2(52)) by (nonlinear_arith)
            requires
                ff == (f23 - pow2(t)) * pow2((52 - t) as nat),
                f23 - pow2(t) < pow2(t),
                pow2(t) * pow2((52 - t) as nat) == pow2(52),
                pow2((52 - t) as nat) >= 1,
        ;
        lemma_u64_fields_unpack(s, t + 874, ff);
        let b = (s * pow2(63) + (t + 874) * pow2(52) + ff) as u64;
        let m = (ff + pow2(52)) as nat;
        assert(m == f23 * pow2((52 - t) as nat)) by (nonlinear_arith)
            requires
                m == (f23 - pow2(t)) * pow2((52 - t) as nat) + pow2(t) * pow2((52 - t) as nat),
                f23 >= pow2(t),
        ;
        let k = (926 - (t + 874)) as nat;
        assert(k == (52 - t) as nat);
        vstd::arithmetic::div_mod::lemma_fundamental_div_mod_converse(
            m as int,
            pow2(k) as int,
            f23 as int,
            0,
        );
        lemma_pow2_pos((k - 1) as nat);
        assert(rne_shift(m, k) == f23);
        assert(f64_demote_bits(b) == s * pow2(31) + f23);
    } else {
        let ff = (f23 * pow2(29)) as nat;
        assert(ff < pow2(52)) by (nonlinear_arith)
            requires
                ff == f23 * 0x20000000,
                f23 < 0x800000,
                pow2(52) == 0x10000000000000,
        ;
        lemma_u64_fields_unpack(s, e8 + 896, ff);
        let b = (s * pow2(63) + (e8 + 896) * pow2(52) + ff) as u64;
        let m = (ff + pow2(52)) as nat;
        assert(m == (f23 + pow2(23)) * pow2(29)) by (nonlinear_arith)
            requires
                m == f23 * 0x20000000 + 0x10000000000000,
                pow2(23) == 0x800000,
                pow2(29) == 0x20000000,
                pow2(52) == 0x10000000000000,
        ;
        vstd::arithmetic::div_mod::lemma_fundamental_div_mod_converse(
            m as int,
            0x20000000,
            (f23 + pow2(23)) as int,
            0,
        );
        lemma_pow2_pos(28);
        assert(rne_shift(m, 29) == f23 + pow2(23));
        let q = rne_shift(m, 29);
        assert((e8 + 896 - 897) * pow2(23) + q == e8 * pow2(23) + f23) by (nonlinear_arith)
            requires
                q == f23 + 0x800000,
                pow2(23) == 0x800000,
                e8 >= 1,
        ;
        assert(e8 * pow2(23) + f23 < 0xff * pow2(23)) by (nonlinear_arith)
            requires
                e8 <= 0xfe,
                f23 < 0x800000,
                pow2(23) == 0x800000,
        ;
        assert(f64_demote_bits(b) == s * pow2(31) + e8 * pow2(23) + f23);
    }
}

/// The integer a 64-bit float cell hashes by: a NaN collapses to a fixed
/// sentinel, so no NaN reaches a hasher; any other value hashes by its
/// value scaled to integer billionths, so equal numeric values hash
/// identically.
pub fn double_hash_key(bits: u64) -> (r: i64)
    ensures
        is_nan_bits(bits) ==> r == 0,
        !is_nan_bits(bits) ==> r as int == f64_billionths(bits),
{
    if f64_is_nan(bits) {
        0
    } else {
        f64_scaled_billionths(bits)
    }
}

} // verus!

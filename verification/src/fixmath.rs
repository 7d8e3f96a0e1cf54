//! Fixed-point arithmetic for the volume model.
//!
//! Loudness values are integers counted in millionths of their unit
//! (micro-decibel, micro-volt, micro-fraction).  The decibel law
//! `volts = 10^(db/20)` is transcendental, so it is computed over binary
//! fixed point: the exponential comes from the `cordic` crate through one
//! trusted wrapper, and the base-two logarithm is a verified
//! square-and-compare routine defined here.  Both directions are pinned
//! exactly to their specification functions; the specifications are the
//! fixed-point algorithms themselves, since real-number logarithms cannot
//! be stated in this logic.

use vstd::prelude::*;
use vstd::arithmetic::power2::{pow2, lemma_pow2_unfold, lemma_pow2_strictly_increases, lemma2_to64};
use vstd::arithmetic::div_mod::lemma_div_is_ordered;

verus! {

/// One whole unit in the micro fixed-point scale.
pub const MICRO: i64 = 1_000_000;

/// Largest decibel magnitude (micro-decibel) the conversions accept.
pub const DB_LIMIT: i64 = 180_000_000;

/// Largest linear-voltage magnitude (micro-volt) accepted as an input level.
pub const LIN_LIMIT: i64 = 2_000_000_000_000_000;

/// Largest fraction magnitude (micro units) accepted as an input level.
pub const FRAC_LIMIT: i64 = 1_000_000_000;

/// Every linear value handed to the logarithm lies within this magnitude;
/// it also bounds what the exponential path can produce.
pub const LIN_ARG_LIMIT: i64 = 2_147_483_648_000_000;

/// Bound on the magnitude of a decibel value computed from a linear one.
pub const DB_OUT_LIMIT: i64 = 400_000_000;

/// `round(ln(10) / 20 * 2^32)`: micro-decibel to Q32.32 natural-exponent argument.
pub const EXP_ARG_PER_MICRODB: u64 = 494_476_384;

/// `21 * 2^32`: the exponent argument kept within `cordic::exp`'s safe domain.
pub const EXP_ARG_LIMIT: i64 = 90_194_313_216;

/// `round(20 * log10(2) * 10^6)`: micro-decibel per unit of base-two logarithm.
pub const MICRODB_PER_LOG2: u64 = 6_020_600;

/// What `clamp_i64` returns.
pub open spec fn spec_clamp(x: int, lo: int, hi: int) -> int {
    if x < lo {
        lo
    } else if x > hi {
        hi
    } else {
        x
    }
}

/// Clamp `x` into the closed interval `[lo, hi]`.
pub fn clamp_i64(x: i64, lo: i64, hi: i64) -> (r: i64)
    requires
        lo <= hi,
    ensures
        r == spec_clamp(x as int, lo as int, hi as int),
        lo <= r <= hi,
{
    if x < lo {
        lo
    } else if x > hi {
        hi
    } else {
        x
    }
}

/// Value of `cordic::exp` on a Q32.32 fixed-point bit pattern.  The result
/// depends on the argument bits alone.
pub uninterp spec fn exp_fixed_of(x: i64) -> i64;

/// Relies on `cordic::exp` over `fixed::types::I32F32`: a deterministic
/// CORDIC evaluation of `e^x` in Q32.32 fixed point.  The bound on `x`
/// keeps `e^x` and every intermediate product of that routine inside the
/// `I32F32` range, so the call cannot overflow.
#[verifier::external_body]
fn exp_i32f32(x: i64) -> (r: i64)
    requires
        -EXP_ARG_LIMIT <= x <= EXP_ARG_LIMIT,
    ensures
        r == exp_fixed_of(x),
{
    cordic::exp(fixed::types::I32F32::from_bits(x)).to_bits()
}

/// Q32.32 exponent argument for a micro-decibel value: `db * ln(10)/20`,
/// computed on the magnitude and re-signed.
pub open spec fn spec_exp_arg(db: int) -> int {
    if db >= 0 {
        (db * EXP_ARG_PER_MICRODB) / (MICRO as int)
    } else {
        -(((-db) * EXP_ARG_PER_MICRODB) / (MICRO as int))
    }
}

/// Micro-units described by a Q32.32 bit pattern: `y * 10^6 / 2^32`,
/// computed on the magnitude and re-signed.
pub open spec fn spec_micro_of_fixed(y: int) -> int {
    if y >= 0 {
        (y * (MICRO as int)) / 0x1_0000_0000
    } else {
        -(((-y) * (MICRO as int)) / 0x1_0000_0000)
    }
}

/// The linear-voltage value (micro-volt) of a decibel value (micro-decibel).
pub open spec fn spec_lin_of_db(db: int) -> int {
    spec_micro_of_fixed(exp_fixed_of(spec_exp_arg(db) as i64) as int)
}

/// Convert micro-decibel to micro-volt by `volts = 10^(db/20)` in fixed point.
pub fn lin_of_db_micro(db: i64) -> (r: i64)
    requires
        -DB_LIMIT <= db <= DB_LIMIT,
    ensures
        r == spec_lin_of_db(db as int),
        -LIN_ARG_LIMIT <= r <= LIN_ARG_LIMIT,
{
    let (neg, mag): (bool, u64) = if db < 0 {
        (true, (-db) as u64)
    } else {
        (false, db as u64)
    };
    proof {
        assert(mag * EXP_ARG_PER_MICRODB <= 180_000_000 * 494_476_384) by (nonlinear_arith)
            requires
                mag <= 180_000_000,
        ;
        lemma_div_is_ordered(
            (mag * EXP_ARG_PER_MICRODB) as int,
            (180_000_000 * 494_476_384) as int,
            1_000_000,
        );
    }
    let xm: u64 = mag * EXP_ARG_PER_MICRODB / 1_000_000;
    let x: i64 = if neg {
        -(xm as i64)
    } else {
        xm as i64
    };
    assert(x == spec_exp_arg(db as int));
    let y: i64 = exp_i32f32(x);
    let (yneg, ymag): (bool, u128) = if y < 0 {
        (true, (-(y as i128)) as u128)
    } else {
        (false, y as u128)
    };
    proof {
        assert(ymag * 1_000_000 <= 0x8000_0000_0000_0000 * 1_000_000) by (nonlinear_arith)
            requires
                ymag <= 0x8000_0000_0000_0000u128,
        ;
        lemma_div_is_ordered(
            (ymag * 1_000_000) as int,
            (0x8000_0000_0000_0000 * 1_000_000) as int,
            0x1_0000_0000,
        );
    }
    let rm: u128 = ymag * 1_000_000 / 0x1_0000_0000;
    let r: i64 = if yneg {
        -(rm as i64)
    } else {
        rm as i64
    };
    r
}

/// One square-and-compare step of the fractional base-two logarithm:
/// square the Q1.32 mantissa, renormalize, and report the produced bit.
pub open spec fn spec_log2_step(m: nat) -> (nat, nat) {
    let s = (m * m) / 0x1_0000_0000;
    if s >= 0x2_0000_0000 {
        (s / 2, 1)
    } else {
        (s, 0)
    }
}

/// `i` squaring steps folded over mantissa `m`: the pair of the current
/// mantissa and the logarithm bits produced so far.
pub open spec fn spec_log2_iter(m: nat, i: nat) -> (nat, nat)
    decreases i,
{
    if i == 0 {
        (m, 0)
    } else {
        let prev = spec_log2_iter(m, (i - 1) as nat);
        let step = spec_log2_step(prev.0);
        (step.0, prev.1 * 2 + step.1)
    }
}

/// The 32 fractional bits of `log2(m / 2^32)` for a mantissa in `[2^32, 2^33)`.
pub open spec fn spec_log2_frac(m: nat) -> nat {
    spec_log2_iter(m, 32).1
}

/// Fractional base-two logarithm of a normalized Q1.32 mantissa by 32
/// square-and-compare steps.
fn log2_frac(m0: u64) -> (r: u64)
    requires
        0x1_0000_0000 <= m0 < 0x2_0000_0000,
    ensures
        r == spec_log2_frac(m0 as nat),
        r < 0x1_0000_0000,
{
    let mut m: u64 = m0;
    let mut r: u64 = 0;
    let mut i: u64 = 0;
    proof {
        lemma2_to64();
    }
    while i < 32
        invariant
            i <= 32,
            0x1_0000_0000 <= m < 0x2_0000_0000,
            (m as nat, r as nat) == spec_log2_iter(m0 as nat, i as nat),
            r < pow2(i as nat),
            pow2(i as nat) <= 0x1_0000_0000,
        decreases 32 - i,
    {
        proof {
            lemma_pow2_unfold((i + 1) as nat);
            lemma2_to64();
            if i + 1 < 32 {
                lemma_pow2_strictly_increases((i + 1) as nat, 32);
            }
            assert((m as nat) * (m as nat) < 0x4_0000_0000_0000_0000) by (nonlinear_arith)
                requires
                    m < 0x2_0000_0000,
            ;
            assert((m as nat) * (m as nat) >= 0x1_0000_0000_0000_0000) by (nonlinear_arith)
                requires
                    m >= 0x1_0000_0000,
            ;
            lemma_div_is_ordered(
                0x1_0000_0000_0000_0000,
                ((m as nat) * (m as nat)) as int,
                0x1_0000_0000,
            );
        }
        let s: u64 = ((m as u128 * m as u128) / 0x1_0000_0000) as u64;
        if s >= 0x2_0000_0000 {
            m = s / 2;
            r = r * 2 + 1;
        } else {
            m = s;
            r = r * 2;
        }
        i = i + 1;
    }
    r
}

/// Halve an over-wide mantissa until it is below `2^33`, raising the binary
/// exponent once per halving.
pub open spec fn spec_norm_down(m: nat, e: int) -> (nat, int)
    decreases m,
{
    if m >= 0x2_0000_0000 {
        spec_norm_down(m / 2, e + 1)
    } else {
        (m, e)
    }
}

/// Double an under-wide mantissa until it reaches `2^32`, lowering the
/// binary exponent once per doubling.
pub open spec fn spec_norm_up(m: nat, e: int) -> (nat, int)
    decreases 0x2_0000_0000 - m,
{
    if 1 <= m < 0x1_0000_0000 {
        spec_norm_up(m * 2, e - 1)
    } else {
        (m, e)
    }
}

/// Normalize a positive Q32.32 value to a mantissa in `[2^32, 2^33)` and a
/// binary exponent, truncating low bits on the way down.
pub open spec fn spec_normalize(v: nat) -> (nat, int) {
    let down = spec_norm_down(v, 0);
    spec_norm_up(down.0, down.1)
}

/// The decibel value (micro-decibel) of a linear-voltage value (micro-volt):
/// `db = 20 * log10(v)` computed as `log2(v) * 20*log10(2)` in fixed point.
pub open spec fn spec_db_of_lin(v: int) -> int {
    let vb = (v * 0x1_0000_0000) / (MICRO as int);
    let norm = spec_normalize(vb as nat);
    let lg = norm.1 * 0x1_0000_0000 + spec_log2_frac(norm.0);
    if lg >= 0 {
        (lg * MICRODB_PER_LOG2) / 0x1_0000_0000
    } else {
        -(((-lg) * MICRODB_PER_LOG2) / 0x1_0000_0000)
    }
}

/// Convert a positive micro-volt value to micro-decibel.
pub fn db_of_lin_micro(v: i64) -> (r: i64)
    requires
        1 <= v <= LIN_ARG_LIMIT,
    ensures
        r == spec_db_of_lin(v as int),
        -DB_OUT_LIMIT <= r <= DB_OUT_LIMIT,
{
    proof {
        lemma2_to64();
        assert((v as int) * 0x1_0000_0000 <= 2_147_483_648_000_000 * 0x1_0000_0000)
            by (nonlinear_arith)
            requires
                v <= 2_147_483_648_000_000,
        ;
        assert((v as int) * 0x1_0000_0000 >= 0x1_0000_0000) by (nonlinear_arith)
            requires
                v >= 1,
        ;
        lemma_div_is_ordered(
            (v as int) * 0x1_0000_0000,
            (2_147_483_648_000_000 * 0x1_0000_0000) as int,
            1_000_000,
        );
        lemma_div_is_ordered(0x1_0000_0000, (v as int) * 0x1_0000_0000, 1_000_000);
    }
    let vb128: u128 = (v as u128) * 0x1_0000_0000 / 1_000_000;
    let vb: u64 = vb128 as u64;
    assert(1 <= vb <= 0x8000_0000_0000_0000);

    // Shift the mantissa down into [0, 2^33).
    let mut m: u64 = vb;
    let mut e_down: u64 = 0;
    proof {
        lemma2_to64();
    }
    while m >= 0x2_0000_0000
        invariant
            1 <= m,
            spec_norm_down(m as nat, e_down as int) == spec_norm_down(vb as nat, 0),
            (m as nat) * pow2(e_down as nat) <= vb as nat,
            vb <= 0x8000_0000_0000_0000,
            e_down <= 63,
        decreases m,
    {
        proof {
            lemma_pow2_unfold((e_down + 1) as nat);
            assert(((m / 2) as nat) * (2 * pow2(e_down as nat)) <= (m as nat) * pow2(e_down as nat))
                by (nonlinear_arith)
                requires
                    pow2(e_down as nat) >= 0,
                    m >= 0,
            ;
            assert(pow2((e_down + 1) as nat) <= ((m / 2) as nat) * pow2((e_down + 1) as nat))
                by (nonlinear_arith)
                requires
                    m / 2 >= 1,
                    pow2((e_down + 1) as nat) >= 0,
            ;
            if e_down + 1 > 63 {
                lemma_pow2_strictly_increases(63, (e_down + 1) as nat);
                lemma2_to64();
                assert(false);
            }
        }
        m = m / 2;
        e_down = e_down + 1;
    }

    // Shift the mantissa up into [2^32, 2^33).
    let mut e_up: u64 = 0;
    proof {
        lemma2_to64();
    }
    while m < 0x1_0000_0000
        invariant
            1 <= m < 0x2_0000_0000,
            spec_norm_up(m as nat, e_down as int - e_up as int) == spec_normalize(vb as nat),
            pow2(e_up as nat) <= m as nat,
            e_up <= 32,
            e_down <= 63,
        decreases 0x2_0000_0000 - m,
    {
        proof {
            lemma_pow2_unfold((e_up + 1) as nat);
            if e_up + 1 > 32 {
                lemma2_to64();
                if e_up + 1 > 33 {
                    lemma_pow2_strictly_increases(33, (e_up + 1) as nat);
                }
                assert(pow2((e_up + 1) as nat) >= 0x2_0000_0000);
                assert(pow2((e_up + 1) as nat) == 2 * pow2(e_up as nat));
                assert(false);
            }
        }
        m = m * 2;
        e_up = e_up + 1;
    }
    assert(spec_normalize(vb as nat) == (m as nat, e_down as int - e_up as int));

    let e: i64 = e_down as i64 - e_up as i64;
    let frac: u64 = log2_frac(m);
    let lg: i64 = e * 0x1_0000_0000 + frac as i64;
    assert(-0x21_0000_0000 <= lg <= 0x40_0000_0000 + 0xFFFF_FFFF);
    let (ln, lmag): (bool, u64) = if lg < 0 {
        (true, (-lg) as u64)
    } else {
        (false, lg as u64)
    };
    proof {
        assert(lmag * MICRODB_PER_LOG2 <= 0x41_0000_0000 * 6_020_600) by (nonlinear_arith)
            requires
                lmag <= 0x41_0000_0000,
        ;
        lemma_div_is_ordered(
            (lmag * MICRODB_PER_LOG2) as int,
            (0x41_0000_0000 * 6_020_600) as int,
            0x1_0000_0000,
        );
    }
    let dm: u64 = lmag * MICRODB_PER_LOG2 / 0x1_0000_0000;
    let r: i64 = if ln {
        -(dm as i64)
    } else {
        dm as i64
    };
    r
}

/// Linear interpolation in the micro scale: `lo + f * (hi - lo) / MICRO`,
/// the division truncated toward zero.
pub open spec fn spec_lerp_micro(f: int, lo: int, hi: int) -> int {
    let p = f * (hi - lo);
    if p >= 0 {
        lo + p / (MICRO as int)
    } else {
        lo - ((-p) / (MICRO as int))
    }
}

/// Interpolate a micro-fraction between two micro-volt bounds.
pub fn lerp_micro(f: i64, lo: i64, hi: i64) -> (r: i64)
    requires
        -FRAC_LIMIT <= f <= FRAC_LIMIT,
        -LIN_ARG_LIMIT <= lo <= LIN_ARG_LIMIT,
        -LIN_ARG_LIMIT <= hi <= LIN_ARG_LIMIT,
    ensures
        r == spec_lerp_micro(f as int, lo as int, hi as int),
        -4_300_000_000_000_000_000 <= r <= 4_300_000_000_000_000_000,
{
    let d: i64 = hi - lo;
    proof {
        assert(-4_294_967_296_000_000_000_000_000 <= (f as int) * (d as int)
            <= 4_294_967_296_000_000_000_000_000) by (nonlinear_arith)
            requires
                -1_000_000_000 <= f <= 1_000_000_000,
                -4_294_967_296_000_000 <= d <= 4_294_967_296_000_000,
        ;
    }
    let p: i128 = (f as i128) * (d as i128);
    let (pn, pm): (bool, u128) = if p < 0 {
        (true, (-p) as u128)
    } else {
        (false, p as u128)
    };
    proof {
        lemma_div_is_ordered(pm as int, 4_294_967_296_000_000_000_000_000, 1_000_000);
    }
    let qm: u128 = pm / 1_000_000;
    let q: i64 = if pn {
        -(qm as i64)
    } else {
        qm as i64
    };
    lo + q
}

/// Inverse interpolation clamped into `[0, MICRO]`: the micro-fraction at
/// which `v` sits between `lo` and `hi`.  A bound pair that is not strictly
/// increasing yields 0.
pub open spec fn spec_inv_lerp_micro(v: int, lo: int, hi: int) -> int {
    let d = hi - lo;
    if d <= 0 {
        0
    } else if v <= lo {
        0
    } else {
        let q = ((v - lo) * (MICRO as int)) / d;
        if q >= MICRO as int {
            MICRO as int
        } else {
            q
        }
    }
}

/// Inverse-interpolate a micro-volt value against two micro-volt bounds,
/// clamped into `[0, MICRO]`.
pub fn inv_lerp_micro(v: i64, lo: i64, hi: i64) -> (r: i64)
    requires
        -LIN_ARG_LIMIT <= v <= LIN_ARG_LIMIT,
        -LIN_ARG_LIMIT <= lo <= LIN_ARG_LIMIT,
        -LIN_ARG_LIMIT <= hi <= LIN_ARG_LIMIT,
    ensures
        r == spec_inv_lerp_micro(v as int, lo as int, hi as int),
        0 <= r <= MICRO,
{
    if hi <= lo {
        return 0;
    }
    if v <= lo {
        return 0;
    }
    let d: u64 = (hi - lo) as u64;
    let n: u64 = (v - lo) as u64;
    proof {
        assert((n as nat) * 1_000_000 <= 4_294_967_296_000_000 * 1_000_000) by (nonlinear_arith)
            requires
                n <= 4_294_967_296_000_000,
        ;
    }
    let p: u128 = (n as u128) * 1_000_000;
    let q: u128 = p / (d as u128);
    if q >= 1_000_000 {
        1_000_000
    } else {
        q as i64
    }
}

} // verus!

//! The audio-volume model: one clamped control surface over the three ways
//! of expressing loudness (decibel, linear-voltage, fraction), relative to
//! a device-reported decibel range.
//!
//! All values are micro fixed point (see `fixmath`): `DeciBel(1_000_000)`
//! is one decibel, `LinVolt(1_000_000)` is one volt, and a fraction of
//! `1_000_000` is 1.  Conversions go through the linear-voltage domain as
//! the common base; every decibel or linear output is clamped into the
//! range, and every fraction output is clamped into `[0, 1]`.  A
//! non-positive linear value has no logarithm and is mapped to the range's
//! floor, and the two linear bounds are ordered defensively before they
//! are used as a clamp interval (the exponential is monotone, but the
//! fixed-point routine's monotonicity is not proved).

use vstd::prelude::*;
use crate::fixmath::{
    clamp_i64, db_of_lin_micro, inv_lerp_micro, lerp_micro, lin_of_db_micro, spec_clamp,
    spec_db_of_lin, spec_inv_lerp_micro, spec_lerp_micro, spec_lin_of_db, DB_LIMIT, FRAC_LIMIT,
    LIN_LIMIT, MICRO,
};

verus! {

/// A loudness expressed on the logarithmic scale, in micro-decibel.
#[derive(Debug, Clone, Copy, PartialEq, Eq, Structural)]
pub struct DeciBel(pub i64);

/// A loudness expressed on the linear-voltage scale, in micro-volt.
#[derive(Debug, Clone, Copy, PartialEq, Eq, Structural)]
pub struct LinVolt(pub i64);

/// A desired loudness in one of the three units.  `Frac` is a micro
/// fraction: `0` maps to the range's linear-voltage floor, `MICRO` to its
/// ceiling, by linear interpolation in the linear-voltage domain.
#[derive(Debug, Clone, Copy, PartialEq, Eq, Structural)]
pub enum VolumeLevel {
    Log(DeciBel),
    Lin(LinVolt),
    Frac(i64),
}

/// Failures of the native volume endpoint.
#[derive(Debug, Clone, Copy, PartialEq, Eq, Structural)]
pub enum AudioError {
    Initialization,
    VolumeSetting,
    GetVolume,
}

impl AudioError {
    /// A human-readable report of the failure.
    pub fn describe(&self) -> (r: &'static str)
        ensures
            *self == AudioError::Initialization ==> r@ == "Initialization failed"@,
            *self == AudioError::VolumeSetting ==> r@ == "Set volume failed"@,
            *self == AudioError::GetVolume ==> r@ == "Get volume failed"@,
    {
        match *self {
            AudioError::Initialization => "Initialization failed",
            AudioError::VolumeSetting => "Set volume failed",
            AudioError::GetVolume => "Get volume failed",
        }
    }
}

/// The decibel bounds form a usable range: ordered, and within the
/// magnitude the fixed-point conversions accept.
pub open spec fn spec_db_bounds_ok(min: DeciBel, max: DeciBel) -> bool {
    &&& -DB_LIMIT <= min.0 <= DB_LIMIT
    &&& -DB_LIMIT <= max.0 <= DB_LIMIT
    &&& min.0 <= max.0
}

/// The lower of the two linear-voltage bounds of a decibel range.
pub open spec fn spec_lin_lo(min: DeciBel, max: DeciBel) -> int {
    let a = spec_lin_of_db(min.0 as int);
    let b = spec_lin_of_db(max.0 as int);
    if a <= b {
        a
    } else {
        b
    }
}

/// The higher of the two linear-voltage bounds of a decibel range.
pub open spec fn spec_lin_hi(min: DeciBel, max: DeciBel) -> int {
    let a = spec_lin_of_db(min.0 as int);
    let b = spec_lin_of_db(max.0 as int);
    if a <= b {
        b
    } else {
        a
    }
}

/// What `to_db` returns, in micro-decibel.
pub open spec fn spec_to_db(l: VolumeLevel, min: DeciBel, max: DeciBel) -> int {
    let raw = match l {
        VolumeLevel::Log(db) => db.0 as int,
        VolumeLevel::Lin(v) => if v.0 <= 0 {
            min.0 as int
        } else {
            spec_db_of_lin(v.0 as int)
        },
        VolumeLevel::Frac(f) => {
            let w = spec_clamp(
                spec_lerp_micro(
                    f as int,
                    spec_lin_of_db(min.0 as int),
                    spec_lin_of_db(max.0 as int),
                ),
                spec_lin_lo(min, max),
                spec_lin_hi(min, max),
            );
            if w <= 0 {
                min.0 as int
            } else {
                spec_db_of_lin(w)
            }
        },
    };
    spec_clamp(raw, min.0 as int, max.0 as int)
}

/// What `to_linear` returns, in micro-volt.
pub open spec fn spec_to_linear(l: VolumeLevel, min: DeciBel, max: DeciBel) -> int {
    let raw = match l {
        VolumeLevel::Log(db) => spec_lin_of_db(db.0 as int),
        VolumeLevel::Lin(v) => v.0 as int,
        VolumeLevel::Frac(f) => spec_lerp_micro(
            f as int,
            spec_lin_of_db(min.0 as int),
            spec_lin_of_db(max.0 as int),
        ),
    };
    spec_clamp(raw, spec_lin_lo(min, max), spec_lin_hi(min, max))
}

/// What `to_fraction` returns: a micro fraction in `[0, MICRO]`.
pub open spec fn spec_to_fraction(l: VolumeLevel, min: DeciBel, max: DeciBel) -> int {
    match l {
        VolumeLevel::Log(db) => spec_inv_lerp_micro(
            spec_lin_of_db(db.0 as int),
            spec_lin_of_db(min.0 as int),
            spec_lin_of_db(max.0 as int),
        ),
        VolumeLevel::Lin(v) => spec_inv_lerp_micro(
            v.0 as int,
            spec_lin_of_db(min.0 as int),
            spec_lin_of_db(max.0 as int),
        ),
        VolumeLevel::Frac(f) => spec_clamp(f as int, 0, MICRO as int),
    }
}

impl VolumeLevel {
    /// The level's value is within the magnitude the conversions accept.
    pub open spec fn wf(self) -> bool {
        match self {
            VolumeLevel::Log(db) => -DB_LIMIT <= db.0 <= DB_LIMIT,
            VolumeLevel::Lin(v) => -LIN_LIMIT <= v.0 <= LIN_LIMIT,
            VolumeLevel::Frac(f) => -FRAC_LIMIT <= f <= FRAC_LIMIT,
        }
    }

    /// Device-ready decibel value: convert to decibel by the base-10
    /// logarithmic law and clamp into `[min, max]`.
    pub fn to_db(self, min: DeciBel, max: DeciBel) -> (r: DeciBel)
        requires
            self.wf(),
            spec_db_bounds_ok(min, max),
        ensures
            r.0 == spec_to_db(self, min, max),
            min.0 <= r.0 <= max.0,
    {
        let raw: i64 = match self {
            VolumeLevel::Log(db) => db.0,
            VolumeLevel::Lin(v) => {
                if v.0 <= 0 {
                    min.0
                } else {
                    db_of_lin_micro(v.0)
                }
            },
            VolumeLevel::Frac(f) => {
                let a = lin_of_db_micro(min.0);
                let b = lin_of_db_micro(max.0);
                let (lo, hi) = if a <= b {
                    (a, b)
                } else {
                    (b, a)
                };
                let w = clamp_i64(lerp_micro(f, a, b), lo, hi);
                if w <= 0 {
                    min.0
                } else {
                    db_of_lin_micro(w)
                }
            },
        };
        DeciBel(clamp_i64(raw, min.0, max.0))
    }

    /// Device-ready linear-voltage value: convert to linear voltage and
    /// clamp into the linear-voltage equivalents of `[min, max]`.
    pub fn to_linear(self, min: DeciBel, max: DeciBel) -> (r: LinVolt)
        requires
            self.wf(),
            spec_db_bounds_ok(min, max),
        ensures
            r.0 == spec_to_linear(self, min, max),
            spec_lin_lo(min, max) <= r.0 <= spec_lin_hi(min, max),
    {
        let a = lin_of_db_micro(min.0);
        let b = lin_of_db_micro(max.0);
        let (lo, hi) = if a <= b {
            (a, b)
        } else {
            (b, a)
        };
        let raw: i64 = match self {
            VolumeLevel::Log(db) => lin_of_db_micro(db.0),
            VolumeLevel::Lin(v) => v.0,
            VolumeLevel::Frac(f) => lerp_micro(f, a, b),
        };
        LinVolt(clamp_i64(raw, lo, hi))
    }

    /// Normalized fraction: convert to linear voltage, inverse-interpolate
    /// against the range's linear-voltage bounds, clamp into `[0, MICRO]`.
    pub fn to_fraction(self, min: DeciBel, max: DeciBel) -> (r: i64)
        requires
            self.wf(),
            spec_db_bounds_ok(min, max),
        ensures
            r == spec_to_fraction(self, min, max),
            0 <= r <= MICRO,
    {
        match self {
            VolumeLevel::Log(db) => {
                let v = lin_of_db_micro(db.0);
                inv_lerp_micro(v, lin_of_db_micro(min.0), lin_of_db_micro(max.0))
            },
            VolumeLevel::Lin(v) => {
                inv_lerp_micro(v.0, lin_of_db_micro(min.0), lin_of_db_micro(max.0))
            },
            VolumeLevel::Frac(f) => clamp_i64(f, 0, MICRO),
        }
    }
}

/// The device's reported decibel range, immutable once obtained.
#[derive(Debug, Clone, Copy, PartialEq, Eq, Structural)]
pub struct VolumeRange {
    pub min_db: DeciBel,
    pub max_db: DeciBel,
    pub step_db: DeciBel,
}

impl VolumeRange {
    /// The range invariant: ordered bounds within the conversions' domain,
    /// and a step no wider than the range itself.
    pub open spec fn wf(self) -> bool {
        &&& spec_db_bounds_ok(self.min_db, self.max_db)
        &&& self.step_db.0 <= self.max_db.0 - self.min_db.0
    }

    /// Validate a device-reported range.  An inconsistent or out-of-domain
    /// report is a fatal initialization error.
    pub fn new(min_db: DeciBel, max_db: DeciBel, step_db: DeciBel) -> (r: Result<
        VolumeRange,
        AudioError,
    >)
        ensures
            match r {
                Ok(rg) => rg == (VolumeRange { min_db, max_db, step_db }) && rg.wf(),
                Err(e) => {
                    &&& e == AudioError::Initialization
                    &&& !(VolumeRange { min_db, max_db, step_db }).wf()
                },
            },
    {
        if min_db.0 < -DB_LIMIT || min_db.0 > DB_LIMIT || max_db.0 < -DB_LIMIT || max_db.0
            > DB_LIMIT {
            return Err(AudioError::Initialization);
        }
        if max_db.0 < min_db.0 {
            return Err(AudioError::Initialization);
        }
        if step_db.0 > max_db.0 - min_db.0 {
            return Err(AudioError::Initialization);
        }
        Ok(VolumeRange { min_db, max_db, step_db })
    }
}

/// Law: for a fraction already in `[0, 1]`, converting the fractional
/// level to a fraction returns it exactly.
pub proof fn lemma_fraction_round_trip(f: i64, min: DeciBel, max: DeciBel)
    requires
        0 <= f <= MICRO,
        spec_db_bounds_ok(min, max),
        min.0 < max.0,
    ensures
        spec_to_fraction(VolumeLevel::Frac(f), min, max) == f,
{
}

/// Law: whatever the level — even one whose decibel or linear value lies
/// outside the range — the fraction conversion lands in `[0, 1]`.
pub proof fn lemma_fraction_clamped(l: VolumeLevel, min: DeciBel, max: DeciBel)
    ensures
        0 <= spec_to_fraction(l, min, max) <= MICRO,
{
    match l {
        VolumeLevel::Log(db) => {
            lemma_inv_lerp_bounds(
                spec_lin_of_db(db.0 as int),
                spec_lin_of_db(min.0 as int),
                spec_lin_of_db(max.0 as int),
            );
        },
        VolumeLevel::Lin(v) => {
            lemma_inv_lerp_bounds(
                v.0 as int,
                spec_lin_of_db(min.0 as int),
                spec_lin_of_db(max.0 as int),
            );
        },
        VolumeLevel::Frac(_) => {},
    }
}

/// Law: the decibel conversion always lands inside `[min, max]`.
pub proof fn lemma_to_db_clamped(l: VolumeLevel, min: DeciBel, max: DeciBel)
    requires
        min.0 <= max.0,
    ensures
        min.0 <= spec_to_db(l, min, max) <= max.0,
{
}

/// The clamped inverse interpolation lands in `[0, MICRO]` for all inputs.
proof fn lemma_inv_lerp_bounds(v: int, lo: int, hi: int)
    ensures
        0 <= spec_inv_lerp_micro(v, lo, hi) <= MICRO,
{
    let d = hi - lo;
    if d > 0 && v > lo {
        let q = ((v - lo) * (MICRO as int)) / d;
        assert((v - lo) * (MICRO as int) >= 0) by (nonlinear_arith)
            requires
                v - lo >= 0,
        ;
        vstd::arithmetic::div_mod::lemma_div_is_ordered(0, (v - lo) * (MICRO as int), d);
    }
}

} // verus!

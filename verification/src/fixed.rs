//! Fixed-point numeric values.
//!
//! Every numeric forecast quantity is carried as a signed count of
//! thousandths (milli-units): the value `12.5` is stored as `12500`.
//! This module parses plain decimal notation into milli-units, performs
//! unit conversion between metric and US customary systems, and offers
//! a rounded linear-interpolation primitive for the resampler.

use vstd::prelude::*;

verus! {

/// One whole unit expressed in milli-units.
pub const MILLI: i64 = 1000;

/// Largest magnitude (in milli-units) a stored quantity may take, after
/// any unit conversion.
pub const VALUE_BOUND: i64 = 4_000_000_000_000;

/// Largest integer part the decimal parser accepts.
pub const PARSE_INT_BOUND: u64 = 999_999_999;

/// Whether a milli-unit quantity lies inside the representable range.
pub open spec fn in_range(v: int) -> bool {
    -(VALUE_BOUND as int) <= v <= VALUE_BOUND as int
}

/// Division by a positive divisor, rounded to the nearest integer with
/// halves rounded away from zero.
pub open spec fn round_away(n: int, d: int) -> int
    recommends
        d > 0,
{
    if n >= 0 {
        (2 * n + d) / (2 * d)
    } else {
        -((2 * (-n) + d) / (2 * d))
    }
}

/// The rounded quotient differs from the exact quotient by at most one
/// half: `|d * round_away(n, d) - n| <= d / 2`, stated multiplied by two
/// to stay in integers.
pub proof fn lemma_round_away_err(n: int, d: int)
    requires
        d > 0,
    ensures
        -d <= 2 * (d * round_away(n, d) - n) <= d,
{
    if n >= 0 {
        let q = (2 * n + d) / (2 * d);
        assert(2 * d * q <= 2 * n + d < 2 * d * q + 2 * d) by (nonlinear_arith)
            requires d > 0 && q == (2 * n + d) / (2 * d);
        assert(2 * (d * q - n) == 2 * d * q - 2 * n) by (nonlinear_arith);
    } else {
        let m = -n;
        let q = (2 * m + d) / (2 * d);
        assert(2 * d * q <= 2 * m + d < 2 * d * q + 2 * d) by (nonlinear_arith)
            requires d > 0 && q == (2 * m + d) / (2 * d);
        assert(round_away(n, d) == -q);
        assert(2 * (d * (-q) - n) == -(2 * d * q - 2 * m)) by (nonlinear_arith)
            requires m == -n;
    }
}

/// `round_away` computed on machine integers.
pub fn round_away_i64(n: i64, d: i64) -> (r: i64)
    requires
        0 < d <= 2_000_000,
        -8_000_000_000_000_000 <= n <= 8_000_000_000_000_000,
    ensures
        r == round_away(n as int, d as int),
{
    let dd: u64 = d as u64;
    if n >= 0 {
        let m: u64 = n as u64;
        ((2 * m + dd) / (2 * dd)) as i64
    } else {
        let m: u64 = (-n) as u64;
        proof {
            assert((2 * m + dd) / (2 * dd) <= 2 * m + dd) by (nonlinear_arith)
                requires dd > 0;
        }
        -(((2 * m + dd) / (2 * dd)) as i64)
    }
}

/// Range guaranteed by the decimal parser, before any unit conversion.
pub open spec fn parse_range(v: int) -> bool {
    -1_000_000_000_000 <= v <= 1_000_000_000_000
}

/// Celsius to Fahrenheit in milli-units: `t * 1.8 + 32`, rounded.
pub open spec fn spec_c_to_f(c: int) -> int {
    round_away(9 * c, 5) + 32 * (MILLI as int)
}

/// Fahrenheit back to Celsius in milli-units: `(t - 32) / 1.8`, rounded.
pub open spec fn spec_f_to_c(f: int) -> int {
    round_away(5 * (f - 32 * (MILLI as int)), 9)
}

/// Metres per second to kilometres per hour in milli-units: `s * 3.6`.
pub open spec fn spec_mps_to_kmh(s: int) -> int {
    round_away(18 * s, 5)
}

/// Metres per second to miles per hour in milli-units: `s * 2.237`.
pub open spec fn spec_mps_to_mph(s: int) -> int {
    round_away(2237 * s, 1000)
}

pub fn celsius_to_fahrenheit(c: i64) -> (r: i64)
    requires
        parse_range(c as int),
    ensures
        r == spec_c_to_f(c as int),
        in_range(r as int),
{
    proof {
        lemma_round_away_err(9 * c, 5);
    }
    round_away_i64(9 * c, 5) + 32 * MILLI
}

pub fn fahrenheit_to_celsius(f: i64) -> (r: i64)
    requires
        in_range(f as int),
    ensures
        r == spec_f_to_c(f as int),
        in_range(r as int),
{
    proof {
        lemma_round_away_err(5 * (f - 32 * (MILLI as int)), 9);
    }
    round_away_i64(5 * (f - 32 * MILLI), 9)
}

pub fn mps_to_kmh(s: i64) -> (r: i64)
    requires
        parse_range(s as int),
    ensures
        r == spec_mps_to_kmh(s as int),
        in_range(r as int),
{
    proof {
        lemma_round_away_err(18 * s, 5);
    }
    round_away_i64(18 * s, 5)
}

pub fn mps_to_mph(s: i64) -> (r: i64)
    requires
        parse_range(s as int),
    ensures
        r == spec_mps_to_mph(s as int),
        in_range(r as int),
{
    proof {
        lemma_round_away_err(2237 * s, 1000);
    }
    round_away_i64(2237 * s, 1000)
}

/// A temperature taken in Celsius, converted to Fahrenheit, and converted
/// back by the inverse formula recovers the original value exactly: the
/// rounding error of each direction is too small to move the result by a
/// whole milli-unit.
pub proof fn lemma_temperature_round_trip(c: int)
    ensures
        spec_f_to_c(spec_c_to_f(c)) == c,
{
    let r5 = round_away(9 * c, 5);
    lemma_round_away_err(9 * c, 5);
    assert(-2 <= 5 * r5 - 9 * c <= 2);
    let c2 = round_away(5 * r5, 9);
    lemma_round_away_err(5 * r5, 9);
    assert(-4 <= 9 * c2 - 5 * r5 <= 4);
    assert(spec_c_to_f(c) - 32 * (MILLI as int) == r5);
    assert(-6 <= 9 * c2 - 9 * c <= 6);
    assert(9 * (c2 - c) == 9 * c2 - 9 * c) by (nonlinear_arith);
    assert(c2 == c) by (nonlinear_arith)
        requires -6 <= 9 * (c2 - c) <= 6;
}

/// Linear interpolation between `a` and `b`, `dt` of the way through a
/// bracket `span` minutes wide: `(1 - dt/span) * a + (dt/span) * b`,
/// rounded to the nearest milli-unit.
pub open spec fn spec_lerp(a: int, b: int, dt: int, span: int) -> int
    recommends
        0 < dt < span,
{
    round_away((span - dt) * a + dt * b, span)
}

/// An interpolated value never leaves the closed interval spanned by its
/// two endpoints.
pub proof fn lemma_lerp_between(a: int, b: int, dt: int, span: int)
    requires
        0 < dt < span,
    ensures
        a <= b ==> a <= spec_lerp(a, b, dt, span) <= b,
        b <= a ==> b <= spec_lerp(a, b, dt, span) <= a,
{
    let n = (span - dt) * a + dt * b;
    let r = spec_lerp(a, b, dt, span);
    lemma_round_away_err(n, span);
    assert(-span <= 2 * (span * r - n) <= span);
    if a <= b {
        assert(span * a <= n <= span * b) by (nonlinear_arith)
            requires 0 < dt < span && a <= b && n == (span - dt) * a + dt * b;
        assert(2 * span * (r - a) + span >= 0) by (nonlinear_arith)
            requires 2 * (span * r - n) >= -span && n >= span * a;
        assert(r >= a) by (nonlinear_arith)
            requires span > 0 && 2 * span * (r - a) + span >= 0;
        assert(2 * span * (b - r) + span >= 0) by (nonlinear_arith)
            requires 2 * (span * r - n) <= span && n <= span * b;
        assert(r <= b) by (nonlinear_arith)
            requires span > 0 && 2 * span * (b - r) + span >= 0;
    } else {
        assert(span * b <= n <= span * a) by (nonlinear_arith)
            requires 0 < dt < span && b <= a && n == (span - dt) * a + dt * b;
        assert(2 * span * (r - b) + span >= 0) by (nonlinear_arith)
            requires 2 * (span * r - n) >= -span && n >= span * b;
        assert(r >= b) by (nonlinear_arith)
            requires span > 0 && 2 * span * (r - b) + span >= 0;
        assert(2 * span * (a - r) + span >= 0) by (nonlinear_arith)
            requires 2 * (span * r - n) <= span && n <= span * a;
        assert(r <= a) by (nonlinear_arith)
            requires span > 0 && 2 * span * (a - r) + span >= 0;
    }
}

/// `spec_lerp` on machine integers.
pub fn lerp_milli(a: i64, b: i64, dt: i64, span: i64) -> (r: i64)
    requires
        in_range(a as int),
        in_range(b as int),
        0 < dt < span <= 1440,
    ensures
        r == spec_lerp(a as int, b as int, dt as int, span as int),
        in_range(r as int),
        a <= b ==> a <= r <= b,
        b <= a ==> b <= r <= a,
{
    proof {
        lemma_lerp_between(a as int, b as int, dt as int, span as int);
        assert(-(1440 * 4_000_000_000_000) <= (span - dt) * a <= 1440 * 4_000_000_000_000
            && -(1440 * 4_000_000_000_000) <= dt * b <= 1440 * 4_000_000_000_000) by (nonlinear_arith)
            requires 0 < dt < span <= 1440 && -4_000_000_000_000 <= a <= 4_000_000_000_000
                && -4_000_000_000_000 <= b <= 4_000_000_000_000;
        assert((span - dt) * a + dt * b <= span * 4_000_000_000_000
            && (span - dt) * a + dt * b >= -(span * 4_000_000_000_000)) by (nonlinear_arith)
            requires 0 < dt < span && -4_000_000_000_000 <= a <= 4_000_000_000_000
                && -4_000_000_000_000 <= b <= 4_000_000_000_000;
        assert(span * 4_000_000_000_000 <= 1440 * 4_000_000_000_000) by (nonlinear_arith)
            requires 0 < span <= 1440;
    }
    round_away_i64((span - dt) * a + dt * b, span)
}

} // verus!

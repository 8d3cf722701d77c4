use vstd::prelude::*;

verus! {

/// Scale of the fixed-point trigonometric values: 4096 stands for 1.0.
pub const TRIG_ONE: i64 = 4096;

pub open spec fn clamp_int(v: int, lo: int, hi: int) -> int {
    if v < lo {
        lo
    } else if v > hi {
        hi
    } else {
        v
    }
}

pub fn clamp_i64(v: i64, lo: i64, hi: i64) -> (r: i64)
    requires
        lo <= hi,
    ensures
        r == clamp_int(v as int, lo as int, hi as int),
{
    if v < lo {
        lo
    } else if v > hi {
        hi
    } else {
        v
    }
}

/// Floor of the real square root of `v`.
pub open spec fn is_sqrt_floor(v: int, r: int) -> bool {
    r >= 0 && r * r <= v < (r + 1) * (r + 1)
}

/// Integer square root by bisection.
pub fn isqrt64(v: u64) -> (r: u64)
    ensures
        is_sqrt_floor(v as int, r as int),
{
    let mut lo: u64 = 0;
    let mut hi: u64 = 0x1_0000_0000;
    while lo + 1 < hi
        invariant
            lo < hi <= 0x1_0000_0000,
            (lo as int) * (lo as int) <= v as int,
            (hi as int) * (hi as int) > v as int,
        decreases hi - lo,
    {
        let mid = lo + (hi - lo) / 2;
        proof {
            assert((mid as int) * (mid as int) <= 0xffff_ffff * 0xffff_ffff) by (nonlinear_arith)
                requires
                    0 <= mid as int <= 0xffff_ffff,
            ;
        }
        if mid * mid <= v {
            lo = mid;
        } else {
            hi = mid;
        }
    }
    lo
}

/// Sine of `d` degrees for `d` in `[0, 180]`, scaled by `TRIG_ONE`,
/// by the Bhaskara I rational approximation.
pub open spec fn sin_half_fp(d: int) -> int {
    let p = d * (180 - d);
    (4 * p * 4096) / (40500 - p)
}

/// Sine of `d` degrees for `d` in `[0, 360)`, scaled by `TRIG_ONE`.
pub open spec fn sin_fp_spec(d: int) -> int {
    if d < 180 {
        sin_half_fp(d)
    } else {
        -sin_half_fp(d - 180)
    }
}

/// Cosine of `d` degrees for `d` in `[0, 360)`, scaled by `TRIG_ONE`.
pub open spec fn cos_fp_spec(d: int) -> int {
    sin_fp_spec(if d + 90 < 360 {
        d + 90
    } else {
        d + 90 - 360
    })
}

proof fn lemma_sin_half_bounds(d: int)
    requires
        0 <= d <= 180,
    ensures
        0 <= sin_half_fp(d) <= 4096,
{
    let p = d * (180 - d);
    assert(0 <= p <= 8100) by (nonlinear_arith)
        requires
            0 <= d <= 180,
            p == d * (180 - d),
    ;
    assert(4 * p * 4096 <= 4096 * (40500 - p)) by (nonlinear_arith)
        requires
            0 <= p <= 8100,
    ;
    assert(0 <= (4 * p * 4096) / (40500 - p) <= 4096) by (nonlinear_arith)
        requires
            0 <= p <= 8100,
            4 * p * 4096 <= 4096 * (40500 - p),
    ;
}

pub proof fn lemma_sin_fp_bounds(d: int)
    requires
        0 <= d < 360,
    ensures
        -4096 <= sin_fp_spec(d) <= 4096,
        -4096 <= cos_fp_spec(d) <= 4096,
{
    if d < 180 {
        lemma_sin_half_bounds(d);
    } else {
        lemma_sin_half_bounds(d - 180);
    }
    let c = if d + 90 < 360 {
        d + 90
    } else {
        d + 90 - 360
    };
    if c < 180 {
        lemma_sin_half_bounds(c);
    } else {
        lemma_sin_half_bounds(c - 180);
    }
}

fn sin_half_exec(d: i64) -> (r: i64)
    requires
        0 <= d <= 180,
    ensures
        r == sin_half_fp(d as int),
        0 <= r <= 4096,
{
    proof {
        lemma_sin_half_bounds(d as int);
        assert(0 <= (d as int) * (180 - d as int) <= 8100) by (nonlinear_arith)
            requires
                0 <= d as int <= 180,
        ;
    }
    let p = d * (180 - d);
    proof {
        assert(0 <= p <= 8100) by (nonlinear_arith)
            requires
                0 <= d <= 180,
                p == d * (180 - d),
        ;
    }
    (4 * p * 4096) / (40500 - p)
}

/// Sine of `d` degrees, scaled by `TRIG_ONE`.
pub fn sin_fp(d: i64) -> (r: i64)
    requires
        0 <= d < 360,
    ensures
        r == sin_fp_spec(d as int),
        -4096 <= r <= 4096,
{
    if d < 180 {
        sin_half_exec(d)
    } else {
        -sin_half_exec(d - 180)
    }
}

/// Cosine of `d` degrees, scaled by `TRIG_ONE`.
pub fn cos_fp(d: i64) -> (r: i64)
    requires
        0 <= d < 360,
    ensures
        r == cos_fp_spec(d as int),
        -4096 <= r <= 4096,
{
    if d + 90 < 360 {
        sin_fp(d + 90)
    } else {
        sin_fp(d + 90 - 360)
    }
}

} // verus!

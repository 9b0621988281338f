//! Fixed-point arithmetic helpers shared by the rasterizer.
//!
//! Linear quantities use a scale of `FP` (1000) sub-units per pixel or per
//! unit of intensity. Angles use binary angular measure: `FULL_TURN` (65536)
//! units make one full turn, so periodicity facts become modular arithmetic.

use vstd::prelude::*;

verus! {

/// Sub-units per pixel (and per unit of intensity) in fixed-point values.
pub const FP: i64 = 1000;

/// Angle units in one full turn (binary angular measure).
pub const FULL_TURN: i64 = 65536;

/// Angle units in half a turn.
pub const HALF_TURN: i64 = 32768;

/// Angle units in a quarter turn.
pub const QUARTER_TURN: i64 = 16384;

/// Angle units per radian, rounded: `FULL_TURN / (2 * pi)`.
pub const RAD_TO_TURN: i64 = 10430;

/// Truncating division (rounds toward zero), the rounding used for
/// fixed-point quotients throughout the rasterizer.
pub open spec fn tdiv(a: int, b: int) -> int {
    if a >= 0 {
        a / b
    } else {
        -((-a) / b)
    }
}

/// Rounding division: rounds to the nearest integer, halves away from zero.
pub open spec fn rdiv(a: int, b: int) -> int {
    if a >= 0 {
        (a + b / 2) / b
    } else {
        -((-a + b / 2) / b)
    }
}

/// Clamps `v` into `[lo, hi]`.
pub open spec fn clamp_spec(v: int, lo: int, hi: int) -> int {
    if v < lo {
        lo
    } else if v > hi {
        hi
    } else {
        v
    }
}

/// Floor of the square root of `n` (0 for negative `n`).
pub open spec fn sqrt_floor(n: int) -> int
    decreases n,
{
    if n <= 0 {
        0
    } else {
        let s = sqrt_floor(n - 1);
        if (s + 1) * (s + 1) <= n {
            s + 1
        } else {
            s
        }
    }
}

/// `sqrt_floor(n)` is the unique nonnegative root with `r^2 <= n < (r+1)^2`.
pub proof fn lemma_sqrt_floor_bounds(n: int)
    requires
        n >= 0,
    ensures
        0 <= sqrt_floor(n),
        sqrt_floor(n) * sqrt_floor(n) <= n,
        n < (sqrt_floor(n) + 1) * (sqrt_floor(n) + 1),
    decreases n,
{
    if n > 0 {
        lemma_sqrt_floor_bounds(n - 1);
        let s = sqrt_floor(n - 1);
        if (s + 1) * (s + 1) <= n {
            assert(n < (s + 2) * (s + 2)) by (nonlinear_arith)
                requires
                    n - 1 < (s + 1) * (s + 1),
                    s >= 0,
            ;
        }
    }
}

/// The square-root floor is monotone.
pub proof fn lemma_sqrt_floor_monotonic(a: int, b: int)
    requires
        0 <= a <= b,
    ensures
        sqrt_floor(a) <= sqrt_floor(b),
    decreases b - a,
{
    if a < b {
        lemma_sqrt_floor_monotonic(a, b - 1);
    }
}

/// A floor quotient brackets the dividend within one divisor.
pub proof fn lemma_floor_bracket(a: int, b: int)
    requires
        b > 0,
    ensures
        b * (a / b) <= a < b * (a / b) + b,
{
    vstd::arithmetic::div_mod::lemma_fundamental_div_mod(a, b);
}

/// Any `r` with `r^2 <= n < (r+1)^2` equals `sqrt_floor(n)`.
pub proof fn lemma_sqrt_unique(n: int, r: int)
    requires
        n >= 0,
        r >= 0,
        r * r <= n,
        n < (r + 1) * (r + 1),
    ensures
        r == sqrt_floor(n),
{
    lemma_sqrt_floor_bounds(n);
    let s = sqrt_floor(n);
    if r < s {
        assert(false) by (nonlinear_arith)
            requires
                0 <= r < s,
                s * s <= n,
                n < (r + 1) * (r + 1),
        ;
    }
    if s < r {
        assert(false) by (nonlinear_arith)
            requires
                0 <= s < r,
                r * r <= n,
                n < (s + 1) * (s + 1),
        ;
    }
}

/// Euclidean remainder of `a` by `FULL_TURN`, in `[0, FULL_TURN)`.
pub open spec fn turn_mod(a: int) -> int {
    a % 65536
}

/// Sine over the first half turn, as a rational approximation on the
/// angle in `[0, HALF_TURN]`, scaled by `FP`.
pub open spec fn sin_half(b: int) -> int {
    let p = b * (32768 - b);
    16000 * p / (5368709120 - 4 * p)
}

/// Sine of a binary angle, scaled by `FP`: odd half-turn symmetry over the
/// half-turn approximation, periodic in `FULL_TURN` by construction.
pub open spec fn sin_turn_spec(a: int) -> int {
    let m = turn_mod(a);
    if m < 32768 {
        sin_half(m)
    } else {
        -sin_half(m - 32768)
    }
}

/// Cosine of a binary angle, scaled by `FP`: sine shifted a quarter turn.
pub open spec fn cos_turn_spec(a: int) -> int {
    sin_turn_spec(a + 16384)
}

/// The half-turn sine approximation stays within `[0, FP]`.
pub proof fn lemma_sin_half_range(b: int)
    requires
        0 <= b <= 32768,
    ensures
        0 <= sin_half(b) <= 1000,
{
    let p = b * (32768 - b);
    assert(0 <= b * (32768 - b) <= 268435456) by (nonlinear_arith)
        requires
            0 <= b <= 32768,
    ;
    let den = 5368709120 - 4 * p;
    let num = 16000 * p;
    vstd::arithmetic::div_mod::lemma_div_pos_is_pos(num, den);
    vstd::arithmetic::div_mod::lemma_div_is_ordered(num, 1000 * den, den);
    vstd::arithmetic::div_mod::lemma_div_multiples_vanish(1000, den);
}

/// Sine of any binary angle stays within `[-FP, FP]`.
pub proof fn lemma_sin_turn_range(a: int)
    ensures
        -1000 <= sin_turn_spec(a) <= 1000,
{
    vstd::arithmetic::div_mod::lemma_mod_bound(a, 65536);
    let m = turn_mod(a);
    if m < 32768 {
        lemma_sin_half_range(m);
    } else {
        lemma_sin_half_range(m - 32768);
    }
}

/// Sine of a binary angle is periodic in a full turn.
pub proof fn lemma_sin_turn_periodic(a: int)
    ensures
        sin_turn_spec(a + 65536) == sin_turn_spec(a),
{
    vstd::arithmetic::div_mod::lemma_mod_add_multiples_vanish(a, 65536);
}

/// Arctangent over the first octant: `t` is a slope in `[0, FP]`, the
/// result a binary angle in `[0, QUARTER_TURN / 2]` plus approximation
/// slack.
pub open spec fn atan_octant(t: int) -> int {
    let k = t * (1000 - t) / 1000;
    let c = 2552 + 692 * t / 1000;
    8192 * t / 1000 + k * c / 1000
}

/// Full-circle arctangent of `dy / dx` as a binary angle in
/// `[0, FULL_TURN)`, counted from the positive x axis toward positive y.
pub open spec fn atan2_turn_spec(dy: int, dx: int) -> int {
    if dx == 0 && dy == 0 {
        0
    } else {
        let ax = if dx >= 0 {
            dx
        } else {
            -dx
        };
        let ay = if dy >= 0 {
            dy
        } else {
            -dy
        };
        let oct = if ay <= ax {
            atan_octant(1000 * ay / ax)
        } else {
            16384 - atan_octant(1000 * ax / ay)
        };
        let q = if dx >= 0 && dy >= 0 {
            oct
        } else if dx < 0 && dy >= 0 {
            32768 - oct
        } else if dx < 0 && dy < 0 {
            32768 + oct
        } else {
            65536 - oct
        };
        if q == 65536 {
            0
        } else {
            q
        }
    }
}

/// The first-octant arctangent stays within `[0, 9100]`.
pub proof fn lemma_atan_octant_range(t: int)
    requires
        0 <= t <= 1000,
    ensures
        0 <= atan_octant(t) <= 9100,
{
    let k = t * (1000 - t) / 1000;
    let c = 2552 + 692 * t / 1000;
    assert(0 <= t * (1000 - t) <= 250000) by (nonlinear_arith)
        requires
            0 <= t <= 1000,
    ;
    vstd::arithmetic::div_mod::lemma_div_pos_is_pos(t * (1000 - t), 1000);
    vstd::arithmetic::div_mod::lemma_div_is_ordered(t * (1000 - t), 250000, 1000);
    vstd::arithmetic::div_mod::lemma_div_pos_is_pos(692 * t, 1000);
    vstd::arithmetic::div_mod::lemma_div_is_ordered(692 * t, 692000, 1000);
    assert(0 <= k * c <= 250 * 3244) by (nonlinear_arith)
        requires
            0 <= k <= 250,
            2552 <= c <= 3244,
    ;
    vstd::arithmetic::div_mod::lemma_div_pos_is_pos(k * c, 1000);
    vstd::arithmetic::div_mod::lemma_div_is_ordered(k * c, 811000, 1000);
    vstd::arithmetic::div_mod::lemma_div_pos_is_pos(8192 * t, 1000);
    vstd::arithmetic::div_mod::lemma_div_is_ordered(8192 * t, 8192000, 1000);
}

/// The full-circle arctangent stays within `[0, FULL_TURN)`.
pub proof fn lemma_atan2_turn_range(dy: int, dx: int)
    ensures
        0 <= atan2_turn_spec(dy, dx) < 65536,
{
    if !(dx == 0 && dy == 0) {
        let ax = if dx >= 0 {
            dx
        } else {
            -dx
        };
        let ay = if dy >= 0 {
            dy
        } else {
            -dy
        };
        if ay <= ax {
            let t = 1000 * ay / ax;
            vstd::arithmetic::div_mod::lemma_div_pos_is_pos(1000 * ay, ax);
            vstd::arithmetic::div_mod::lemma_div_is_ordered(1000 * ay, 1000 * ax, ax);
            vstd::arithmetic::div_mod::lemma_div_multiples_vanish(1000, ax);
            lemma_atan_octant_range(t);
        } else {
            let t = 1000 * ax / ay;
            vstd::arithmetic::div_mod::lemma_div_pos_is_pos(1000 * ax, ay);
            vstd::arithmetic::div_mod::lemma_div_is_ordered(1000 * ax, 1000 * ay, ay);
            vstd::arithmetic::div_mod::lemma_div_multiples_vanish(1000, ay);
            lemma_atan_octant_range(t);
        }
    }
}

/// Euclidean remainder by `FULL_TURN` on machine integers.
pub fn mod_turn(a: i64) -> (m: i64)
    requires
        -0x2000_0000_0000_0000 <= a <= 0x2000_0000_0000_0000,
    ensures
        m == turn_mod(a as int),
        0 <= m < 65536,
{
    proof {
        vstd::arithmetic::div_mod::lemma_mod_bound(a as int, 65536);
    }
    if a >= 0 {
        a % 65536
    } else {
        let n: i64 = -a;
        let q0: i64 = n / 65536;
        let rem: i64 = n % 65536;
        proof {
            vstd::arithmetic::div_mod::lemma_fundamental_div_mod(n as int, 65536);
        }
        if rem == 0 {
            proof {
                vstd::arithmetic::div_mod::lemma_fundamental_div_mod_converse_mod(
                    a as int,
                    65536,
                    -(q0 as int),
                    0,
                );
            }
            0
        } else {
            proof {
                vstd::arithmetic::div_mod::lemma_fundamental_div_mod_converse_mod(
                    a as int,
                    65536,
                    -(q0 as int) - 1,
                    65536 - (rem as int),
                );
            }
            65536 - rem
        }
    }
}

/// Sine over the first half turn on machine integers.
fn sin_half_exec(b: i64) -> (r: i64)
    requires
        0 <= b <= 32768,
    ensures
        r == sin_half(b as int),
        0 <= r <= 1000,
{
    proof {
        assert(0 <= (b as int) * (32768 - b as int) <= 268435456) by (nonlinear_arith)
            requires
                0 <= b <= 32768,
        ;
        lemma_sin_half_range(b as int);
    }
    let p: i64 = b * (32768 - b);
    let num: i64 = 16000 * p;
    let den: i64 = 5368709120 - 4 * p;
    num / den
}

/// Sine of a binary angle, scaled by `FP`.
pub fn sin_turn(a: i64) -> (r: i64)
    requires
        -0x2000_0000_0000_0000 <= a <= 0x2000_0000_0000_0000,
    ensures
        r == sin_turn_spec(a as int),
        -1000 <= r <= 1000,
{
    let m: i64 = mod_turn(a);
    if m < 32768 {
        sin_half_exec(m)
    } else {
        -sin_half_exec(m - 32768)
    }
}

/// Cosine of a binary angle, scaled by `FP`.
pub fn cos_turn(a: i64) -> (r: i64)
    requires
        -0x2000_0000_0000_0000 <= a < 0x2000_0000_0000_0000 - 16384,
    ensures
        r == cos_turn_spec(a as int),
        -1000 <= r <= 1000,
{
    sin_turn(a + 16384)
}

/// Arctangent over the first octant on machine integers.
fn atan_octant_exec(t: i64) -> (r: i64)
    requires
        0 <= t <= 1000,
    ensures
        r == atan_octant(t as int),
        0 <= r <= 9100,
{
    proof {
        lemma_atan_octant_range(t as int);
        assert(0 <= (t as int) * (1000 - t as int) <= 250000) by (nonlinear_arith)
            requires
                0 <= t <= 1000,
        ;
    }
    let k: i64 = t * (1000 - t) / 1000;
    let c: i64 = 2552 + 692 * t / 1000;
    proof {
        assert(0 <= (k as int) * (c as int) <= 250 * 3244) by (nonlinear_arith)
            requires
                0 <= k <= 250,
                2552 <= c <= 3244,
        ;
    }
    8192 * t / 1000 + k * c / 1000
}

/// Full-circle arctangent of `dy / dx` as a binary angle.
pub fn atan2_turn(dy: i64, dx: i64) -> (r: i64)
    requires
        -0x10_0000_0000_0000 <= dy <= 0x10_0000_0000_0000,
        -0x10_0000_0000_0000 <= dx <= 0x10_0000_0000_0000,
    ensures
        r == atan2_turn_spec(dy as int, dx as int),
        0 <= r < 65536,
{
    proof {
        lemma_atan2_turn_range(dy as int, dx as int);
    }
    if dx == 0 && dy == 0 {
        return 0;
    }
    let ax: i64 = if dx >= 0 {
        dx
    } else {
        -dx
    };
    let ay: i64 = if dy >= 0 {
        dy
    } else {
        -dy
    };
    let oct: i64 = if ay <= ax {
        proof {
            vstd::arithmetic::div_mod::lemma_div_pos_is_pos(1000 * ay as int, ax as int);
            vstd::arithmetic::div_mod::lemma_div_is_ordered(
                1000 * ay as int,
                1000 * ax as int,
                ax as int,
            );
            vstd::arithmetic::div_mod::lemma_div_multiples_vanish(1000, ax as int);
        }
        atan_octant_exec(1000 * ay / ax)
    } else {
        proof {
            vstd::arithmetic::div_mod::lemma_div_pos_is_pos(1000 * ax as int, ay as int);
            vstd::arithmetic::div_mod::lemma_div_is_ordered(
                1000 * ax as int,
                1000 * ay as int,
                ay as int,
            );
            vstd::arithmetic::div_mod::lemma_div_multiples_vanish(1000, ay as int);
        }
        16384 - atan_octant_exec(1000 * ax / ay)
    };
    let q: i64 = if dx >= 0 && dy >= 0 {
        oct
    } else if dx < 0 && dy >= 0 {
        32768 - oct
    } else if dx < 0 && dy < 0 {
        32768 + oct
    } else {
        65536 - oct
    };
    if q == 65536 {
        0
    } else {
        q
    }
}

/// A product of bounded factors is bounded by the product of the bounds.
pub proof fn lemma_mul_bound(a: int, b: int, ma: int, mb: int)
    requires
        -ma <= a <= ma,
        -mb <= b <= mb,
        ma >= 0,
        mb >= 0,
    ensures
        -(ma * mb) <= a * b <= ma * mb,
{
    assert(-(ma * mb) <= a * b <= ma * mb) by (nonlinear_arith)
        requires
            -ma <= a <= ma,
            -mb <= b <= mb,
            ma >= 0,
            mb >= 0,
    ;
}

/// A square is never negative.
pub proof fn lemma_square_nonneg(a: int)
    ensures
        a * a >= 0,
{
    assert(a * a >= 0) by (nonlinear_arith);
}

/// If `a^2 <= r^2` with `r` nonnegative, then `a` lies within `[-r, r]`.
pub proof fn lemma_sq_le(a: int, r: int)
    requires
        a * a <= r * r,
        r >= 0,
    ensures
        -r <= a <= r,
{
    assert(-r <= a <= r) by (nonlinear_arith)
        requires
            a * a <= r * r,
            r >= 0,
    ;
}

/// The root of a sum of squares dominates either term's magnitude.
pub proof fn lemma_sqrt_sum_ge_abs(a: int, b: int)
    ensures
        sqrt_floor(a * a + b * b) >= (if a >= 0 {
            a
        } else {
            -a
        }),
{
    let aa = if a >= 0 {
        a
    } else {
        -a
    };
    assert(aa * aa == a * a && a * a < (aa + 1) * (aa + 1) && b * b >= 0) by (nonlinear_arith)
        requires
            aa == (if a >= 0 {
                a
            } else {
                -a
            }),
    ;
    lemma_sqrt_unique(a * a, aa);
    lemma_sqrt_floor_monotonic(a * a, a * a + b * b);
}

/// Truncating division on machine integers; `b` must be positive.
pub fn div_trunc(a: i64, b: i64) -> (q: i64)
    requires
        b > 0,
        -0x4000_0000_0000_0000 <= a <= 0x4000_0000_0000_0000,
    ensures
        q == tdiv(a as int, b as int),
{
    if a >= 0 {
        a / b
    } else {
        -((-a) / b)
    }
}

/// Floor division on machine integers; `b` must be positive.
pub fn div_floor(a: i64, b: i64) -> (q: i64)
    requires
        b > 0,
        -0x2000_0000_0000_0000 <= a <= 0x2000_0000_0000_0000,
        b <= 0x1000_0000,
    ensures
        q == (a as int) / (b as int),
        -0x2000_0000_0000_0001 <= q <= 0x2000_0000_0000_0000,
{
    if a >= 0 {
        proof {
            vstd::arithmetic::div_mod::lemma_div_pos_is_pos(a as int, b as int);
            vstd::arithmetic::div_mod::lemma_div_nonincreasing(a as int, b as int);
        }
        a / b
    } else {
        let n: i64 = -a;
        let q0: i64 = n / b;
        let rem: i64 = n % b;
        proof {
            vstd::arithmetic::div_mod::lemma_fundamental_div_mod(n as int, b as int);
            vstd::arithmetic::div_mod::lemma_div_pos_is_pos(n as int, b as int);
            vstd::arithmetic::div_mod::lemma_div_nonincreasing(n as int, b as int);
        }
        if rem == 0 {
            proof {
                assert(a as int == (-(q0 as int)) * (b as int) + 0) by (nonlinear_arith)
                    requires
                        (a as int) == -(n as int),
                        (n as int) == (b as int) * (q0 as int) + 0,
                ;
                vstd::arithmetic::div_mod::lemma_fundamental_div_mod_converse_div(
                    a as int,
                    b as int,
                    -(q0 as int),
                    0,
                );
            }
            -q0
        } else {
            proof {
                assert(a as int == (-(q0 as int) - 1) * (b as int) + ((b as int) - (
                rem as int))) by (nonlinear_arith)
                    requires
                        (a as int) == -(n as int),
                        (n as int) == (b as int) * (q0 as int) + (rem as int),
                ;
                vstd::arithmetic::div_mod::lemma_fundamental_div_mod_converse_div(
                    a as int,
                    b as int,
                    -(q0 as int) - 1,
                    (b as int) - (rem as int),
                );
            }
            -q0 - 1
        }
    }
}

/// Ceiling division on machine integers; `b` must be positive.
pub fn div_ceil_up(a: i64, b: i64) -> (q: i64)
    requires
        b > 0,
        -0x2000_0000_0000_0000 <= a <= 0x2000_0000_0000_0000,
        b <= 0x1000_0000,
    ensures
        q == -((-a) / (b as int)),
{
    let q0: i64 = div_floor(-a, b);
    -q0
}

/// Rounding division on machine integers; `b` must be positive.
pub fn div_round(a: i64, b: i64) -> (q: i64)
    requires
        b > 0,
        -0x2000_0000_0000_0000 <= a <= 0x2000_0000_0000_0000,
        b <= 0x1000_0000,
    ensures
        q == rdiv(a as int, b as int),
{
    if a >= 0 {
        (a + b / 2) / b
    } else {
        -((-a + b / 2) / b)
    }
}

/// A truncating quotient is bounded by the quotient of any bound on the
/// dividend's magnitude.
pub proof fn lemma_tdiv_bound(a: int, b: int, m: int)
    requires
        b > 0,
        m >= 0,
        -m <= a <= m,
    ensures
        -(m / b) <= tdiv(a, b) <= m / b,
{
    if a >= 0 {
        vstd::arithmetic::div_mod::lemma_div_pos_is_pos(a, b);
        vstd::arithmetic::div_mod::lemma_div_is_ordered(a, m, b);
        vstd::arithmetic::div_mod::lemma_div_pos_is_pos(m, b);
    } else {
        vstd::arithmetic::div_mod::lemma_div_pos_is_pos(-a, b);
        vstd::arithmetic::div_mod::lemma_div_is_ordered(-a, m, b);
        vstd::arithmetic::div_mod::lemma_div_pos_is_pos(m, b);
    }
}

/// Clamps `v` into `[lo, hi]`.
pub fn clamp_i64(v: i64, lo: i64, hi: i64) -> (r: i64)
    requires
        lo <= hi,
    ensures
        r == clamp_spec(v as int, lo as int, hi as int),
{
    if v < lo {
        lo
    } else if v > hi {
        hi
    } else {
        v
    }
}

/// Floor of the square root, by binary search on the root.
pub fn isqrt(n: u64) -> (r: u64)
    ensures
        r == sqrt_floor(n as int),
        r * r <= n,
        n < (r + 1) * (r + 1),
{
    let mut lo: u64 = 0;
    let mut hi: u64 = 4294967295;
    if n >= 18446744065119617025 {
        proof {
            lemma_sqrt_unique(n as int, 4294967295);
        }
        return 4294967295;
    }
    while lo < hi
        invariant
            lo <= hi <= 4294967295,
            lo * lo <= n,
            n < (hi + 1) * (hi + 1),
        decreases hi - lo,
    {
        let mid: u64 = lo + (hi - lo + 1) / 2;
        proof {
            assert((mid as int) * (mid as int) <= 0xFFFF_FFFE_0000_0001) by (nonlinear_arith)
                requires
                    mid <= 0xFFFF_FFFFu64,
            ;
        }
        if mid * mid <= n {
            lo = mid;
        } else {
            hi = mid - 1;
        }
    }
    proof {
        lemma_sqrt_unique(n as int, lo as int);
    }
    lo
}

} // verus!

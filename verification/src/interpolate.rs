//! Linear interpolation between two integer ranges.

use vstd::arithmetic::div_mod::{
    lemma_div_is_ordered, lemma_fundamental_div_mod, lemma_fundamental_div_mod_converse,
};
use vstd::arithmetic::mul::lemma_mul_inequality;
use vstd::prelude::*;

verus! {

/// The largest integer that is at most `n / d`, for a divisor of either sign.
pub open spec fn floor_div(n: int, d: int) -> int
    recommends
        d != 0,
{
    if d > 0 {
        n / d
    } else {
        (-n) / (-d)
    }
}

/// The point that lies in `[y0, y1]` where `val` lies in `[x0, x1]`:
/// `y0 + (y1 - y0) * (val - x0) / (x1 - x0)`, rounded down to an integer.
pub open spec fn map_range_spec(val: int, x0: int, x1: int, y0: int, y1: int) -> int
    recommends
        x0 != x1,
{
    y0 + floor_div((y1 - y0) * (val - x0), x1 - x0)
}

/// The size of an integer without its sign.
pub open spec fn magnitude_spec(x: int) -> int {
    if x < 0 {
        -x
    } else {
        x
    }
}

/// Dividing the negation of `p` rounds away from zero where dividing `p`
/// rounds towards it.
proof fn lemma_negated_quotient(p: int, m: int)
    requires
        0 <= p,
        0 < m,
    ensures
        (-p) / m == -(p / m) - if p % m != 0 {
            1int
        } else {
            0int
        },
{
    lemma_fundamental_div_mod(p, m);
    let q = p / m;
    let r = p % m;
    assert(0 <= r < m);
    if r == 0 {
        assert(-p == (-q) * m + 0) by (nonlinear_arith)
            requires
                p == m * q + r,
                r == 0,
        ;
        lemma_fundamental_div_mod_converse(-p, m, -q, 0);
    } else {
        assert(-p == (-q - 1) * m + (m - r)) by (nonlinear_arith)
            requires
                p == m * q + r,
        ;
        lemma_fundamental_div_mod_converse(-p, m, -q - 1, m - r);
    }
}

/// The rounded-down quotient of a product by a divisor, from the magnitudes
/// and the signs of the three.
proof fn lemma_floor_div_by_magnitudes(a: int, b: int, d: int)
    requires
        d != 0,
    ensures
        ({
            let p = magnitude_spec(a) * magnitude_spec(b);
            let m = magnitude_spec(d);
            let negative = ((a < 0) != (b < 0)) != (d < 0);
            &&& 0 <= p
            &&& floor_div(a * b, d) == if negative {
                -(p / m) - if p % m != 0 {
                    1int
                } else {
                    0int
                }
            } else {
                p / m
            }
        }),
{
    let p = magnitude_spec(a) * magnitude_spec(b);
    let m = magnitude_spec(d);
    let negative = ((a < 0) != (b < 0)) != (d < 0);
    assert(0 <= p) by (nonlinear_arith)
        requires
            p == magnitude_spec(a) * magnitude_spec(b),
            0 <= magnitude_spec(a),
            0 <= magnitude_spec(b),
    ;
    assert(a * b == if (a < 0) != (b < 0) {
        -p
    } else {
        p
    }) by (nonlinear_arith)
        requires
            p == magnitude_spec(a) * magnitude_spec(b),
            magnitude_spec(a) == if a < 0 {
                -a
            } else {
                a
            },
            magnitude_spec(b) == if b < 0 {
                -b
            } else {
                b
            },
    ;
    if negative {
        assert(floor_div(a * b, d) == (-p) / m);
        lemma_negated_quotient(p, m);
    } else {
        assert(floor_div(a * b, d) == p / m);
    }
}

fn magnitude(x: i128) -> (m: u128)
    requires
        i128::MIN < x,
    ensures
        m == magnitude_spec(x as int),
{
    if x < 0 {
        (-x) as u128
    } else {
        x as u128
    }
}

/// Maps `val` from the range `[x0, x1]` onto the range `[y0, y1]` along the
/// straight line through the end points, rounding down. Either range may
/// run downwards, and `val` may lie outside the first, in which case the
/// line is followed beyond the second.
///
/// There is no answer when the first range is a single point, or when the
/// mapped value does not fit the result type.
pub fn map_range(val: i64, x0: i64, x1: i64, y0: i64, y1: i64) -> (mapped: Option<i64>)
    ensures
        mapped == if x0 != x1 && i64::MIN <= map_range_spec(
            val as int,
            x0 as int,
            x1 as int,
            y0 as int,
            y1 as int,
        ) <= i64::MAX {
            Some(map_range_spec(val as int, x0 as int, x1 as int, y0 as int, y1 as int) as i64)
        } else {
            None
        },
{
    if x0 == x1 {
        return None;
    }
    let rise: i128 = y1 as i128 - y0 as i128;
    let run: i128 = val as i128 - x0 as i128;
    let span: i128 = x1 as i128 - x0 as i128;
    let negative: bool = ((rise < 0) != (run < 0)) != (span < 0);
    let rise_size: u128 = magnitude(rise);
    let run_size: u128 = magnitude(run);
    let span_size: u128 = magnitude(span);
    proof {
        assert(rise_size * run_size <= 0xFFFF_FFFF_FFFF_FFFF * 0xFFFF_FFFF_FFFF_FFFF)
            by (nonlinear_arith)
            requires
                rise_size <= 0xFFFF_FFFF_FFFF_FFFF,
                run_size <= 0xFFFF_FFFF_FFFF_FFFF,
        ;
        lemma_floor_div_by_magnitudes(rise as int, run as int, span as int);
    }
    let product: u128 = rise_size * run_size;
    let whole: u128 = product / span_size;
    let rest: u128 = product % span_size;
    proof {
        assert(product as int / span_size as int <= product as int) by (nonlinear_arith)
            requires
                0 <= product,
                1 <= span_size,
        ;
    }
    let steps: u128 = if negative && rest != 0 {
        whole + 1
    } else {
        whole
    };
    if steps > 0x1_0000_0000_0000_0000 {
        return None;
    }
    let offset: i128 = if negative {
        -(steps as i128)
    } else {
        steps as i128
    };
    let mapped: i128 = y0 as i128 + offset;
    if mapped < i64::MIN as i128 || mapped > i64::MAX as i128 {
        None
    } else {
        Some(mapped as i64)
    }
}

/// Mapping a value onto the second range and back returns it up to
/// rounding. With `back` the value mapped there and back,
/// `|back - val| * |y1 - y0| < |x1 - x0| + |y1 - y0|`: the error stays below
/// one step plus the number of steps of the first range that fall on one
/// step of the second. Onto a range at least as long as the first it is at
/// most one step.
pub proof fn lemma_map_range_round_trip(val: int, x0: int, x1: int, y0: int, y1: int)
    requires
        x0 != x1,
        y0 != y1,
    ensures
        ({
            let there = map_range_spec(val, x0, x1, y0, y1);
            let back = map_range_spec(there, y0, y1, x0, x1);
            &&& magnitude_spec(back - val) * magnitude_spec(y1 - y0) < magnitude_spec(x1 - x0)
                + magnitude_spec(y1 - y0)
            &&& magnitude_spec(x1 - x0) <= magnitude_spec(y1 - y0) ==> magnitude_spec(back - val)
                <= 1
        }),
{
    let run = x1 - x0;
    let rise = y1 - y0;
    let there = map_range_spec(val, x0, x1, y0, y1);
    let back = map_range_spec(there, y0, y1, x0, x1);
    let w = there - y0;
    let u = back - x0;
    let t = val - x0;
    lemma_floor_div_remainder(rise * t, run);
    lemma_floor_div_remainder(run * w, rise);
    let r1 = rise * t - w * run;
    let r2 = run * w - u * rise;
    assert(rise * (t - u) == r1 + r2) by (nonlinear_arith)
        requires
            r1 == rise * t - w * run,
            r2 == run * w - u * rise,
    ;
    assert(magnitude_spec(t - u) * magnitude_spec(rise) == magnitude_spec(rise * (t - u)))
        by (nonlinear_arith);
    let error = magnitude_spec(back - val);
    let fine = magnitude_spec(rise);
    assert(error == magnitude_spec(t - u));
    if magnitude_spec(run) <= fine {
        assert(error <= 1) by (nonlinear_arith)
            requires
                error * fine < 2 * fine,
                0 < fine,
                0 <= error,
        ;
    }
}

/// What rounding down leaves over: `n - floor_div(n, d) * d` has the sign
/// of `d` and is smaller than `d` in size. So `floor_div(n, d)` is the one
/// integer `q` with `q <= n / d < q + 1`.
pub proof fn lemma_floor_div_remainder(n: int, d: int)
    requires
        d != 0,
    ensures
        d > 0 ==> 0 <= n - floor_div(n, d) * d < d,
        d < 0 ==> d < n - floor_div(n, d) * d <= 0,
{
    if d > 0 {
        lemma_fundamental_div_mod(n, d);
        assert(floor_div(n, d) * d == d * (n / d)) by (nonlinear_arith)
            requires
                floor_div(n, d) == n / d,
        ;
    } else {
        lemma_fundamental_div_mod(-n, -d);
        let q = (-n) / (-d);
        assert(q * d == -((-d) * q)) by (nonlinear_arith);
    }
}

/// On an axis that runs upwards, a larger value never maps to a smaller
/// point: positions are monotonic in the value.
pub proof fn lemma_map_range_monotonic(v: int, w: int, x0: int, x1: int, y0: int, y1: int)
    requires
        x0 < x1,
        y0 <= y1,
        v <= w,
    ensures
        map_range_spec(v, x0, x1, y0, y1) <= map_range_spec(w, x0, x1, y0, y1),
{
    lemma_mul_inequality(v - x0, w - x0, y1 - y0);
    assert((y1 - y0) * (v - x0) <= (y1 - y0) * (w - x0)) by (nonlinear_arith)
        requires
            (v - x0) * (y1 - y0) <= (w - x0) * (y1 - y0),
    ;
    lemma_div_is_ordered((y1 - y0) * (v - x0), (y1 - y0) * (w - x0), x1 - x0);
}

} // verus!

use vstd::prelude::*;

verus! {

/// `v` clamped to the range of `i64`. Advances and positions are signed
/// fixed-point layout units; sums saturate instead of wrapping.
pub open spec fn clamp_i64(v: int) -> i64 {
    if v > i64::MAX {
        i64::MAX
    } else if v < i64::MIN {
        i64::MIN
    } else {
        v as i64
    }
}

/// Saturating addition of two advances.
pub fn sat_add(a: i64, b: i64) -> (r: i64)
    ensures
        r == clamp_i64(a + b),
{
    let s = a as i128 + b as i128;
    if s > i64::MAX as i128 {
        i64::MAX
    } else if s < i64::MIN as i128 {
        i64::MIN
    } else {
        s as i64
    }
}

/// Saturating subtraction of two advances.
pub fn sat_sub(a: i64, b: i64) -> (r: i64)
    ensures
        r == clamp_i64(a - b),
{
    let s = a as i128 - b as i128;
    if s > i64::MAX as i128 {
        i64::MAX
    } else if s < i64::MIN as i128 {
        i64::MIN
    } else {
        s as i64
    }
}

/// The advance from position `x` to the next tab stop of a grid with
/// spacing `interval`: the following stop when `x` is on a stop. This is
/// `(floor(x / interval) + 1) * interval - x`.
pub open spec fn spec_tab_advance(x: i64, interval: i64) -> int {
    interval - (x as int) % (interval as int)
}

/// The advance from `x` to the next stop of a tab grid of spacing
/// `interval`.
pub fn tab_advance(x: i64, interval: i64) -> (r: i64)
    requires
        interval > 0,
    ensures
        r == spec_tab_advance(x, interval),
        0 < r <= interval,
{
    let xi = x as i128;
    let ii = interval as i128;
    let m: i128 = if xi >= 0 {
        let m0 = xi % ii;
        assert(m0 == (x as int) % (interval as int));
        m0
    } else {
        let a = -xi;
        let ma = a % ii;
        let q = a / ii;
        assert(a == q * ii + ma && 0 <= ma < ii) by (nonlinear_arith)
            requires
                a > 0,
                ii > 0,
                ma == a % ii,
                q == a / ii,
        ;
        if ma == 0 {
            assert((x as int) % (interval as int) == 0) by (nonlinear_arith)
                requires
                    x == -(q * ii),
                    ii == interval,
                    ii > 0,
            {
                vstd::arithmetic::div_mod::lemma_mod_multiples_basic(-q as int, interval as int);
            }
            0
        } else {
            assert(x == -(q + 1) * ii + (ii - ma)) by (nonlinear_arith)
                requires
                    a == q * ii + ma,
                    a == -xi,
                    xi == x,
            ;
            assert((x as int) % (interval as int) == ii - ma) by (nonlinear_arith)
                requires
                    x == -(q + 1) * ii + (ii - ma),
                    ii == interval,
                    0 < ii - ma < ii,
            {
                vstd::arithmetic::div_mod::lemma_fundamental_div_mod_converse(
                    x as int,
                    interval as int,
                    -(q + 1) as int,
                    (ii - ma) as int,
                );
            }
            ii - ma
        }
    };
    (ii - m) as i64
}

} // verus!

//! Rounding to a fixed number of binary digits, to the nearest and halfway cases to the even one, as
//! binary floating-point arithmetic rounds. Numbers are integers in units of some power of two.
#[allow(unused_imports)]
use vstd::arithmetic::div_mod::*;
#[allow(unused_imports)]
use vstd::arithmetic::mul::*;
use vstd::prelude::*;

verus! {

/// What the significand of a double-precision number stays below.
pub const DOUBLE: u128 = 0x20_0000_0000_0000;

/// What the significand of a single-precision number stays below.
pub const SINGLE: u128 = 0x100_0000;

/// A quotient rounded to the nearest integer, halves to the even one.
pub open spec fn nearest(part: int, whole: int) -> int {
    let quotient = part / whole;
    let rest = part % whole;
    if 2 * rest > whole || (2 * rest == whole && quotient % 2 == 1) {
        quotient + 1
    } else {
        quotient
    }
}

/// Rounds a quotient to the nearest integer.
pub fn nearest_quotient(part: u128, whole: u128) -> (r: u128)
    requires
        whole > 0,
    ensures
        r == nearest(part as int, whole as int),
{
    let quotient: u128 = part / whole;
    let rest: u128 = part % whole;
    assert(rest > 0 ==> quotient < u128::MAX) by {
        lemma_fundamental_div_mod(part as int, whole as int);
        assert(quotient as int <= whole as int * quotient as int) by (nonlinear_arith)
            requires
                whole >= 1,
                quotient >= 0,
        ;
    }
    if rest > whole - rest || (rest == whole - rest && quotient % 2 == 1) {
        quotient + 1
    } else {
        quotient
    }
}

/// How far apart the numbers with a significand below `limit` are at `n`: the least power of two
/// that takes the limit above `n`.
pub open spec fn spacing(n: int, limit: int) -> int
    decreases 2 * n - limit,
{
    if n < limit || limit <= 0 {
        1
    } else {
        2 * spacing(n, 2 * limit)
    }
}

/// A number rounded to one with a significand below `limit`.
pub open spec fn kept(n: int, limit: int) -> int {
    nearest(n, spacing(n, limit)) * spacing(n, limit)
}

/// A number in double precision.
pub open spec fn double(n: int) -> int {
    kept(n, DOUBLE as int)
}

/// A number in single precision.
pub open spec fn single(n: int) -> int {
    kept(n, SINGLE as int)
}

/// Whether rounding leaves a number as it is.
pub open spec fn fits(n: int, limit: int) -> bool {
    n % spacing(n, limit) == 0
}

pub proof fn lemma_spacing(n: int, limit: int)
    requires
        0 <= n,
        0 < limit,
    ensures
        spacing(n, limit) >= 1,
        n < spacing(n, limit) * limit,
        spacing(n, limit) == 1 || spacing(n, limit) * limit <= 2 * n,
    decreases 2 * n - limit,
{
    if n >= limit {
        let half = spacing(n, 2 * limit);
        lemma_spacing(n, 2 * limit);
        assert(half * (2 * limit) == (2 * half) * limit) by (nonlinear_arith);
        if half == 1 {
            assert((2 * half) * limit == 2 * limit);
        }
    }
}

proof fn lemma_spacing_divides(n: int, x: int, limit: int)
    requires
        0 <= n,
        0 <= x,
        0 < limit,
        x < spacing(n, limit) * limit,
    ensures
        spacing(n, limit) % spacing(x, limit) == 0,
        spacing(x, limit) >= 1,
    decreases 2 * n - limit,
{
    if n >= limit && x >= limit {
        let u = spacing(n, 2 * limit);
        let s = spacing(x, 2 * limit);
        assert(u * (2 * limit) == (2 * u) * limit) by (nonlinear_arith);
        lemma_spacing_divides(n, x, 2 * limit);
        lemma_fundamental_div_mod(u, s);
        assert(2 * u == (u / s) * (2 * s)) by (nonlinear_arith)
            requires
                u == s * (u / s),
        ;
        lemma_mod_multiples_basic(u / s, 2 * s);
    }
}

proof fn lemma_spacing_at_carry(n: int, limit: int)
    requires
        0 <= n,
        0 < limit,
    ensures
        spacing(spacing(n, limit) * limit, limit) == 2 * spacing(n, limit),
    decreases 2 * n - limit,
{
    lemma_spacing(n, limit);
    let u = spacing(n, limit);
    assert(u * limit >= limit) by (nonlinear_arith)
        requires
            u >= 1,
            limit > 0,
    ;
    if n < limit {
        assert(spacing(limit, 2 * limit) == 1);
    } else {
        let half = spacing(n, 2 * limit);
        lemma_spacing_at_carry(n, 2 * limit);
        assert(half * (2 * limit) == (2 * half) * limit) by (nonlinear_arith);
    }
}

/// A number moves by at most its part in `limit`, and stays below the next power of two.
pub proof fn lemma_kept_error(n: int, limit: int)
    requires
        0 <= n,
        0 < limit,
    ensures
        0 <= kept(n, limit) <= spacing(n, limit) * limit,
        limit * (kept(n, limit) - n) <= n,
        limit * (n - kept(n, limit)) <= n,
        n < limit ==> kept(n, limit) == n,
{
    let u = spacing(n, limit);
    let q = n / u;
    let r = n % u;
    let k = nearest(n, u);
    lemma_spacing(n, limit);
    lemma_fundamental_div_mod(n, u);
    lemma_div_pos_is_pos(n, u);
    assert(q < limit) by (nonlinear_arith)
        requires
            n == u * q + r,
            0 <= r,
            n < u * limit,
            u >= 1,
    ;
    assert(0 <= k * u <= u * limit) by (nonlinear_arith)
        requires
            0 <= k <= limit,
            u >= 1,
    ;
    assert(k * u - n == if k == q {
        -r
    } else {
        u - r
    }) by (nonlinear_arith)
        requires
            n == u * q + r,
            k == q || k == q + 1,
    ;
    let e = k * u - n;
    if u > 1 {
        assert(limit * e <= n && limit * (-e) <= n) by (nonlinear_arith)
            requires
                2 * e <= u,
                -2 * e <= u,
                u * limit <= 2 * n,
                limit > 0,
        ;
    } else {
        assert(e == 0);
        assert(limit * e == 0 && limit * (-e) == 0) by (nonlinear_arith)
            requires
                e == 0,
        ;
    }
}

/// A number of 64 bits is rounded to 2^64 at most.
pub proof fn lemma_kept_of_u64(n: u64)
    ensures
        double(n as int) <= 0x1_0000_0000_0000_0000,
{
    reveal_with_fuel(spacing, 13);
    lemma_kept_error(n as int, DOUBLE as int);
}

/// A rounded number is not rounded again.
pub proof fn lemma_kept_fits(n: int, limit: int)
    requires
        0 <= n,
        0 < limit,
        limit % 2 == 0,
    ensures
        fits(kept(n, limit), limit),
{
    let u = spacing(n, limit);
    let k = nearest(n, u);
    let x = k * u;
    lemma_spacing(n, limit);
    lemma_kept_error(n, limit);
    if x < u * limit {
        lemma_spacing_divides(n, x, limit);
        let s = spacing(x, limit);
        lemma_fundamental_div_mod(u, s);
        assert(x == (k * (u / s)) * s) by (nonlinear_arith)
            requires
                x == k * u,
                u == s * (u / s),
        ;
        lemma_mod_multiples_basic(k * (u / s), s);
    } else {
        lemma_spacing_at_carry(n, limit);
        assert(x == (limit / 2) * (2 * u)) by (nonlinear_arith)
            requires
                x == u * limit,
                limit == 2 * (limit / 2),
        ;
        lemma_mod_multiples_basic(limit / 2, 2 * u);
    }
}

/// What is added to a rounded number counts twice at most.
pub proof fn lemma_kept_sum(n: int, added: int, limit: int)
    requires
        0 <= n,
        0 <= added,
        0 < limit,
        limit % 2 == 0,
        fits(n, limit),
    ensures
        kept(n + added, limit) <= n + 2 * added,
{
    let sum = n + added;
    let u = spacing(sum, limit);
    let v = spacing(n, limit);
    let q = sum / u;
    let r = sum % u;
    lemma_spacing(n, limit);
    lemma_spacing(sum, limit);
    lemma_fundamental_div_mod(sum, u);
    lemma_spacing_divides(sum, n, limit);
    assert(u * q >= n) by {
        if u == v {
            lemma_fundamental_div_mod(n, u);
            lemma_div_is_ordered(n, sum, u);
            assert(u * q >= u * (n / u)) by (nonlinear_arith)
                requires
                    q >= n / u,
                    u >= 1,
            ;
        } else {
            lemma_fundamental_div_mod(u, v);
            assert(u >= 2 * v) by (nonlinear_arith)
                requires
                    u == v * (u / v),
                    u != v,
                    u >= 1,
                    v >= 1,
            ;
            let h = limit / 2;
            assert(u * h <= sum) by (nonlinear_arith)
                requires
                    u * limit <= 2 * sum,
                    limit == 2 * h,
            ;
            assert(q >= h) by (nonlinear_arith)
                requires
                    sum == u * q + r,
                    r < u,
                    u * h <= sum,
                    u >= 1,
            ;
            assert(u * q >= v * limit) by (nonlinear_arith)
                requires
                    q >= h,
                    u >= 2 * v,
                    limit == 2 * h,
                    v >= 1,
                    h >= 0,
            ;
        }
    }
    let k = nearest(sum, u);
    assert(k * u == if k == q {
        u * q
    } else {
        u * q + u
    }) by (nonlinear_arith)
        requires
            k == q || k == q + 1,
    ;
}

/// A fraction below one in double precision: a significand over a power of two. The fraction is
/// `part / whole` over `power`.
pub open spec fn fraction(part: int, power: int, whole: int) -> (int, int)
    decreases DOUBLE * whole - part,
{
    if part <= 0 || 2 * part >= DOUBLE * whole {
        (nearest(part, whole), power)
    } else {
        fraction(2 * part, 2 * power, whole)
    }
}

/// The significand of a fraction is off by half at most, and the power is large.
pub proof fn lemma_fraction(limit: int, power: int, whole: int)
    requires
        0 < limit < whole,
        1 <= power,
        limit * power < DOUBLE * whole,
    ensures
        ({
            let (significand, scale) = fraction(limit * power, power, whole);
            &&& 0 <= significand <= DOUBLE
            &&& 2 * (whole * significand) <= 2 * (limit * scale) + whole
            &&& 2 * (limit * scale) <= 2 * (whole * significand) + whole
            &&& limit * scale < DOUBLE * whole
            &&& DOUBLE < 2 * scale
        }),
    decreases DOUBLE * whole - limit * power,
{
    let part = limit * power;
    assert(part >= 1) by (nonlinear_arith)
        requires
            part == limit * power,
            limit >= 1,
            power >= 1,
    ;
    if 2 * part >= DOUBLE * whole {
        lemma_fundamental_div_mod(part, whole);
        lemma_div_pos_is_pos(part, whole);
        let quotient = part / whole;
        assert(quotient < DOUBLE) by (nonlinear_arith)
            requires
                part < DOUBLE * whole,
                part == whole * quotient + part % whole,
                0 <= part % whole,
                whole > 0,
        ;
        assert(whole * (quotient + 1) == whole * quotient + whole) by (nonlinear_arith);
        assert(DOUBLE < 2 * power) by (nonlinear_arith)
            requires
                2 * (limit * power) >= DOUBLE * whole,
                whole > limit,
                limit > 0,
        ;
    } else {
        assert(limit * (2 * power) == 2 * part) by (nonlinear_arith)
            requires
                part == limit * power,
        ;
        lemma_fraction(limit, 2 * power, whole);
    }
}

/// Divides a number by a larger one.
pub fn divide(limit: u32, whole: u32) -> (r: (u128, u128))
    requires
        0 < limit < whole,
    ensures
        (r.0 as int, r.1 as int) == fraction(limit as int, 1, whole as int),
{
    let mut part: u128 = limit as u128;
    let mut power: u128 = 1;
    let bound: u128 = DOUBLE * whole as u128;
    while 2 * part < bound
        invariant
            0 < limit < whole,
            bound == DOUBLE * whole,
            1 <= power <= part <= bound,
            fraction(part as int, power as int, whole as int) == fraction(
                limit as int,
                1,
                whole as int,
            ),
        decreases bound - part,
    {
        part = 2 * part;
        power = 2 * power;
    }
    (nearest_quotient(part, whole as u128), power)
}

/// Rounds a number to one with a significand below `limit`.
pub fn keep(n: u128, limit: u128) -> (r: u128)
    requires
        n < 0x8000_0000_0000_0000_0000_0000_0000_0000,
        0 < limit <= 0x1_0000_0000_0000_0000,
    ensures
        r == kept(n as int, limit as int),
{
    let mut bound: u128 = limit;
    let mut unit: u128 = 1;
    while n >= bound
        invariant
            n < 0x8000_0000_0000_0000_0000_0000_0000_0000,
            0 < limit <= bound,
            1 <= unit <= bound,
            bound == unit * limit,
            spacing(n as int, limit as int) == unit * spacing(n as int, bound as int),
        decreases 2 * n - bound,
    {
        assert(unit * (2 * spacing(n as int, 2 * bound)) == (2 * unit) * spacing(
            n as int,
            2 * bound,
        )) by (nonlinear_arith);
        assert((2 * unit) * limit == 2 * (unit * limit)) by (nonlinear_arith);
        bound = 2 * bound;
        unit = 2 * unit;
    }
    proof {
        lemma_kept_error(n as int, limit as int);
    }
    nearest_quotient(n, unit) * unit
}

/// Rounding to a precision changes a number by at most half of what the precision resolves, and a
/// number that fits not at all.
pub proof fn law_rounding_is_to_the_nearest(n: int, limit: int)
    requires
        0 <= n,
        0 < limit,
    ensures
        2 * (kept(n, limit) - n) <= spacing(n, limit),
        2 * (n - kept(n, limit)) <= spacing(n, limit),
        n < limit ==> kept(n, limit) == n,
{
    let u = spacing(n, limit);
    lemma_spacing(n, limit);
    lemma_kept_error(n, limit);
    let q = n / u;
    lemma_fundamental_div_mod(n, u);
    assert(u * q == q * u) by (nonlinear_arith);
    assert((q + 1) * u == q * u + u) by (nonlinear_arith);
    assert(0 <= n % u < u) by {
        lemma_mod_bound(n, u);
    }
}

/// Rounding to an integer misses by at most a half.
pub proof fn law_nearest_integer_is_nearest(part: int, whole: int)
    requires
        whole > 0,
    ensures
        2 * (nearest(part, whole) * whole) <= 2 * part + whole,
        2 * part <= 2 * (nearest(part, whole) * whole) + whole,
{
    let q = part / whole;
    lemma_fundamental_div_mod(part, whole);
    lemma_mod_bound(part, whole);
    assert(whole * q == q * whole) by (nonlinear_arith);
    assert((q + 1) * whole == q * whole + whole) by (nonlinear_arith);
}

} // verus!
